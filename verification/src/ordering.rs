//! Ordering of search results.
//!
//! Results are presented ascending by distance, with ties broken by the
//! path string, ascending by scalar values. That relation is a total
//! order, and the sort below is proved to arrange any result vector by
//! it while keeping exactly the same results.

use vstd::multiset::Multiset;
use vstd::prelude::*;

use crate::FilterResult;

verus! {

/// Lexicographic order on character sequences, by scalar value.
pub open spec fn lex_le(a: Seq<char>, b: Seq<char>) -> bool
    decreases a.len(),
{
    if a.len() == 0 {
        true
    } else if b.len() == 0 {
        false
    } else if (a[0] as u32) < (b[0] as u32) {
        true
    } else if (a[0] as u32) > (b[0] as u32) {
        false
    } else {
        lex_le(a.skip(1), b.skip(1))
    }
}

/// The presentation order: by distance, ties by path.
pub open spec fn result_le(a: FilterResult, b: FilterResult) -> bool {
    a.distance < b.distance || (a.distance == b.distance && lex_le(a.path@, b.path@))
}

/// `lex_le` is total.
pub proof fn lemma_lex_total(a: Seq<char>, b: Seq<char>)
    ensures
        lex_le(a, b) || lex_le(b, a),
    decreases a.len(),
{
    if a.len() > 0 && b.len() > 0 && (a[0] as u32) == (b[0] as u32) {
        lemma_lex_total(a.skip(1), b.skip(1));
    }
}

/// `lex_le` is transitive.
pub proof fn lemma_lex_trans(a: Seq<char>, b: Seq<char>, c: Seq<char>)
    requires
        lex_le(a, b),
        lex_le(b, c),
    ensures
        lex_le(a, c),
    decreases a.len(),
{
    if a.len() > 0 && b.len() > 0 && c.len() > 0 && (a[0] as u32) == (b[0] as u32) && (
    b[0] as u32) == (c[0] as u32) {
        lemma_lex_trans(a.skip(1), b.skip(1), c.skip(1));
    }
}

/// `result_le` is total.
pub proof fn lemma_result_total(a: FilterResult, b: FilterResult)
    ensures
        result_le(a, b) || result_le(b, a),
{
    lemma_lex_total(a.path@, b.path@);
}

/// `result_le` is transitive.
pub proof fn lemma_result_trans(a: FilterResult, b: FilterResult, c: FilterResult)
    requires
        result_le(a, b),
        result_le(b, c),
    ensures
        result_le(a, c),
{
    if a.distance == b.distance && b.distance == c.distance {
        lemma_lex_trans(a.path@, b.path@, c.path@);
    }
}

/// Lexicographic comparison of two strings, as `lex_le` describes it.
fn lex_le_exec(a: &str, b: &str) -> (r: bool)
    ensures
        r == lex_le(a@, b@),
{
    let an: usize = a.unicode_len();
    let bn: usize = b.unicode_len();
    let mut i: usize = 0;
    proof {
        assert(a@.skip(0) =~= a@);
        assert(b@.skip(0) =~= b@);
    }
    while i < an && i < bn
        invariant
            0 <= i <= an == a@.len(),
            0 <= i <= bn == b@.len(),
            lex_le(a@, b@) == lex_le(a@.skip(i as int), b@.skip(i as int)),
            lex_le(b@, a@) == lex_le(b@.skip(i as int), a@.skip(i as int)),
        decreases an - i,
    {
        let ca: char = a.get_char(i);
        let cb: char = b.get_char(i);
        if (ca as u32) < (cb as u32) {
            return true;
        }
        if (ca as u32) > (cb as u32) {
            return false;
        }
        proof {
            assert(a@.skip(i as int).skip(1) =~= a@.skip(i + 1));
            assert(b@.skip(i as int).skip(1) =~= b@.skip(i + 1));
            assert(a@.skip(i as int)[0] == a@[i as int]);
            assert(b@.skip(i as int)[0] == b@[i as int]);
        }
        i = i + 1;
    }
    proof {
        if i >= an {
            assert(a@.skip(i as int).len() == 0);
        } else {
            assert(b@.skip(i as int).len() == 0);
            assert(a@.skip(i as int).len() > 0);
        }
    }
    i >= an
}

/// Comparison of two results, as `result_le` describes it.
fn result_le_exec(a: &FilterResult, b: &FilterResult) -> (r: bool)
    ensures
        r == result_le(*a, *b),
{
    if a.distance < b.distance {
        true
    } else if a.distance == b.distance {
        lex_le_exec(a.path.as_str(), b.path.as_str())
    } else {
        false
    }
}

/// A sequence is arranged: every earlier result is `result_le` every
/// later one.
pub open spec fn results_ordered(s: Seq<FilterResult>) -> bool {
    forall|i: int, j: int| 0 <= i < j < s.len() ==> result_le(#[trigger] s[i], #[trigger] s[j])
}

/// Sorts the results by distance, ties by path: afterwards the vector
/// holds exactly the results it held before, arranged by `result_le`.
pub fn sort_results(found: &mut Vec<FilterResult>)
    ensures
        results_ordered(final(found)@),
        final(found)@.to_multiset() == old(found)@.to_multiset(),
{
    broadcast use vstd::seq_lib::group_to_multiset_ensures;
    broadcast use vstd::multiset::group_multiset_axioms;

    let mut out: Vec<FilterResult> = Vec::new();
    let ghost orig = found@;
    proof {
        assert(out@.to_multiset().add(found@.to_multiset()) =~= orig.to_multiset());
    }
    while found.len() > 0
        invariant
            results_ordered(out@),
            out@.to_multiset().add(found@.to_multiset()) == orig.to_multiset(),
            forall|i: int, j: int|
                0 <= i < out@.len() && 0 <= j < found@.len() ==> result_le(#[trigger] out@[i],
                    #[trigger] found@[j]),
        decreases found@.len(),
    {
        let mut m: usize = 0;
        let mut j: usize = 1;
        proof {
            lemma_result_total(found@[0], found@[0]);
        }
        while j < found.len()
            invariant
                0 <= m < j <= found@.len(),
                forall|k: int| 0 <= k < j ==> result_le(found@[m as int], #[trigger] found@[k]),
            decreases found@.len() - j,
        {
            if result_le_exec(&found[j], &found[m]) {
                proof {
                    assert forall|k: int| 0 <= k < j + 1 implies result_le(found@[j as int],
                        #[trigger] found@[k]) by {
                        if k < j {
                            lemma_result_trans(found@[j as int], found@[m as int], found@[k]);
                        } else {
                            lemma_result_total(found@[j as int], found@[j as int]);
                        }
                    }
                }
                m = j;
            } else {
                proof {
                    lemma_result_total(found@[j as int], found@[m as int]);
                }
            }
            j = j + 1;
        }
        let ghost before = found@;
        let x: FilterResult = found.remove(m);
        let ghost xg = x;
        proof {
            broadcast use vstd::multiset::group_multiset_axioms;

            vstd::seq_lib::to_multiset_remove(before, m as int);
            vstd::seq_lib::to_multiset_build(out@, xg);
            assert(xg == before[m as int]);
            assert(before.contains(xg));
            vstd::seq_lib::to_multiset_contains(before, xg);
            assert(before.to_multiset().count(xg) > 0);
            assert(found@ == before.remove(m as int));
            assert(before.remove(m as int).to_multiset() =~= before.to_multiset().remove(xg));
            assert(out@.push(xg).to_multiset() =~= out@.to_multiset().insert(xg));
            assert(out@.push(xg).to_multiset().add(found@.to_multiset()) =~= orig.to_multiset());
            assert forall|i: int, j2: int|
                0 <= i < out@.push(xg).len() && 0 <= j2 < found@.len() implies result_le(
                #[trigger] out@.push(xg)[i], #[trigger] found@[j2]) by {
                assert(found@[j2] == before[j2] || found@[j2] == before[j2 + 1]);
                if i < out@.len() {
                    assert(result_le(out@[i], found@[j2]));
                } else {
                    assert(out@.push(xg)[i] == xg);
                }
            }
            assert forall|i: int, j2: int| 0 <= i < j2 < out@.push(xg).len() implies result_le(
                #[trigger] out@.push(xg)[i], #[trigger] out@.push(xg)[j2]) by {
                if j2 == out@.len() {
                    assert(result_le(out@[i], xg)) by {
                        assert(before[m as int] == xg);
                    }
                }
            }
        }
        out.push(x);
    }
    proof {
        assert(found@.to_multiset() =~= Multiset::<FilterResult>::empty());
        assert(out@.to_multiset().add(found@.to_multiset()) =~= out@.to_multiset());
    }
    *found = out;
}

} // verus!
