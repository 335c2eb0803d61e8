//! Decimal strings and nanodegree values.
//!
//! Coordinates travel through JSON documents and tool output as decimal
//! degree strings such as `-108.276076`. This module gives the crate one
//! exact grammar for those strings and the conversion in both directions:
//! parsing truncates the magnitude to nanodegrees, formatting writes the
//! shortest decimal form (no leading zeros, no trailing fraction zeros).

use vstd::prelude::*;
use vstd::string::StringSliceAdditionalSpecFns;

verus! {

/// ASCII digit zero.
pub const ZERO: u8 = 48;

/// ASCII minus sign.
pub const MINUS: u8 = 45;

/// ASCII decimal point.
pub const DOT: u8 = 46;

/// Nanodegrees in one degree, as an unsigned value.
pub const DEG_E9: u64 = 1_000_000_000;

/// Largest whole-degree magnitude a parsed value may carry: with nine
/// fraction digits this still fits an `i64` of nanodegrees.
pub const WHOLE_LIMIT: u64 = 9_000_000_000;

/// Is this byte an ASCII digit?
pub open spec fn is_digit(b: u8) -> bool {
    ZERO <= b <= 57
}

/// Every byte of the sequence is an ASCII digit.
pub open spec fn all_digits(s: Seq<u8>) -> bool {
    forall|i: int| 0 <= i < s.len() ==> is_digit(#[trigger] s[i])
}

/// The number the digit string denotes, most significant digit first.
pub open spec fn digits_val(s: Seq<u8>) -> int
    decreases s.len(),
{
    if s.len() == 0 {
        0
    } else {
        digits_val(s.drop_last()) * 10 + (s.last() - ZERO)
    }
}

/// A canonical digit string: non-empty, all digits, no leading zero
/// (except the single digit `0` itself).
pub open spec fn digits_canon(s: Seq<u8>) -> bool {
    &&& s.len() > 0
    &&& all_digits(s)
    &&& (s.len() == 1 || s[0] != ZERO)
}

/// Ten to the `k`.
pub open spec fn pow10(k: nat) -> int
    decreases k,
{
    if k == 0 {
        1
    } else {
        10 * pow10((k - 1) as nat)
    }
}

/// Index of the first decimal point, or -1 when there is none.
pub open spec fn first_dot(s: Seq<u8>) -> int
    decreases s.len(),
{
    if s.len() == 0 {
        -1
    } else if s[0] == DOT {
        0
    } else {
        let r = first_dot(s.skip(1));
        if r == -1 {
            -1
        } else {
            r + 1
        }
    }
}

/// The fraction digit string, read as billionths: truncated past nine
/// digits, scaled up when shorter.
pub open spec fn frac_scaled(s: Seq<u8>) -> int {
    if s.len() >= 9 {
        digits_val(s.take(9))
    } else {
        digits_val(s) * pow10((9 - s.len()) as nat)
    }
}

/// Parse an unsigned decimal degree string into nanodegrees.
pub open spec fn spec_parse_unsigned(s: Seq<u8>) -> Option<int> {
    let d = first_dot(s);
    if d == -1 {
        if digits_canon(s) && s.len() <= 11 && digits_val(s) <= WHOLE_LIMIT {
            Some(digits_val(s) * DEG_E9)
        } else {
            None
        }
    } else {
        let ip = s.take(d);
        let fp = s.skip(d + 1);
        if digits_canon(ip) && ip.len() <= 11 && digits_val(ip) <= WHOLE_LIMIT && fp.len() > 0
            && all_digits(fp) {
            Some(digits_val(ip) * DEG_E9 + frac_scaled(fp))
        } else {
            None
        }
    }
}

/// Parse a decimal degree string, optionally signed, into nanodegrees.
/// The magnitude is truncated toward zero past the ninth fraction digit.
pub open spec fn spec_parse_nanodeg(s: Seq<u8>) -> Option<int> {
    if s.len() > 0 && s[0] == MINUS {
        match spec_parse_unsigned(s.skip(1)) {
            Some(v) => Some(-v),
            None => None,
        }
    } else {
        spec_parse_unsigned(s)
    }
}

/// A digit string is bounded by ten to its length.
pub proof fn lemma_digits_val_bound(s: Seq<u8>)
    requires
        all_digits(s),
    ensures
        0 <= digits_val(s) < pow10(s.len()),
    decreases s.len(),
{
    if s.len() == 0 {
    } else {
        lemma_digits_val_bound(s.drop_last());
        assert(digits_val(s.drop_last()) * 10 <= (pow10((s.len() - 1) as nat) - 1) * 10)
            by (nonlinear_arith)
            requires
                digits_val(s.drop_last()) <= pow10((s.len() - 1) as nat) - 1,
        ;
    }
}

/// Scanning one more digit multiplies the prefix value by ten and adds it.
proof fn lemma_digits_val_step(s: Seq<u8>, i: int)
    requires
        0 <= i < s.len(),
    ensures
        digits_val(s.take(i + 1)) == digits_val(s.take(i)) * 10 + (s[i] - ZERO),
{
    assert(s.take(i + 1).drop_last() =~= s.take(i));
    assert(s.take(i + 1).last() == s[i]);
}

/// Read a digit slice as a number. `None` exactly when the slice is empty
/// or holds a non-digit.
pub fn parse_digits(s: &[u8]) -> (r: Option<u64>)
    requires
        s@.len() <= 11,
    ensures
        r is Some <==> (s@.len() > 0 && all_digits(s@)),
        r matches Some(v) ==> v == digits_val(s@),
{
    if s.len() == 0 {
        return None;
    }
    let mut acc: u64 = 0;
    let mut i: usize = 0;
    while i < s.len()
        invariant
            0 <= i <= s@.len() <= 11,
            all_digits(s@.take(i as int)),
            acc == digits_val(s@.take(i as int)),
            acc < 100_000_000_000,
        decreases s@.len() - i,
    {
        let b: u8 = s[i];
        if b < ZERO || b > 57 {
            return None;
        }
        proof {
            lemma_digits_val_step(s@, i as int);
            lemma_digits_val_bound(s@.take(i as int));
            lemma_pow10_increases(s@.take(i as int).len(), 10);
            assert(pow10(10) == 10_000_000_000) by {
                reveal_with_fuel(pow10, 11);
            }
        }
        acc = acc * 10 + ((b - ZERO) as u64);
        i = i + 1;
    }
    proof {
        assert(s@.take(s@.len() as int) =~= s@);
    }
    Some(acc)
}

/// Checks that every byte of a slice is an ASCII digit.
pub fn all_digits_exec(s: &[u8]) -> (r: bool)
    ensures
        r == all_digits(s@),
{
    let mut i: usize = 0;
    while i < s.len()
        invariant
            0 <= i <= s@.len(),
            all_digits(s@.take(i as int)),
        decreases s@.len() - i,
    {
        let b: u8 = s[i];
        if b < ZERO || b > 57 {
            return false;
        }
        proof {
            assert(s@.take(i + 1).drop_last() =~= s@.take(i as int));
        }
        i = i + 1;
    }
    proof {
        assert(s@.take(s@.len() as int) =~= s@);
    }
    true
}

/// Finds the first decimal point, as `first_dot` describes it.
fn find_dot(s: &[u8]) -> (r: Option<usize>)
    ensures
        r matches Some(i) ==> first_dot(s@) == i as int && i < s@.len(),
        r is None ==> first_dot(s@) == -1,
{
    let mut i: usize = 0;
    while i < s.len()
        invariant
            0 <= i <= s@.len(),
            forall|j: int| 0 <= j < i ==> s@[j] != DOT,
        decreases s@.len() - i,
    {
        if s[i] == DOT {
            proof {
                lemma_first_dot_at(s@, i as int);
            }
            return Some(i);
        }
        i = i + 1;
    }
    proof {
        lemma_first_dot_at(s@, s@.len() as int);
    }
    None
}

/// If no decimal point occurs before `i`, and `i` is either the length or
/// the position of one, then `first_dot` reports exactly that.
proof fn lemma_first_dot_at(s: Seq<u8>, i: int)
    requires
        0 <= i <= s.len(),
        forall|j: int| 0 <= j < i ==> s[j] != DOT,
        i < s.len() ==> s[i] == DOT,
    ensures
        first_dot(s) == if i == s.len() {
            -1int
        } else {
            i
        },
    decreases s.len(),
{
    if s.len() == 0 {
    } else if s[0] == DOT {
    } else {
        lemma_first_dot_at(s.skip(1), i - 1);
    }
}

/// The scaled fraction value is below one whole degree.
proof fn lemma_frac_scaled_bound(f: Seq<u8>)
    requires
        f.len() > 0,
        all_digits(f),
    ensures
        0 <= frac_scaled(f) < DEG_E9,
{
    assert(pow10(9) == 1_000_000_000) by {
        reveal_with_fuel(pow10, 10);
    }
    if f.len() >= 9 {
        lemma_digits_val_bound(f.take(9));
        assert(f.take(9).len() == 9);
    } else {
        let l = f.len();
        let k = (9 - l) as nat;
        lemma_digits_val_bound(f);
        lemma_pow10_pos(k);
        lemma_pow10_pos(l);
        vstd::arithmetic::mul::lemma_mul_nonnegative(digits_val(f), pow10(k));
        vstd::arithmetic::mul::lemma_mul_upper_bound(digits_val(f), pow10(l) - 1, pow10(k), pow10(
            k));
        lemma_pow10_adds(l, k);
        assert((pow10(l) - 1) * pow10(k) == pow10(l) * pow10(k) - pow10(k)) by (nonlinear_arith);
    }
}

/// Powers of ten multiply by adding exponents.
pub proof fn lemma_pow10_adds(a: nat, b: nat)
    ensures
        pow10(a) * pow10(b) == pow10((a + b) as nat),
    decreases a,
{
    if a == 0 {
        vstd::arithmetic::mul::lemma_mul_basics(pow10(b));
    } else {
        lemma_pow10_adds((a - 1) as nat, b);
        vstd::arithmetic::mul::lemma_mul_is_associative(10, pow10((a - 1) as nat), pow10(b));
    }
}

/// Parse an unsigned decimal degree slice into nanodegrees, as
/// `spec_parse_unsigned` describes.
pub fn parse_unsigned(s: &[u8]) -> (r: Option<u64>)
    ensures
        (r is Some) == (spec_parse_unsigned(s@) is Some),
        r matches Some(v) ==> Some(v as int) == spec_parse_unsigned(s@),
        r matches Some(v) ==> v <= 9_000_000_001_000_000_000,
{
    let dot: Option<usize> = find_dot(s);
    let ip: &[u8] = match dot {
        None => s,
        Some(d) => vstd::slice::slice_subrange(s, 0, d),
    };
    proof {
        if dot is Some {
            assert(ip@ =~= s@.take(first_dot(s@)));
        } else {
            assert(ip@ =~= s@);
        }
    }
    if ip.len() == 0 || ip.len() > 11 {
        return None;
    }
    if ip.len() > 1 && ip[0] == ZERO {
        return None;
    }
    let whole: u64 = match parse_digits(ip) {
        Some(v) => v,
        None => {
            return None;
        },
    };
    if whole > WHOLE_LIMIT {
        return None;
    }
    let frac: u64 = match dot {
        None => 0,
        Some(d) => {
            let f: &[u8] = vstd::slice::slice_subrange(s, d + 1, s.len());
            proof {
                assert(f@ =~= s@.skip(first_dot(s@) + 1));
            }
            if f.len() == 0 || !all_digits_exec(f) {
                return None;
            }
            proof {
                lemma_frac_scaled_bound(f@);
            }
            if f.len() >= 9 {
                let nine: &[u8] = vstd::slice::slice_subrange(f, 0, 9);
                proof {
                    assert(nine@ =~= f@.take(9));
                    assert(all_digits(nine@));
                }
                match parse_digits(nine) {
                    Some(v) => v,
                    None => {
                        proof {
                            assert(false);
                        }
                        return None;
                    },
                }
            } else {
                let v: u64 = match parse_digits(f) {
                    Some(v) => v,
                    None => {
                        proof {
                            assert(false);
                        }
                        return None;
                    },
                };
                v * pow10_exec((9 - f.len()) as u32)
            }
        },
    };
    Some(whole * DEG_E9 + frac)
}

/// Ten to the `k`, executable.
fn pow10_exec(k: u32) -> (r: u64)
    requires
        k <= 9,
    ensures
        r as int == pow10(k as nat),
    decreases k,
{
    proof {
        assert(pow10(9) == 1_000_000_000) by {
            reveal_with_fuel(pow10, 10);
        }
        lemma_pow10_increases(k as nat, 9);
    }
    if k == 0 {
        1
    } else {
        10 * pow10_exec(k - 1)
    }
}

/// Parse a decimal degree slice, optionally signed, into nanodegrees, as
/// `spec_parse_nanodeg` describes.
pub fn parse_nanodeg(s: &[u8]) -> (r: Option<i64>)
    ensures
        (r is Some) == (spec_parse_nanodeg(s@) is Some),
        r matches Some(v) ==> Some(v as int) == spec_parse_nanodeg(s@),
{
    if s.len() > 0 && s[0] == MINUS {
        let rest: &[u8] = vstd::slice::slice_subrange(s, 1, s.len());
        proof {
            assert(rest@ =~= s@.skip(1));
        }
        match parse_unsigned(rest) {
            Some(v) => Some(-(v as i64)),
            None => None,
        }
    } else {
        match parse_unsigned(s) {
            Some(v) => Some(v as i64),
            None => None,
        }
    }
}

/// Digit string of a non-negative number, most significant digit first,
/// without leading zeros.
pub open spec fn enc_uint(n: int) -> Seq<u8>
    decreases n,
{
    if n < 10 {
        seq![(ZERO + n) as u8]
    } else {
        enc_uint(n / 10).push((ZERO + n % 10) as u8)
    }
}

/// Digit string of a non-negative number, zero-padded to exactly `k` digits.
pub open spec fn enc_pad(n: int, k: nat) -> Seq<u8>
    decreases k,
{
    if k == 0 {
        Seq::empty()
    } else {
        enc_pad(n / 10, (k - 1) as nat).push((ZERO + n % 10) as u8)
    }
}

/// Drop trailing zero digits.
pub open spec fn strip_zeros(s: Seq<u8>) -> Seq<u8>
    decreases s.len(),
{
    if s.len() > 0 && s.last() == ZERO {
        strip_zeros(s.drop_last())
    } else {
        s
    }
}

/// The canonical decimal string for a nanodegree value: optional sign,
/// whole degrees without leading zeros, and the fraction without trailing
/// zeros (omitted entirely when zero).
pub open spec fn spec_format_nanodeg(v: int) -> Seq<u8> {
    let sign: Seq<u8> = if v < 0 {
        seq![MINUS]
    } else {
        Seq::empty()
    };
    let m = if v < 0 {
        -v
    } else {
        v
    };
    let whole = m / (DEG_E9 as int);
    let frac = m % (DEG_E9 as int);
    if frac == 0 {
        sign + enc_uint(whole)
    } else {
        sign + enc_uint(whole) + seq![DOT] + strip_zeros(enc_pad(frac, 9))
    }
}

/// `enc_uint` produces the canonical digit string of its argument.
pub proof fn lemma_enc_uint_ok(n: int)
    requires
        0 <= n,
    ensures
        digits_canon(enc_uint(n)),
        digits_val(enc_uint(n)) == n,
        n < pow10(enc_uint(n).len()),
        enc_uint(n).len() >= 2 ==> pow10((enc_uint(n).len() - 1) as nat) <= n,
        n >= 1 ==> enc_uint(n)[0] != ZERO,
    decreases n,
{
    if n < 10 {
        let s = enc_uint(n);
        assert(s.drop_last() =~= Seq::<u8>::empty());
        assert(digits_val(Seq::<u8>::empty()) == 0);
        assert(digits_val(s) == digits_val(s.drop_last()) * 10 + (s.last() - ZERO));
        assert(pow10(1) == 10) by {
            reveal_with_fuel(pow10, 2);
        }
    } else {
        lemma_enc_uint_ok(n / 10);
        let t = enc_uint(n / 10);
        let s = enc_uint(n);
        assert(s.drop_last() =~= t);
        assert(s[0] == t[0]);
        assert(digits_val(s) == digits_val(t) * 10 + n % 10);
        lemma_pow10_pos(t.len());
    }
}

/// `enc_pad` produces exactly `k` digits denoting its argument.
pub proof fn lemma_enc_pad_ok(n: int, k: nat)
    requires
        0 <= n < pow10(k),
    ensures
        all_digits(enc_pad(n, k)),
        enc_pad(n, k).len() == k,
        digits_val(enc_pad(n, k)) == n,
    decreases k,
{
    if k == 0 {
    } else {
        lemma_pow10_pos((k - 1) as nat);
        lemma_enc_pad_ok(n / 10, (k - 1) as nat);
        let t = enc_pad(n / 10, (k - 1) as nat);
        let s = enc_pad(n, k);
        assert(s.drop_last() =~= t);
        assert(digits_val(s) == digits_val(t) * 10 + n % 10);
    }
}

/// Stripping trailing zeros from a fraction keeps the value it denotes as
/// billionths.
proof fn lemma_strip_frac(p: Seq<u8>)
    requires
        all_digits(p),
        p.len() <= 9,
        digits_val(p) > 0,
    ensures
        0 < strip_zeros(p).len() <= p.len(),
        all_digits(strip_zeros(p)),
        digits_val(strip_zeros(p)) * pow10((9 - strip_zeros(p).len()) as nat) == digits_val(p)
            * pow10((9 - p.len()) as nat),
    decreases p.len(),
{
    if p.len() == 0 {
    } else if p.last() == ZERO {
        let q = p.drop_last();
        assert(all_digits(q));
        assert(digits_val(p) == digits_val(q) * 10);
        lemma_digits_val_bound(q);
        lemma_strip_frac(q);
        assert(strip_zeros(p) == strip_zeros(q));
        assert(pow10((9 - q.len()) as nat) == 10 * pow10((9 - p.len()) as nat));
        assert(digits_val(q) * 10 * pow10((9 - p.len()) as nat) == digits_val(q) * pow10((9
            - q.len()) as nat)) by (nonlinear_arith)
            requires
                pow10((9 - q.len()) as nat) == 10 * pow10((9 - p.len()) as nat),
        ;
    } else {
    }
}

/// Stripping trailing zeros keeps every remaining byte a digit.
pub proof fn lemma_strip_digits(p: Seq<u8>)
    requires
        all_digits(p),
    ensures
        all_digits(strip_zeros(p)),
        strip_zeros(p).len() <= p.len(),
    decreases p.len(),
{
    if p.len() > 0 && p.last() == ZERO {
        assert(all_digits(p.drop_last()));
        lemma_strip_digits(p.drop_last());
    }
}

/// Index of the first occurrence of `b`, or -1 when there is none.
pub open spec fn first_byte(s: Seq<u8>, b: u8) -> int
    decreases s.len(),
{
    if s.len() == 0 {
        -1
    } else if s[0] == b {
        0
    } else {
        let r = first_byte(s.skip(1), b);
        if r == -1 {
            -1
        } else {
            r + 1
        }
    }
}

/// Finds the first occurrence of `b`, as `first_byte` describes it.
pub fn find_byte(s: &[u8], b: u8) -> (r: Option<usize>)
    ensures
        r matches Some(i) ==> first_byte(s@, b) == i as int && i < s@.len(),
        r is None ==> first_byte(s@, b) == -1,
{
    let mut i: usize = 0;
    while i < s.len()
        invariant
            0 <= i <= s@.len(),
            forall|j: int| 0 <= j < i ==> s@[j] != b,
        decreases s@.len() - i,
    {
        if s[i] == b {
            proof {
                lemma_first_byte_at(s@, b, i as int);
            }
            return Some(i);
        }
        i = i + 1;
    }
    proof {
        lemma_first_byte_at(s@, b, s@.len() as int);
    }
    None
}

/// If `b` does not occur before `i`, and `i` is the length or the position
/// of an occurrence, then `first_byte` reports exactly that.
pub proof fn lemma_first_byte_at(s: Seq<u8>, b: u8, i: int)
    requires
        0 <= i <= s.len(),
        forall|j: int| 0 <= j < i ==> s[j] != b,
        i < s.len() ==> s[i] == b,
    ensures
        first_byte(s, b) == if i == s.len() {
            -1int
        } else {
            i
        },
    decreases s.len(),
{
    if s.len() == 0 {
    } else if s[0] == b {
    } else {
        lemma_first_byte_at(s.skip(1), b, i - 1);
    }
}

/// A pure digit string holds no decimal point.
proof fn lemma_first_dot_none(s: Seq<u8>)
    requires
        all_digits(s),
    ensures
        first_dot(s) == -1,
    decreases s.len(),
{
    if s.len() > 0 {
        assert(all_digits(s.skip(1)));
        lemma_first_dot_none(s.skip(1));
    }
}

/// The first decimal point of `digits.point.rest` is right after the digits.
proof fn lemma_first_dot_concat(a: Seq<u8>, b: Seq<u8>)
    requires
        all_digits(a),
    ensures
        first_dot(a + seq![DOT] + b) == a.len(),
    decreases a.len(),
{
    let s = a + seq![DOT] + b;
    if a.len() == 0 {
        assert(s[0] == DOT);
    } else {
        assert(s[0] == a[0]);
        assert(s.skip(1) =~= a.skip(1) + seq![DOT] + b);
        assert(all_digits(a.skip(1)));
        lemma_first_dot_concat(a.skip(1), b);
    }
}

/// Formatting a nanodegree value and parsing it back returns the value:
/// the decimal grammar round-trips.
pub proof fn lemma_format_parse_roundtrip(v: int)
    requires
        -9_000_000_000_999_999_999 <= v <= 9_000_000_000_999_999_999,
    ensures
        spec_parse_nanodeg(spec_format_nanodeg(v)) == Some(v),
{
    if v < 0 {
        lemma_format_parse_pos(-v);
        let s = spec_format_nanodeg(v);
        let t = spec_format_nanodeg(-v);
        assert(s.skip(1) =~= t);
        assert(s[0] == MINUS);
        lemma_enc_uint_ok((-v) / (DEG_E9 as int));
    } else {
        lemma_format_parse_pos(v);
        let s = spec_format_nanodeg(v);
        lemma_enc_uint_ok(v / (DEG_E9 as int));
        assert(s[0] != MINUS);
    }
}

/// The round trip for non-negative values.
proof fn lemma_format_parse_pos(v: int)
    requires
        0 <= v <= 9_000_000_000_999_999_999,
    ensures
        spec_parse_unsigned(spec_format_nanodeg(v)) == Some(v),
        spec_format_nanodeg(v).len() > 0,
        is_digit(spec_format_nanodeg(v)[0]),
{
    let whole = v / (DEG_E9 as int);
    let frac = v % (DEG_E9 as int);
    vstd::arithmetic::div_mod::lemma_fundamental_div_mod(v, DEG_E9 as int);
    let ip = enc_uint(whole);
    lemma_enc_uint_ok(whole);
    assert(pow10(10) == 10_000_000_000) by {
        reveal_with_fuel(pow10, 11);
    }
    if ip.len() >= 11 {
        lemma_pow10_increases(10, (ip.len() - 1) as nat);
        assert(false);
    }
    if frac == 0 {
        let s = spec_format_nanodeg(v);
        assert(s =~= ip);
        lemma_first_dot_none(s);
    } else {
        assert(pow10(9) == 1_000_000_000) by {
            reveal_with_fuel(pow10, 10);
        }
        let p = enc_pad(frac, 9);
        lemma_enc_pad_ok(frac, 9);
        lemma_strip_frac(p);
        let f = strip_zeros(p);
        vstd::arithmetic::mul::lemma_mul_basics(digits_val(f));
        vstd::arithmetic::mul::lemma_mul_basics(digits_val(p));
        if f.len() == 9 {
            assert(f.take(9) =~= f);
            assert(frac_scaled(f) == frac);
        } else {
            assert(frac_scaled(f) == frac);
        }
        let s = spec_format_nanodeg(v);
        assert(s =~= ip + seq![DOT] + f);
        lemma_first_dot_concat(ip, f);
        let d = first_dot(s);
        assert(s.take(d) =~= ip);
        assert(s.skip(d + 1) =~= f);
    }
}

/// Appends the digits of `n`, as `enc_uint` describes them.
fn push_uint(out: &mut Vec<u8>, n: u64)
    ensures
        final(out)@ == old(out)@ + enc_uint(n as int),
    decreases n,
{
    if n < 10 {
        out.push(ZERO + n as u8);
        proof {
            assert(out@ =~= old(out)@ + enc_uint(n as int));
        }
    } else {
        push_uint(out, n / 10);
        out.push(ZERO + (n % 10) as u8);
        proof {
            assert(out@ =~= old(out)@ + enc_uint(n as int));
        }
    }
}

/// Appends the `k`-digit zero-padded form of `n`, as `enc_pad` describes it.
fn push_pad(out: &mut Vec<u8>, n: u64, k: usize)
    ensures
        final(out)@ == old(out)@ + enc_pad(n as int, k as nat),
    decreases k,
{
    if k == 0 {
        proof {
            assert(out@ =~= old(out)@ + enc_pad(n as int, 0));
        }
    } else {
        push_pad(out, n / 10, k - 1);
        out.push(ZERO + (n % 10) as u8);
        proof {
            assert(out@ =~= old(out)@ + enc_pad(n as int, k as nat));
        }
    }
}

/// Writes a nanodegree value as its canonical decimal string, the form
/// that `spec_format_nanodeg` describes and `parse_nanodeg` reads back.
pub fn format_nanodeg(v: i64) -> (r: Vec<u8>)
    requires
        -9_000_000_000_999_999_999 <= v <= 9_000_000_000_999_999_999,
    ensures
        r@ == spec_format_nanodeg(v as int),
{
    let mut out: Vec<u8> = Vec::new();
    let m: u64 = if v < 0 {
        out.push(MINUS);
        (-v) as u64
    } else {
        v as u64
    };
    let whole: u64 = m / DEG_E9;
    let frac: u64 = m % DEG_E9;
    push_uint(&mut out, whole);
    if frac == 0 {
        proof {
            assert(out@ =~= spec_format_nanodeg(v as int));
        }
        return out;
    }
    out.push(DOT);
    let mut fr: Vec<u8> = Vec::new();
    push_pad(&mut fr, frac, 9);
    proof {
        assert(fr@ =~= enc_pad(frac as int, 9));
    }
    while fr.len() > 0 && fr[fr.len() - 1] == ZERO
        invariant
            strip_zeros(fr@) == strip_zeros(enc_pad(frac as int, 9)),
        decreases fr.len(),
    {
        let ghost before = fr@;
        let _ = fr.pop();
        proof {
            assert(fr@ =~= before.drop_last());
        }
    }
    proof {
        assert(strip_zeros(fr@) == fr@);
    }
    out.append(&mut fr);
    proof {
        assert(out@ =~= spec_format_nanodeg(v as int));
    }
    out
}

/// String equality by view.
pub fn str_eq(a: &str, b: &str) -> (r: bool)
    ensures
        r == (a@ == b@),
{
    let ab: &[u8] = a.as_bytes();
    let bb: &[u8] = b.as_bytes();
    proof {
        vstd::utf8::encode_utf8_decode_utf8(a@);
        vstd::utf8::encode_utf8_decode_utf8(b@);
    }
    if ab.len() != bb.len() {
        return false;
    }
    let mut i: usize = 0;
    while i < ab.len()
        invariant
            0 <= i <= ab@.len() == bb@.len(),
            ab@ == a.spec_bytes() && bb@ == b.spec_bytes(),
            vstd::utf8::decode_utf8(a.spec_bytes()) == a@,
            vstd::utf8::decode_utf8(b.spec_bytes()) == b@,
            forall|j: int| 0 <= j < i ==> ab@[j] == bb@[j],
        decreases ab@.len() - i,
    {
        if ab[i] != bb[i] {
            return false;
        }
        i = i + 1;
    }
    proof {
        assert(ab@ =~= bb@);
    }
    true
}

/// `pow10` is positive.
pub proof fn lemma_pow10_pos(a: nat)
    ensures
        0 < pow10(a),
    decreases a,
{
    if a > 0 {
        lemma_pow10_pos((a - 1) as nat);
    }
}

/// `pow10` grows with its argument.
pub proof fn lemma_pow10_increases(a: nat, b: nat)
    requires
        a <= b,
    ensures
        0 < pow10(a) <= pow10(b),
    decreases b,
{
    lemma_pow10_pos(a);
    if a < b {
        lemma_pow10_increases(a, (b - 1) as nat);
    }
}

} // verus!
