//! Degrees, minutes and seconds to nanodegrees.
//!
//! Both decoders express an angle the same way in the end: whole degrees,
//! whole minutes, and seconds. The primary decoder reads each component as
//! a rational number; the secondary decoder reads seconds already scaled to
//! billionths. This module holds the one conversion both reduce to, and the
//! proof that the two reductions agree.

use vstd::arithmetic::div_mod::{
    lemma_div_denominator, lemma_div_is_ordered_by_denominator, lemma_div_multiples_vanish,
};
use vstd::arithmetic::mul::lemma_mul_is_commutative;
use vstd::prelude::*;

use crate::numbers::{lemma_pow10_adds, lemma_pow10_increases, pow10};

verus! {

/// Nanodegrees in one degree.
pub const ANGLE_E9: i64 = 1_000_000_000;

/// An angle from whole degrees, whole minutes, and seconds scaled by
/// 10^9; the minute and second divisions truncate.
pub open spec fn spec_angle_e9(d: int, m: int, s_e9: int) -> int {
    d * ANGLE_E9 + (m * ANGLE_E9) / 60 + s_e9 / 3600
}

/// An angle from three rationals (numerator, denominator) for degrees,
/// minutes and seconds, as the primary decoder reads them; each component
/// is scaled and truncated separately.
pub open spec fn spec_rational_angle_e9(
    dn: int,
    dd: int,
    mn: int,
    md: int,
    sn: int,
    sd: int,
) -> int {
    (dn * ANGLE_E9) / dd + (mn * ANGLE_E9) / (60 * md) + (sn * ANGLE_E9) / (3600 * sd)
}

/// Converts three rationals to nanodegrees, negated when `west` is set.
/// Components must be non-negative with positive denominators, and the
/// magnitude must stay within 180 degrees; anything else is rejected.
pub fn rationals_to_nanodeg(deg: (i64, i64), min: (i64, i64), sec: (i64, i64), west: bool) -> (r:
    Option<i64>)
    ensures
        r is Some <==> (deg.0 >= 0 && deg.1 >= 1 && min.0 >= 0 && min.1 >= 1 && sec.0 >= 0 && sec.1
            >= 1 && 0 <= spec_rational_angle_e9(deg.0 as int, deg.1 as int, min.0 as int,
            min.1 as int, sec.0 as int, sec.1 as int) <= 180_000_000_000),
        r matches Some(v) ==> v as int == if west {
            -spec_rational_angle_e9(deg.0 as int, deg.1 as int, min.0 as int, min.1 as int,
                sec.0 as int, sec.1 as int)
        } else {
            spec_rational_angle_e9(deg.0 as int, deg.1 as int, min.0 as int, min.1 as int,
                sec.0 as int, sec.1 as int)
        },
{
    if deg.0 < 0 || deg.1 < 1 || min.0 < 0 || min.1 < 1 || sec.0 < 0 || sec.1 < 1 {
        return None;
    }
    proof {
        lemma_component_bounds(deg.0 as int, deg.1 as int, 1);
        lemma_component_bounds(min.0 as int, min.1 as int, 60);
        lemma_component_bounds(sec.0 as int, sec.1 as int, 3600);
    }
    let dt: i128 = (deg.0 as i128 * ANGLE_E9 as i128) / (deg.1 as i128);
    let mt: i128 = (min.0 as i128 * ANGLE_E9 as i128) / (60 * min.1 as i128);
    let st: i128 = (sec.0 as i128 * ANGLE_E9 as i128) / (3600 * sec.1 as i128);
    let v: i128 = dt + mt + st;
    if v > 180_000_000_000 {
        return None;
    }
    if west {
        Some((-v) as i64)
    } else {
        Some(v as i64)
    }
}

/// One scaled rational component is non-negative and no larger than its
/// scaled numerator.
proof fn lemma_component_bounds(n: int, den: int, unit: int)
    requires
        0 <= n <= 0x7fff_ffff_ffff_ffff,
        1 <= den <= 0x7fff_ffff_ffff_ffff,
        1 <= unit <= 3600,
    ensures
        0 <= (n * ANGLE_E9) / (unit * den) <= n * ANGLE_E9,
        n * ANGLE_E9 <= 0x7fff_ffff_ffff_ffff * 1_000_000_000,
        1 <= unit * den <= 3600 * 0x7fff_ffff_ffff_ffff,
{
    assert(n * ANGLE_E9 <= 0x7fff_ffff_ffff_ffff * 1_000_000_000) by (nonlinear_arith)
        requires
            0 <= n <= 0x7fff_ffff_ffff_ffff,
    ;
    vstd::arithmetic::mul::lemma_mul_nonnegative(n, ANGLE_E9 as int);
    assert(1 <= unit * den <= 3600 * 0x7fff_ffff_ffff_ffff) by (nonlinear_arith)
        requires
            1 <= den <= 0x7fff_ffff_ffff_ffff,
            1 <= unit <= 3600,
    ;
    vstd::arithmetic::div_mod::lemma_div_pos_is_pos(n * ANGLE_E9, unit * den);
    lemma_div_is_ordered_by_denominator(n * ANGLE_E9, 1, unit * den);
}

/// The decoders agree: seconds given as the rational `x / 10^k` (the
/// fraction a decimal string with `k` fraction digits denotes) convert to
/// the same nanodegrees through the primary decoder's rational path as
/// through the secondary decoder's billionths path, for whole degrees and
/// minutes. The hemisphere sign also agrees for the references N, E and W;
/// for S the primary decoder's west-only sign rule differs by design.
pub proof fn lemma_decoders_agree(d: int, m: int, x: int, k: nat)
    requires
        0 <= d,
        0 <= m,
        0 <= x,
        k <= 9,
    ensures
        spec_rational_angle_e9(d, 1, m, 1, x, pow10(k)) == spec_angle_e9(d, m, x * pow10(
            (9 - k) as nat)),
{
    lemma_pow10_increases(0, k);
    lemma_pow10_increases(0, (9 - k) as nat);
    assert((d * ANGLE_E9) / 1int == d * ANGLE_E9);
    assert((m * ANGLE_E9) / (60int * 1int) == (m * ANGLE_E9) / 60);
    let p = pow10(k);
    let q = pow10((9 - k) as nat);
    lemma_pow10_adds((9 - k) as nat, k);
    assert(pow10(9) == 1_000_000_000) by {
        reveal_with_fuel(pow10, 10);
    }
    assert(q * p == 1_000_000_000);
    assert(x * ANGLE_E9 == (x * q) * p) by (nonlinear_arith)
        requires
            q * p == 1_000_000_000,
    ;
    lemma_div_multiples_vanish(x * q, p);
    assert((p * (x * q)) / p == x * q);
    lemma_mul_is_commutative(p, x * q);
    assert((x * ANGLE_E9) / p == x * q);
    lemma_div_denominator(x * ANGLE_E9, p, 3600);
    assert((x * ANGLE_E9) / (p * 3600) == ((x * ANGLE_E9) / p) / 3600);
    lemma_mul_is_commutative(p, 3600);
    assert((x * ANGLE_E9) / (3600 * p) == (x * q) / 3600);
}

} // verus!
