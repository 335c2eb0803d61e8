//! Great-circle distance on a spherical Earth, computed entirely in
//! fixed-point integer arithmetic.
//!
//! Angles are carried in nanoradians (radians times 10^9), unit values such
//! as sines in billionths (value times 10^9), and distances in millimeters.
//! The sine and cosine are truncated Taylor series on the first quadrant;
//! the square root and the arcsine are binary searches. Every step has a
//! spec-level mirror, so the result of `compute_distance` is pinned exactly
//! and properties such as symmetry are proved about the same function the
//! executable code computes.

use vstd::arithmetic::div_mod::lemma_div_is_ordered;
use vstd::arithmetic::mul::{lemma_mul_is_commutative, lemma_mul_nonnegative, lemma_mul_upper_bound};
use vstd::prelude::*;

use crate::photo_metadata::{coords_valid, lat_valid, lon_valid};

verus! {

/// Scale of unit values: 10^9.
pub const UNIT: u64 = 1_000_000_000;

/// Scale of products of two unit values: 10^18.
pub const UNIT2: u128 = 1_000_000_000_000_000_000;

/// pi / 180 times 10^18, truncated: nanoradians per nanodegree, times 10^9.
pub const RAD_PER_DEG_E18: u128 = 17_453_292_519_943_295;

/// pi / 2 in nanoradians, rounded up: every first-quadrant angle is at most this.
pub const QUARTER_TURN: u64 = 1_570_796_327;

/// pi in nanoradians, rounded up.
pub const HALF_TURN: u64 = 3_141_592_654;

/// Mean Earth radius in millimeters (IUGG mean radius, 6371.0088 km).
pub const EARTH_RADIUS_MM: u64 = 6_371_008_800;

/// No distance this function returns exceeds this many millimeters
/// (half the Earth's circumference, with rounding headroom).
pub const DISTANCE_LIMIT_MM: u64 = 20_100_000_000;

/// Why a distance could not be computed.
#[derive(Clone, Copy, Debug, PartialEq, Eq)]
pub enum DistanceError {
    /// A latitude was outside [-90, 90] degrees or a longitude outside
    /// [-180, 180] degrees.
    InvalidCoordinate,
}

/// Nanodegrees (non-negative) to nanoradians, truncated.
pub open spec fn spec_nanorad(d: int) -> int {
    (d * RAD_PER_DEG_E18) / (UNIT2 as int)
}

/// Nanodegrees (either sign) to nanoradians, truncating toward zero.
pub open spec fn spec_signed_nanorad(d: int) -> int {
    if d < 0 {
        -spec_nanorad(-d)
    } else {
        spec_nanorad(d)
    }
}

/// Absolute difference.
pub open spec fn spec_abs_diff(a: int, b: int) -> int {
    if a >= b {
        a - b
    } else {
        b - a
    }
}

/// Sine on the first quadrant, in billionths: truncated Taylor series
/// through the 11th power, clamped to [0, 10^9].
pub open spec fn spec_sin_q(x: int) -> int {
    let x2 = x * x;
    let p3 = (x * x2) / (UNIT2 as int);
    let p5 = (p3 * x2) / (UNIT2 as int);
    let p7 = (p5 * x2) / (UNIT2 as int);
    let p9 = (p7 * x2) / (UNIT2 as int);
    let p11 = (p9 * x2) / (UNIT2 as int);
    let v = x - p3 / 6 + p5 / 120 - p7 / 5040 + p9 / 362880 - p11 / 39916800;
    if v < 0 {
        0
    } else if v > UNIT {
        UNIT as int
    } else {
        v
    }
}

/// Cosine on the first quadrant, in billionths: truncated Taylor series
/// through the 10th power, clamped to [0, 10^9].
pub open spec fn spec_cos_q(x: int) -> int {
    let x2 = x * x;
    let x4 = (x2 * x2) / (UNIT2 as int);
    let x6 = (x4 * x2) / (UNIT2 as int);
    let x8 = (x6 * x2) / (UNIT2 as int);
    let x10 = (x8 * x2) / (UNIT2 as int);
    let v = UNIT - x2 / (2 * UNIT as int) + x4 / (24 * UNIT as int) - x6 / (720 * UNIT as int)
        + x8 / (40320 * UNIT as int) - x10 / (3628800 * UNIT as int);
    if v < 0 {
        0
    } else if v > UNIT {
        UNIT as int
    } else {
        v
    }
}

/// Sine on [0, pi] nanoradians, by folding the second quadrant onto the first.
pub open spec fn spec_sin_h(x: int) -> int {
    if x > QUARTER_TURN {
        spec_sin_q(HALF_TURN - x)
    } else {
        spec_sin_q(x)
    }
}

/// Haversine of an angle in [0, pi] nanoradians: sin^2(x), at scale 10^18.
pub open spec fn spec_hav(x: int) -> int {
    spec_sin_h(x) * spec_sin_h(x)
}

/// One step of the square-root binary search on [lo, hi).
pub open spec fn sqrt_search(n: int, lo: int, hi: int) -> int
    decreases hi - lo,
{
    if hi - lo <= 1 {
        lo
    } else {
        let mid = (lo + hi) / 2;
        if mid * mid <= n {
            sqrt_search(n, mid, hi)
        } else {
            sqrt_search(n, lo, mid)
        }
    }
}

/// Integer square root of a value at scale 10^18, at scale 10^9.
pub open spec fn spec_isqrt(n: int) -> int {
    if n <= 0 {
        0
    } else {
        sqrt_search(n, 0, UNIT + 1)
    }
}

/// One step of the arcsine binary search on [lo, hi).
pub open spec fn asin_search(s: int, lo: int, hi: int) -> int
    decreases hi - lo,
{
    if hi - lo <= 1 {
        lo
    } else {
        let mid = (lo + hi) / 2;
        if spec_sin_q(mid) <= s {
            asin_search(s, mid, hi)
        } else {
            asin_search(s, lo, mid)
        }
    }
}

/// Arcsine of a value in billionths, in nanoradians: inverts `spec_sin_q`
/// by binary search.
pub open spec fn spec_asin(s: int) -> int {
    if s <= 0 {
        0
    } else {
        asin_search(s, 0, QUARTER_TURN + 1)
    }
}

/// The whole pipeline: haversine great-circle distance in millimeters
/// between two coordinate pairs given in nanodegrees.
pub open spec fn spec_haversine_mm(lat0: int, lon0: int, lat1: int, lon1: int) -> int {
    let rlat0 = spec_signed_nanorad(lat0);
    let rlat1 = spec_signed_nanorad(lat1);
    let rlon0 = spec_signed_nanorad(lon0);
    let rlon1 = spec_signed_nanorad(lon1);
    let hlat = spec_hav(spec_abs_diff(rlat0, rlat1) / 2);
    let hlon = spec_hav(spec_abs_diff(rlon0, rlon1) / 2);
    let cc = spec_cos_q(spec_abs_diff(rlat0, 0)) * spec_cos_q(spec_abs_diff(rlat1, 0));
    let a0 = hlat + (cc * hlon) / (UNIT2 as int);
    let a = if a0 > UNIT2 {
        UNIT2 as int
    } else {
        a0
    };
    (2 * EARTH_RADIUS_MM * spec_asin(spec_isqrt(a))) / (UNIT as int)
}

/// Multiplies two bounded values and rescales the product by 10^18,
/// reporting the exact quotient and a bound derived from the arguments'.
fn mul_unit(a: u128, b: u128, Ghost(amax): Ghost<int>, Ghost(bmax): Ghost<int>) -> (r: u128)
    requires
        a <= amax,
        b <= bmax,
        amax * bmax <= u128::MAX,
    ensures
        r as int == (a as int * b as int) / (UNIT2 as int),
        r as int <= (amax * bmax) / (UNIT2 as int),
{
    proof {
        lemma_mul_upper_bound(a as int, amax, b as int, bmax);
        lemma_mul_nonnegative(a as int, b as int);
        lemma_div_is_ordered(a as int * b as int, amax * bmax, UNIT2 as int);
    }
    (a * b) / UNIT2
}

/// Sine on the first quadrant, in billionths.
fn sin_quarter(x: u64) -> (r: u64)
    requires
        x <= QUARTER_TURN,
    ensures
        r as int == spec_sin_q(x as int),
        r <= UNIT,
{
    let xw: u128 = x as u128;
    proof {
        lemma_mul_upper_bound(xw as int, QUARTER_TURN as int, xw as int, QUARTER_TURN as int);
        lemma_mul_nonnegative(xw as int, xw as int);
    }
    let x2: u128 = xw * xw;
    let ghost x2max: int = (QUARTER_TURN as int) * (QUARTER_TURN as int);
    let p3: u128 = mul_unit(xw, x2, Ghost(QUARTER_TURN as int), Ghost(x2max));
    let ghost p3max: int = ((QUARTER_TURN as int) * x2max) / (UNIT2 as int);
    let p5: u128 = mul_unit(p3, x2, Ghost(p3max), Ghost(x2max));
    let ghost p5max: int = (p3max * x2max) / (UNIT2 as int);
    let p7: u128 = mul_unit(p5, x2, Ghost(p5max), Ghost(x2max));
    let ghost p7max: int = (p5max * x2max) / (UNIT2 as int);
    let p9: u128 = mul_unit(p7, x2, Ghost(p7max), Ghost(x2max));
    let ghost p9max: int = (p7max * x2max) / (UNIT2 as int);
    let p11: u128 = mul_unit(p9, x2, Ghost(p9max), Ghost(x2max));
    let v: i128 = x as i128 - (p3 / 6) as i128 + (p5 / 120) as i128 - (p7 / 5040) as i128 + (p9
        / 362880) as i128 - (p11 / 39916800) as i128;
    if v < 0 {
        0
    } else if v > UNIT as i128 {
        UNIT
    } else {
        v as u64
    }
}

/// Cosine on the first quadrant, in billionths.
fn cos_quarter(x: u64) -> (r: u64)
    requires
        x <= QUARTER_TURN,
    ensures
        r as int == spec_cos_q(x as int),
        r <= UNIT,
{
    let xw: u128 = x as u128;
    proof {
        lemma_mul_upper_bound(xw as int, QUARTER_TURN as int, xw as int, QUARTER_TURN as int);
        lemma_mul_nonnegative(xw as int, xw as int);
    }
    let x2: u128 = xw * xw;
    let ghost x2max: int = (QUARTER_TURN as int) * (QUARTER_TURN as int);
    let x4: u128 = mul_unit(x2, x2, Ghost(x2max), Ghost(x2max));
    let ghost x4max: int = (x2max * x2max) / (UNIT2 as int);
    let x6: u128 = mul_unit(x4, x2, Ghost(x4max), Ghost(x2max));
    let ghost x6max: int = (x4max * x2max) / (UNIT2 as int);
    let x8: u128 = mul_unit(x6, x2, Ghost(x6max), Ghost(x2max));
    let ghost x8max: int = (x6max * x2max) / (UNIT2 as int);
    let x10: u128 = mul_unit(x8, x2, Ghost(x8max), Ghost(x2max));
    let v: i128 = UNIT as i128 - (x2 / 2_000_000_000) as i128 + (x4 / 24_000_000_000) as i128 - (x6
        / 720_000_000_000) as i128 + (x8 / 40_320_000_000_000) as i128 - (x10
        / 3_628_800_000_000_000) as i128;
    if v < 0 {
        0
    } else if v > UNIT as i128 {
        UNIT
    } else {
        v as u64
    }
}

/// Sine on [0, pi] nanoradians, in billionths.
fn sin_half(x: u64) -> (r: u64)
    requires
        x < HALF_TURN,
    ensures
        r as int == spec_sin_h(x as int),
        r <= UNIT,
{
    if x > QUARTER_TURN {
        sin_quarter(HALF_TURN - x)
    } else {
        sin_quarter(x)
    }
}

/// The binary search for a square root stays within its bracket.
proof fn lemma_sqrt_search_range(n: int, lo: int, hi: int)
    requires
        lo < hi,
    ensures
        lo <= sqrt_search(n, lo, hi) < hi,
    decreases hi - lo,
{
    if hi - lo <= 1 {
    } else {
        let mid = (lo + hi) / 2;
        if mid * mid <= n {
            lemma_sqrt_search_range(n, mid, hi);
        } else {
            lemma_sqrt_search_range(n, lo, mid);
        }
    }
}

/// The binary search for an arcsine stays within its bracket.
proof fn lemma_asin_search_range(s: int, lo: int, hi: int)
    requires
        lo < hi,
    ensures
        lo <= asin_search(s, lo, hi) < hi,
    decreases hi - lo,
{
    if hi - lo <= 1 {
    } else {
        let mid = (lo + hi) / 2;
        if spec_sin_q(mid) <= s {
            lemma_asin_search_range(s, mid, hi);
        } else {
            lemma_asin_search_range(s, lo, mid);
        }
    }
}

/// Integer square root at scale 10^9 of a value at scale 10^18.
fn isqrt(n: u128) -> (r: u64)
    requires
        n <= UNIT2,
    ensures
        r as int == spec_isqrt(n as int),
        r <= UNIT,
{
    if n == 0 {
        return 0;
    }
    let mut lo: u64 = 0;
    let mut hi: u64 = UNIT + 1;
    while hi - lo > 1
        invariant
            lo < hi <= UNIT + 1,
            0 < n <= UNIT2,
            sqrt_search(n as int, lo as int, hi as int) == spec_isqrt(n as int),
        decreases hi - lo,
    {
        let mid: u64 = lo + (hi - lo) / 2;
        let midw: u128 = mid as u128;
        proof {
            assert((midw as int) * (midw as int) <= 1_000_000_002_000_000_001int)
                by (nonlinear_arith)
                requires
                    0 <= midw as int <= 1_000_000_001int,
            ;
        }
        if midw * midw <= n {
            lo = mid;
        } else {
            hi = mid;
        }
    }
    lo
}

/// Arcsine in nanoradians of a sine value in billionths.
fn asin_units(s: u64) -> (r: u64)
    requires
        s <= UNIT,
    ensures
        r as int == spec_asin(s as int),
        r <= QUARTER_TURN,
{
    if s == 0 {
        return 0;
    }
    let mut lo: u64 = 0;
    let mut hi: u64 = QUARTER_TURN + 1;
    while hi - lo > 1
        invariant
            lo < hi <= QUARTER_TURN + 1,
            0 < s <= UNIT,
            asin_search(s as int, lo as int, hi as int) == spec_asin(s as int),
        decreases hi - lo,
    {
        let mid: u64 = lo + (hi - lo) / 2;
        let sm: u64 = sin_quarter(mid);
        if sm <= s {
            lo = mid;
        } else {
            hi = mid;
        }
    }
    lo
}

/// Non-negative nanodegrees to nanoradians.
fn nanorad_abs(d: u64) -> (r: u64)
    requires
        d <= 180_000_000_000,
    ensures
        r as int == spec_nanorad(d as int),
        r <= 3_141_592_653,
        d <= 90_000_000_000 ==> r <= 1_570_796_326,
{
    proof {
        lemma_mul_upper_bound(d as int, 180_000_000_000, RAD_PER_DEG_E18 as int,
            RAD_PER_DEG_E18 as int);
        lemma_mul_nonnegative(d as int, RAD_PER_DEG_E18 as int);
        lemma_div_is_ordered(d as int * RAD_PER_DEG_E18 as int, 180_000_000_000
            * RAD_PER_DEG_E18 as int, UNIT2 as int);
        if d <= 90_000_000_000 {
            lemma_mul_upper_bound(d as int, 90_000_000_000, RAD_PER_DEG_E18 as int,
                RAD_PER_DEG_E18 as int);
            lemma_div_is_ordered(d as int * RAD_PER_DEG_E18 as int, 90_000_000_000
                * RAD_PER_DEG_E18 as int, UNIT2 as int);
        }
    }
    ((d as u128 * RAD_PER_DEG_E18) / UNIT2) as u64
}

/// Signed nanodegrees to nanoradians, truncating toward zero.
fn nanorad_signed(d: i64) -> (r: i64)
    requires
        -180_000_000_000 <= d <= 180_000_000_000,
    ensures
        r as int == spec_signed_nanorad(d as int),
        -3_141_592_653 <= r <= 3_141_592_653,
        -90_000_000_000 <= d <= 90_000_000_000 ==> -1_570_796_326 <= r <= 1_570_796_326,
{
    if d < 0 {
        let v: u64 = nanorad_abs((-d) as u64);
        -(v as i64)
    } else {
        nanorad_abs(d as u64) as i64
    }
}

/// Absolute difference of two bounded signed values.
fn abs_diff(a: i64, b: i64) -> (r: u64)
    requires
        -4_000_000_000 <= a <= 4_000_000_000,
        -4_000_000_000 <= b <= 4_000_000_000,
    ensures
        r as int == spec_abs_diff(a as int, b as int),
{
    if a >= b {
        (a - b) as u64
    } else {
        (b - a) as u64
    }
}

/// Haversine great-circle distance in millimeters between two coordinate
/// pairs given in nanodegrees, or `InvalidCoordinate` when either pair is
/// out of range. On valid inputs the result is exactly `spec_haversine_mm`.
pub fn compute_distance(p0: (i64, i64), p1: (i64, i64)) -> (r: Result<u64, DistanceError>)
    ensures
        r is Ok <==> coords_valid(p0) && coords_valid(p1),
        r is Ok ==> r->Ok_0 as int == spec_haversine_mm(p0.0 as int, p0.1 as int, p1.0 as int,
            p1.1 as int),
        r is Err ==> r == Err::<u64, DistanceError>(DistanceError::InvalidCoordinate),
{
    let (lat0, lon0) = p0;
    let (lat1, lon1) = p1;
    if lat0 < -90_000_000_000 || lat0 > 90_000_000_000 || lon0 < -180_000_000_000 || lon0
        > 180_000_000_000 || lat1 < -90_000_000_000 || lat1 > 90_000_000_000 || lon1
        < -180_000_000_000 || lon1 > 180_000_000_000 {
        return Err(DistanceError::InvalidCoordinate);
    }
    let rlat0: i64 = nanorad_signed(lat0);
    let rlat1: i64 = nanorad_signed(lat1);
    let rlon0: i64 = nanorad_signed(lon0);
    let rlon1: i64 = nanorad_signed(lon1);
    let dlat2: u64 = abs_diff(rlat0, rlat1) / 2;
    let dlon2: u64 = abs_diff(rlon0, rlon1) / 2;
    let sh_lat: u64 = sin_half(dlat2);
    let sh_lon: u64 = sin_half(dlon2);
    proof {
        lemma_mul_upper_bound(sh_lat as int, UNIT as int, sh_lat as int, UNIT as int);
        lemma_mul_nonnegative(sh_lat as int, sh_lat as int);
        lemma_mul_upper_bound(sh_lon as int, UNIT as int, sh_lon as int, UNIT as int);
        lemma_mul_nonnegative(sh_lon as int, sh_lon as int);
    }
    let hlat: u128 = (sh_lat as u128) * (sh_lat as u128);
    let hlon: u128 = (sh_lon as u128) * (sh_lon as u128);
    let c0: u64 = cos_quarter(abs_diff(rlat0, 0));
    let c1: u64 = cos_quarter(abs_diff(rlat1, 0));
    proof {
        lemma_mul_upper_bound(c0 as int, UNIT as int, c1 as int, UNIT as int);
        lemma_mul_nonnegative(c0 as int, c1 as int);
    }
    let cc: u128 = (c0 as u128) * (c1 as u128);
    let t: u128 = mul_unit(cc, hlon, Ghost(UNIT2 as int), Ghost(UNIT2 as int));
    let a0: u128 = hlat + t;
    let a: u128 = if a0 > UNIT2 {
        UNIT2
    } else {
        a0
    };
    let sq: u64 = isqrt(a);
    let asn: u64 = asin_units(sq);
    proof {
        lemma_mul_upper_bound(2 * EARTH_RADIUS_MM as int, 2 * EARTH_RADIUS_MM as int, asn as int,
            QUARTER_TURN as int);
        lemma_mul_nonnegative(2 * EARTH_RADIUS_MM as int, asn as int);
        lemma_div_is_ordered((2 * EARTH_RADIUS_MM as int) * (asn as int), (2
            * EARTH_RADIUS_MM as int) * (QUARTER_TURN as int), UNIT as int);
    }
    let num: u128 = 2 * (EARTH_RADIUS_MM as u128) * (asn as u128);
    Ok((num / (UNIT as u128)) as u64)
}

/// The distance from any valid point to itself is zero.
pub proof fn lemma_distance_identity(lat: int, lon: int)
    requires
        lat_valid(lat),
        lon_valid(lon),
    ensures
        spec_haversine_mm(lat, lon, lat, lon) == 0,
{
    let r = spec_signed_nanorad(lat);
    assert(spec_abs_diff(r, r) == 0);
    assert(spec_sin_q(0) == 0);
    let cc = spec_cos_q(spec_abs_diff(r, 0)) * spec_cos_q(spec_abs_diff(r, 0));
    assert(spec_hav(0) == 0);
    vstd::arithmetic::mul::lemma_mul_basics(cc);
    assert(cc * spec_hav(0) == 0);
    assert(spec_isqrt(0) == 0);
    assert(spec_asin(0) == 0);
    assert(2 * EARTH_RADIUS_MM * 0 == 0);
}

/// The distance is symmetric in its two points.
pub proof fn lemma_distance_symmetric(lat0: int, lon0: int, lat1: int, lon1: int)
    ensures
        spec_haversine_mm(lat0, lon0, lat1, lon1) == spec_haversine_mm(lat1, lon1, lat0, lon0),
{
    let rlat0 = spec_signed_nanorad(lat0);
    let rlat1 = spec_signed_nanorad(lat1);
    let rlon0 = spec_signed_nanorad(lon0);
    let rlon1 = spec_signed_nanorad(lon1);
    assert(spec_abs_diff(rlat0, rlat1) == spec_abs_diff(rlat1, rlat0));
    assert(spec_abs_diff(rlon0, rlon1) == spec_abs_diff(rlon1, rlon0));
    lemma_mul_is_commutative(spec_cos_q(spec_abs_diff(rlat0, 0)), spec_cos_q(spec_abs_diff(rlat1,
        0)));
}

/// No distance exceeds `DISTANCE_LIMIT_MM`, and none is negative.
pub proof fn lemma_distance_bound(lat0: int, lon0: int, lat1: int, lon1: int)
    ensures
        0 <= spec_haversine_mm(lat0, lon0, lat1, lon1) <= DISTANCE_LIMIT_MM,
{
    let rlat0 = spec_signed_nanorad(lat0);
    let rlat1 = spec_signed_nanorad(lat1);
    let rlon0 = spec_signed_nanorad(lon0);
    let rlon1 = spec_signed_nanorad(lon1);
    let hlat = spec_hav(spec_abs_diff(rlat0, rlat1) / 2);
    let hlon = spec_hav(spec_abs_diff(rlon0, rlon1) / 2);
    let cc = spec_cos_q(spec_abs_diff(rlat0, 0)) * spec_cos_q(spec_abs_diff(rlat1, 0));
    let a0 = hlat + (cc * hlon) / (UNIT2 as int);
    let a = if a0 > UNIT2 {
        UNIT2 as int
    } else {
        a0
    };
    let s = spec_isqrt(a);
    let asn = spec_asin(s);
    if s <= 0 {
        assert(asn == 0);
    } else {
        lemma_asin_search_range(s, 0, QUARTER_TURN as int + 1);
    }
    assert(0 <= asn <= QUARTER_TURN);
    lemma_mul_upper_bound(2 * EARTH_RADIUS_MM as int, 2 * EARTH_RADIUS_MM as int, asn,
        QUARTER_TURN as int);
    lemma_mul_nonnegative(2 * EARTH_RADIUS_MM as int, asn);
    lemma_div_is_ordered((2 * EARTH_RADIUS_MM as int) * asn, (2 * EARTH_RADIUS_MM as int) * (
    QUARTER_TURN as int), UNIT as int);
}

} // verus!

