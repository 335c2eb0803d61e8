//! The secondary coordinate decoder: reads the JSON that the external
//! metadata tool prints and parses its degree strings.
//!
//! The tool emits a JSON array whose first element carries the GPS values
//! as strings in the form `D deg M' S" R`, with `R` one of `N`, `S`, `E`,
//! `W`. The JSON navigation stands behind one trusted serde_json reader
//! whose contract names the two strings it hands out; the degree-string
//! grammar and the conversion to nanodegrees are verified exactly. Unlike
//! the primary decoder, this one signs both hemispheres.

use vstd::prelude::*;

use vstd::utf8::encode_utf8;

use crate::dms::spec_angle_e9;
use crate::numbers::{
    digits_canon, digits_val, find_byte, first_byte, parse_digits, parse_unsigned,
    spec_parse_unsigned,
};
use crate::photo_metadata::{coords_valid, lat_valid, lon_valid, PhotoMetadata};

verus! {

/// ASCII space.
pub const SPACE: u8 = 32;

/// ASCII apostrophe, ending the minutes.
pub const PRIME: u8 = 39;

/// ASCII double quote, ending the seconds.
pub const DQUOTE: u8 = 34;

/// What a degree string denotes: the magnitude in nanodegrees and the
/// hemisphere reference byte. The grammar is `D deg M' S" R`: whole
/// degrees (at most 360), whole minutes (at most 59), decimal seconds
/// (below 60), one reference byte at the end.
pub open spec fn spec_degstr(s: Seq<u8>) -> Option<(int, u8)> {
    let sp = first_byte(s, SPACE);
    if sp < 0 {
        None
    } else {
        let dstr = s.take(sp);
        let r1 = s.skip(sp);
        if !(digits_canon(dstr) && dstr.len() <= 4 && digits_val(dstr) <= 360) {
            None
        } else if !(r1.len() >= 5 && r1[1] == 100 && r1[2] == 101 && r1[3] == 103 && r1[4]
            == SPACE) {
            None
        } else {
            let r2 = r1.skip(5);
            let ap = first_byte(r2, PRIME);
            if ap < 0 {
                None
            } else {
                let mstr = r2.take(ap);
                if !(digits_canon(mstr) && mstr.len() <= 2 && digits_val(mstr) <= 59) {
                    None
                } else {
                    let r3 = r2.skip(ap + 1);
                    if !(r3.len() >= 1 && r3[0] == SPACE) {
                        None
                    } else {
                        let r4 = r3.skip(1);
                        let q = first_byte(r4, DQUOTE);
                        if q < 0 {
                            None
                        } else {
                            match spec_parse_unsigned(r4.take(q)) {
                                Some(se9) => {
                                    let r5 = r4.skip(q + 1);
                                    if se9 < 60_000_000_000 && r5.len() == 2 && r5[0] == SPACE {
                                        Some(
                                            (
                                                spec_angle_e9(digits_val(dstr), digits_val(mstr),
                                                    se9),
                                                r5[1],
                                            ),
                                        )
                                    } else {
                                        None
                                    }
                                },
                                None => None,
                            }
                        }
                    }
                }
            }
        }
    }
}

/// A degree string as a signed coordinate: `N` and `E` keep the sign, `S`
/// and `W` negate it, and the side selected by `lat` must use its own
/// reference letters and stay in range.
pub open spec fn spec_degstr_coord(s: Seq<u8>, lat: bool) -> Option<int> {
    match spec_degstr(s) {
        None => None,
        Some((v, r)) => {
            if lat && r == 78 {
                if lat_valid(v) {
                    Some(v)
                } else {
                    None
                }
            } else if lat && r == 83 {
                if lat_valid(-v) {
                    Some(-v)
                } else {
                    None
                }
            } else if !lat && r == 69 {
                if lon_valid(v) {
                    Some(v)
                } else {
                    None
                }
            } else if !lat && r == 87 {
                if lon_valid(-v) {
                    Some(-v)
                } else {
                    None
                }
            } else {
                None
            }
        },
    }
}

/// Parses a degree string, exactly as `spec_degstr` describes it.
pub fn parse_degstr(s: &[u8]) -> (r: Option<(i64, u8)>)
    ensures
        (r is Some) == (spec_degstr(s@) is Some),
        r matches Some(v) ==> spec_degstr(s@) == Some((v.0 as int, v.1)),
        r matches Some(v) ==> 0 <= v.0 <= 361_000_000_000,
{
    let sp: usize = match find_byte(s, SPACE) {
        Some(i) => i,
        None => {
            return None;
        },
    };
    let dstr: &[u8] = vstd::slice::slice_subrange(s, 0, sp);
    proof {
        assert(dstr@ =~= s@.take(first_byte(s@, SPACE)));
    }
    if dstr.len() == 0 || dstr.len() > 4 {
        return None;
    }
    if dstr.len() > 1 && dstr[0] == 48 {
        return None;
    }
    let d: u64 = match parse_digits(dstr) {
        Some(v) => v,
        None => {
            return None;
        },
    };
    if d > 360 {
        return None;
    }
    let r1: &[u8] = vstd::slice::slice_subrange(s, sp, s.len());
    proof {
        assert(r1@ =~= s@.skip(first_byte(s@, SPACE)));
    }
    if r1.len() < 5 || r1[1] != 100 || r1[2] != 101 || r1[3] != 103 || r1[4] != SPACE {
        return None;
    }
    let r2: &[u8] = vstd::slice::slice_subrange(r1, 5, r1.len());
    proof {
        assert(r2@ =~= r1@.skip(5));
    }
    let ap: usize = match find_byte(r2, PRIME) {
        Some(i) => i,
        None => {
            return None;
        },
    };
    let mstr: &[u8] = vstd::slice::slice_subrange(r2, 0, ap);
    proof {
        assert(mstr@ =~= r2@.take(first_byte(r2@, PRIME)));
    }
    if mstr.len() == 0 || mstr.len() > 2 {
        return None;
    }
    if mstr.len() > 1 && mstr[0] == 48 {
        return None;
    }
    let m: u64 = match parse_digits(mstr) {
        Some(v) => v,
        None => {
            return None;
        },
    };
    if m > 59 {
        return None;
    }
    let r3: &[u8] = vstd::slice::slice_subrange(r2, ap + 1, r2.len());
    proof {
        assert(r3@ =~= r2@.skip(first_byte(r2@, PRIME) + 1));
    }
    if r3.len() < 1 || r3[0] != SPACE {
        return None;
    }
    let r4: &[u8] = vstd::slice::slice_subrange(r3, 1, r3.len());
    proof {
        assert(r4@ =~= r3@.skip(1));
    }
    let q: usize = match find_byte(r4, DQUOTE) {
        Some(i) => i,
        None => {
            return None;
        },
    };
    let sstr: &[u8] = vstd::slice::slice_subrange(r4, 0, q);
    proof {
        assert(sstr@ =~= r4@.take(first_byte(r4@, DQUOTE)));
    }
    let se9: u64 = match parse_unsigned(sstr) {
        Some(v) => v,
        None => {
            return None;
        },
    };
    if se9 >= 60_000_000_000 {
        return None;
    }
    let r5: &[u8] = vstd::slice::slice_subrange(r4, q + 1, r4.len());
    proof {
        assert(r5@ =~= r4@.skip(first_byte(r4@, DQUOTE) + 1));
    }
    if r5.len() != 2 || r5[0] != SPACE {
        return None;
    }
    let v: u64 = d * 1_000_000_000 + (m * 1_000_000_000) / 60 + se9 / 3600;
    Some((v as i64, r5[1]))
}

/// Parses a degree string as a latitude or longitude, exactly as
/// `spec_degstr_coord` describes it.
pub fn parse_degstr_coord(s: &[u8], lat: bool) -> (r: Option<i64>)
    ensures
        (r is Some) == (spec_degstr_coord(s@, lat) is Some),
        r matches Some(v) ==> spec_degstr_coord(s@, lat) == Some(v as int),
        r matches Some(v) ==> (if lat {
            lat_valid(v as int)
        } else {
            lon_valid(v as int)
        }),
{
    let (v, rb): (i64, u8) = match parse_degstr(s) {
        Some(p) => p,
        None => {
            return None;
        },
    };
    if lat && rb == 78 {
        if v <= 90_000_000_000 {
            Some(v)
        } else {
            None
        }
    } else if lat && rb == 83 {
        if v <= 90_000_000_000 {
            Some(-v)
        } else {
            None
        }
    } else if !lat && rb == 69 {
        if v <= 180_000_000_000 {
            Some(v)
        } else {
            None
        }
    } else if !lat && rb == 87 {
        if v <= 180_000_000_000 {
            Some(-v)
        } else {
            None
        }
    } else {
        None
    }
}

/// The two GPS degree strings of the tool's output: the values of
/// `GPSLatitude` and `GPSLongitude` in the first element of the JSON
/// array, present exactly when the text parses as JSON, the first array
/// element exists, and both values are strings. The name stands for what
/// serde_json's parse and lookups return on the text alone;
/// `gps_strings` applies it.
pub uninterp spec fn exiftool_gps_strings(json: Seq<char>) -> Option<(Seq<char>, Seq<char>)>;

/// Relies on serde_json::from_str::<Value> and Value::get/as_str: parses
/// the tool's output and returns the GPSLatitude and GPSLongitude strings
/// of its first array element; nothing when the text is not JSON, the
/// element is absent, or either value is not a string.
#[verifier::external_body]
fn gps_strings(json: &str) -> (r: Option<(String, String)>)
    ensures
        (r is Some) == (exiftool_gps_strings(json@) is Some),
        r matches Some(p) ==> exiftool_gps_strings(json@) == Some((p.0@, p.1@)),
{
    let v: serde_json::Value = serde_json::from_str(json).ok()?;
    let first = v.get(0)?;
    let lat = first.get("GPSLatitude")?.as_str()?.to_owned();
    let lon = first.get("GPSLongitude")?.as_str()?.to_owned();
    Some((lat, lon))
}

/// The signed coordinate pair two degree strings denote, when both parse
/// for their side.
pub open spec fn spec_tool_coords(lat_s: Seq<char>, lon_s: Seq<char>) -> Option<(int, int)> {
    match (
        spec_degstr_coord(encode_utf8(lat_s), true),
        spec_degstr_coord(encode_utf8(lon_s), false),
    ) {
        (Some(la), Some(lo)) => Some((la, lo)),
        _ => None,
    }
}

/// The metadata document the secondary decoder settles on for given tool
/// output: the coordinates its two degree strings denote, or no
/// coordinates when the output or either string is unusable.
pub open spec fn spec_secondary_metadata(json: Seq<char>) -> PhotoMetadata {
    match exiftool_gps_strings(json) {
        None => PhotoMetadata { coordinates: None },
        Some(p) => match spec_tool_coords(p.0, p.1) {
            None => PhotoMetadata { coordinates: None },
            Some(c) => PhotoMetadata { coordinates: Some((c.0 as i64, c.1 as i64)) },
        },
    }
}

/// What the secondary decoder settles on is always well formed.
pub proof fn lemma_secondary_metadata_wf(json: Seq<char>)
    ensures
        spec_secondary_metadata(json).wf(),
{
}

/// Reads a coordinate pair out of the external tool's JSON output: the
/// first array element's GPSLatitude and GPSLongitude degree strings,
/// parsed and signed by `spec_degstr_coord`. The result is exactly the
/// coordinates of `spec_secondary_metadata`, and any pair returned is in
/// range.
pub fn parse_exiftool_json(json: &str) -> (r: Option<(i64, i64)>)
    ensures
        r == spec_secondary_metadata(json@).coordinates,
        r matches Some(c) ==> coords_valid(c),
{
    let (lat_s, lon_s): (String, String) = match gps_strings(json) {
        Some(p) => p,
        None => {
            return None;
        },
    };
    let la: i64 = match parse_degstr_coord(lat_s.as_str().as_bytes(), true) {
        Some(v) => v,
        None => {
            return None;
        },
    };
    let lo: i64 = match parse_degstr_coord(lon_s.as_str().as_bytes(), false) {
        Some(v) => v,
        None => {
            return None;
        },
    };
    Some((la, lo))
}

} // verus!
