//! Reading coordinates out of a geocoding response.
//!
//! The address lookup itself is a network call and lives outside the
//! library; what arrives here is the service's response text, a feature
//! collection. The first feature's geometry carries its coordinates as
//! the array `[longitude, latitude]`; this module turns that into a
//! (latitude, longitude) pair in nanodegrees.

use vstd::prelude::*;
use vstd::utf8::encode_utf8;

use crate::numbers::{parse_nanodeg, spec_parse_nanodeg};
use crate::photo_metadata::{coords_valid, lat_valid, lon_valid, LAT_LIMIT, LON_LIMIT};

verus! {

/// The two coordinate number strings of a geocoding response: the decimal
/// literals of `features[0].geometry.coordinates[1]` (the latitude) and
/// `[0]` (the longitude), present exactly when the text parses as JSON,
/// that path exists, and both elements are numbers. The name stands for
/// what serde_json's parse, lookups and number printing return on the
/// text alone; `coord_number_strings` applies it.
pub uninterp spec fn geocode_coord_strings(body: Seq<char>) -> Option<(Seq<char>, Seq<char>)>;

/// Relies on serde_json::from_str::<Value>, Value::get, and the Display
/// form of serde_json::Number (it prints the number's decimal literal,
/// with no quotes or spaces): parses the response and returns the
/// latitude and longitude literals of the first feature's point; nothing
/// when the text is not JSON, the path is absent, or either element is
/// not a number.
#[verifier::external_body]
fn coord_number_strings(body: &str) -> (r: Option<(String, String)>)
    ensures
        (r is Some) == (geocode_coord_strings(body@) is Some),
        r matches Some(p) ==> geocode_coord_strings(body@) == Some((p.0@, p.1@)),
{
    let v: serde_json::Value = serde_json::from_str(body).ok()?;
    let coords = v.get("features")?.get(0)?.get("geometry")?.get("coordinates")?;
    let lat = match coords.get(1)? {
        serde_json::Value::Number(n) => n.to_string(),
        _ => return None,
    };
    let lon = match coords.get(0)? {
        serde_json::Value::Number(n) => n.to_string(),
        _ => return None,
    };
    Some((lat, lon))
}

/// The coordinate pair two decimal literals denote, when both parse and
/// are in range for their side.
pub open spec fn spec_geo_coords(lat_s: Seq<char>, lon_s: Seq<char>) -> Option<(int, int)> {
    match (spec_parse_nanodeg(encode_utf8(lat_s)), spec_parse_nanodeg(encode_utf8(lon_s))) {
        (Some(la), Some(lo)) => if lat_valid(la) && lon_valid(lo) {
            Some((la, lo))
        } else {
            None
        },
        _ => None,
    }
}

/// Reads the first feature's point out of a geocoding response, as
/// (latitude, longitude) in nanodegrees: exactly the parse of the two
/// number strings that `geocode_coord_strings` names, with the stored
/// `[longitude, latitude]` order swapped. A number whose literal is in
/// exponent form is not in the decimal grammar and is dropped as
/// `None`, as is anything out of range.
pub fn json_to_coords(body: &str) -> (r: Option<(i64, i64)>)
    ensures
        r == match geocode_coord_strings(body@) {
            None => None::<(i64, i64)>,
            Some(p) => match spec_geo_coords(p.0, p.1) {
                None => None::<(i64, i64)>,
                Some(c) => Some((c.0 as i64, c.1 as i64)),
            },
        },
        r matches Some(c) ==> coords_valid(c),
{
    let (lat_s, lon_s): (String, String) = match coord_number_strings(body) {
        Some(p) => p,
        None => {
            return None;
        },
    };
    let lat: i64 = match parse_nanodeg(lat_s.as_str().as_bytes()) {
        Some(n) => n,
        None => {
            return None;
        },
    };
    let lon: i64 = match parse_nanodeg(lon_s.as_str().as_bytes()) {
        Some(n) => n,
        None => {
            return None;
        },
    };
    if lat < -LAT_LIMIT || lat > LAT_LIMIT || lon < -LON_LIMIT || lon > LON_LIMIT {
        return None;
    }
    Some((lat, lon))
}

} // verus!
