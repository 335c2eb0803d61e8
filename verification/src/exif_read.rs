//! The primary coordinate decoder: reads the GPS fields of an image's
//! embedded metadata in-process through the kamadak-exif crate.
//!
//! The crate's reads stand behind two trusted per-field readers from
//! bytes to plain values, whose contracts speak of named results: whether
//! the container is readable, and what each GPS field holds. Everything
//! from there on is verified: `spec_primary_metadata` pins the document
//! the decoder settles on for given bytes.
//!
//! One quirk of this decoder is preserved deliberately: only the
//! reference `W` negates a value, so a southern-hemisphere latitude keeps
//! a positive sign. The secondary decoder handles `S` as well.

use exif::{In, Tag, Value};
use vstd::prelude::*;

use crate::dms::{lemma_decoders_agree, rationals_to_nanodeg, spec_angle_e9, spec_rational_angle_e9};
use crate::numbers::{lemma_pow10_increases, pow10};
use crate::numbers::str_eq;
use crate::photo_metadata::{coords_valid, lat_valid, lon_valid, PhotoMetadata};

verus! {

/// Why the primary decoder gave up on a file.
#[derive(Clone, Copy, Debug, PartialEq, Eq)]
pub enum ExtractionError {
    /// The container or its metadata structure could not be read; the
    /// caller should fall back to the secondary decoder.
    Unreadable,
}

/// Whether these bytes form a structurally readable metadata container.
/// The name stands for what exif::Reader::read_from_container decides on
/// the bytes alone; `gps_ref` and `gps_vals` apply it.
pub uninterp spec fn exif_readable(data: Seq<u8>) -> bool;

/// One side's hemisphere reference of a readable container: the display
/// string of GPSLatitudeRef when `lat` is set, of GPSLongitudeRef
/// otherwise — or nothing when the field is absent. The name stands for
/// what kamadak-exif's field lookup returns on the bytes alone;
/// `gps_ref` applies it.
pub uninterp spec fn exif_gps_ref(data: Seq<u8>, lat: bool) -> Option<Seq<char>>;

/// One side's angle value of a readable container: the rationals of
/// GPSLatitude when `lat` is set, of GPSLongitude otherwise — or nothing
/// when the field is absent or its value is not rational-typed. The name
/// stands for what kamadak-exif's field lookup returns on the bytes
/// alone; `gps_vals` applies it.
pub uninterp spec fn exif_gps_vals(data: Seq<u8>, lat: bool) -> Option<Seq<(i64, i64)>>;

/// Relies on exif::Reader::read_from_container (parsing the container:
/// JPEG, TIFF, HEIF, PNG, WebP) and Exif::get_field on the side's
/// reference tag of the primary image, displayed by Field::display_value
/// (the single hemisphere letter when the field holds one). `Err` exactly
/// when the container is structurally unreadable. The container is
/// re-read on each call; on the same bytes every outcome repeats.
#[verifier::external_body]
fn gps_ref(data: &[u8], lat: bool) -> (r: Result<Option<String>, ExtractionError>)
    ensures
        r matches Err(e) ==> !exif_readable(data@) && e == ExtractionError::Unreadable,
        r is Ok ==> exif_readable(data@),
        r matches Ok(opt) ==> match exif_gps_ref(data@, lat) {
            None => opt is None,
            Some(f) => opt matches Some(v) && v@ == f,
        },
{
    let ex = exif::Reader::new().read_from_container(&mut std::io::Cursor::new(data)).map_err(
        |_| ExtractionError::Unreadable,
    )?;
    let t = if lat {
        Tag::GPSLatitudeRef
    } else {
        Tag::GPSLongitudeRef
    };
    Ok(ex.get_field(t, In::PRIMARY).map(|f| f.display_value().to_string()))
}

/// Relies on exif::Reader::read_from_container and Exif::get_field on the
/// side's value tag of the primary image, its Rational or SRational
/// components widened losslessly to (numerator, denominator) pairs.
/// `Err` exactly when the container is structurally unreadable. The
/// container is re-read on each call; on the same bytes every outcome
/// repeats.
#[verifier::external_body]
fn gps_vals(data: &[u8], lat: bool) -> (r: Result<Option<Vec<(i64, i64)>>, ExtractionError>)
    ensures
        r matches Err(e) ==> !exif_readable(data@) && e == ExtractionError::Unreadable,
        r is Ok ==> exif_readable(data@),
        r matches Ok(opt) ==> match exif_gps_vals(data@, lat) {
            None => opt is None,
            Some(f) => opt matches Some(v) && v@ == f,
        },
{
    let ex = exif::Reader::new().read_from_container(&mut std::io::Cursor::new(data)).map_err(
        |_| ExtractionError::Unreadable,
    )?;
    let t = if lat {
        Tag::GPSLatitude
    } else {
        Tag::GPSLongitude
    };
    Ok(ex.get_field(t, In::PRIMARY).and_then(|f| match &f.value {
        Value::Rational(v) => Some(v.iter().map(|x| (x.num as i64, x.denom as i64)).collect::<Vec<_>>()),
        Value::SRational(v) => Some(v.iter().map(|x| (x.num as i64, x.denom as i64)).collect()),
        _ => None,
    }))
}

/// Is a rational triple acceptable, and within 180 degrees once scaled?
pub open spec fn spec_triple_ok(t: Seq<(i64, i64)>) -> bool {
    &&& t[0].0 >= 0 && t[0].1 >= 1
    &&& t[1].0 >= 0 && t[1].1 >= 1
    &&& t[2].0 >= 0 && t[2].1 >= 1
    &&& 0 <= spec_triple_angle(t) <= 180_000_000_000
}

/// The angle a rational triple denotes, in nanodegrees.
pub open spec fn spec_triple_angle(t: Seq<(i64, i64)>) -> int {
    spec_rational_angle_e9(t[0].0 as int, t[0].1 as int, t[1].0 as int, t[1].1 as int,
        t[2].0 as int, t[2].1 as int)
}

/// The decoder cross-validation law, in the decoders' own vocabularies:
/// a rational triple of whole degrees, whole minutes, and seconds given
/// as `x / 10^k` — the fraction a decimal string with `k` fraction digits
/// denotes — scales to exactly the nanodegrees the degree-string path
/// computes. Together with the hemisphere rules this says the two
/// decoders agree wherever both apply: signs agree for N, E and W; for S
/// the primary decoder's preserved west-only rule differs by design.
pub proof fn lemma_triple_matches_degstr(d: i64, m: i64, x: i64, k: nat)
    requires
        0 <= d,
        0 <= m,
        0 <= x,
        k <= 9,
    ensures
        spec_triple_angle(seq![(d, 1i64), (m, 1i64), (x, pow10(k) as i64)]) == spec_angle_e9(
            d as int, m as int, (x as int) * pow10((9 - k) as nat)),
{
    lemma_pow10_increases(k, 9);
    assert(pow10(9) == 1_000_000_000) by {
        reveal_with_fuel(pow10, 10);
    }
    lemma_decoders_agree(d as int, m as int, x as int, k);
    assert(seq![(d, 1i64), (m, 1i64), (x, pow10(k) as i64)][2].1 as int == pow10(k));
}

/// What the GPS fields denote: each value triple is converted to
/// nanodegrees, negated exactly when its reference is `W`, and the pair
/// is kept only when it is a valid coordinate pair.
pub open spec fn spec_coords_from_fields(
    lat_ref: Seq<char>,
    lat: Seq<(i64, i64)>,
    lon_ref: Seq<char>,
    lon: Seq<(i64, i64)>,
) -> Option<(int, int)> {
    if lat.len() < 3 || lon.len() < 3 || !spec_triple_ok(lat) || !spec_triple_ok(lon) {
        None
    } else {
        let la = if lat_ref == "W"@ {
            -spec_triple_angle(lat)
        } else {
            spec_triple_angle(lat)
        };
        let lo = if lon_ref == "W"@ {
            -spec_triple_angle(lon)
        } else {
            spec_triple_angle(lon)
        };
        if lat_valid(la) && lon_valid(lo) {
            Some((la, lo))
        } else {
            None
        }
    }
}

/// The metadata document the primary decoder settles on for a readable
/// container: its converted GPS fields, or no coordinates when the fields
/// are absent or unusable.
pub open spec fn spec_primary_metadata(data: Seq<u8>) -> PhotoMetadata {
    match (
        exif_gps_ref(data, true),
        exif_gps_vals(data, true),
        exif_gps_ref(data, false),
        exif_gps_vals(data, false),
    ) {
        (Some(ar), Some(av), Some(br), Some(bv)) => match spec_coords_from_fields(ar, av, br, bv) {
            None => PhotoMetadata { coordinates: None },
            Some(c) => PhotoMetadata { coordinates: Some((c.0 as i64, c.1 as i64)) },
        },
        _ => PhotoMetadata { coordinates: None },
    }
}

/// What the primary decoder settles on is always well formed.
pub proof fn lemma_primary_metadata_wf(data: Seq<u8>)
    ensures
        spec_primary_metadata(data).wf(),
{
}

/// Converts the four GPS fields to a coordinate pair, exactly as
/// `spec_coords_from_fields` describes.
pub fn coords_from_gps_fields(
    lat_ref: &str,
    lat: &[(i64, i64)],
    lon_ref: &str,
    lon: &[(i64, i64)],
) -> (r: Option<(i64, i64)>)
    ensures
        (r is Some) == (spec_coords_from_fields(lat_ref@, lat@, lon_ref@, lon@) is Some),
        r matches Some(c) ==> spec_coords_from_fields(lat_ref@, lat@, lon_ref@, lon@) == Some((
            c.0 as int, c.1 as int)),
        r matches Some(c) ==> coords_valid(c),
{
    if lat.len() < 3 || lon.len() < 3 {
        return None;
    }
    let la: i64 = match rationals_to_nanodeg(lat[0], lat[1], lat[2], str_eq(lat_ref, "W")) {
        Some(v) => v,
        None => {
            return None;
        },
    };
    let lo: i64 = match rationals_to_nanodeg(lon[0], lon[1], lon[2], str_eq(lon_ref, "W")) {
        Some(v) => v,
        None => {
            return None;
        },
    };
    if la < -90_000_000_000 || la > 90_000_000_000 || lo < -180_000_000_000 || lo
        > 180_000_000_000 {
        return None;
    }
    Some((la, lo))
}

/// Reads the GPS coordinates embedded in an image, if any.
///
/// `Err(Unreadable)` exactly when the container is structurally
/// unreadable, the one case where the caller falls back to the secondary
/// decoder. A readable container settles the file: the result is the
/// coordinates of `spec_primary_metadata`, so absent or unusable GPS
/// fields give `Ok(None)` — a definite "no location in this file", with
/// no fallback. Any coordinates returned are in range.
pub fn read_exif_kamadak(data: &[u8]) -> (r: Result<Option<(i64, i64)>, ExtractionError>)
    ensures
        (r is Err) == !exif_readable(data@),
        r is Err ==> r == Err::<Option<(i64, i64)>, ExtractionError>(ExtractionError::Unreadable),
        r matches Ok(opt) ==> opt == spec_primary_metadata(data@).coordinates,
        r matches Ok(Some(c)) ==> coords_valid(c),
{
    let lat_ref: Option<String> = match gps_ref(data, true) {
        Ok(v) => v,
        Err(e) => {
            return Err(e);
        },
    };
    let lat: Option<Vec<(i64, i64)>> = match gps_vals(data, true) {
        Ok(v) => v,
        Err(e) => {
            return Err(e);
        },
    };
    let lon_ref: Option<String> = match gps_ref(data, false) {
        Ok(v) => v,
        Err(e) => {
            return Err(e);
        },
    };
    let lon: Option<Vec<(i64, i64)>> = match gps_vals(data, false) {
        Ok(v) => v,
        Err(e) => {
            return Err(e);
        },
    };
    match (lat_ref, lat, lon_ref, lon) {
        (Some(ar), Some(av), Some(br), Some(bv)) => {
            let c: Option<(i64, i64)> = coords_from_gps_fields(
                ar.as_str(),
                av.as_slice(),
                br.as_str(),
                bv.as_slice(),
            );
            Ok(c)
        },
        _ => Ok(None),
    }
}

} // verus!
