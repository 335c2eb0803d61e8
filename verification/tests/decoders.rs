//! The two coordinate decoders and the geocoding reader.

use imnear::dms::rationals_to_nanodeg;
use imnear::exif_read::{read_exif_kamadak, ExtractionError};
use imnear::exiftool_read::{parse_degstr, parse_degstr_coord, parse_exiftool_json};
use imnear::geocode::json_to_coords;

fn push_u16_le(out: &mut Vec<u8>, v: u16) {
    out.push((v & 0xff) as u8);
    out.push((v >> 8) as u8);
}

fn push_u32_le(out: &mut Vec<u8>, v: u32) {
    out.push((v & 0xff) as u8);
    out.push(((v >> 8) & 0xff) as u8);
    out.push(((v >> 16) & 0xff) as u8);
    out.push((v >> 24) as u8);
}

fn push_rational(out: &mut Vec<u8>, num: u32, denom: u32) {
    push_u32_le(out, num);
    push_u32_le(out, denom);
}

/// A minimal little-endian TIFF stream carrying only the four GPS fields:
/// latitude 45 deg 57' 52.37" N, longitude 108 deg 16' 33.87" W.
fn gps_tiff_fixture() -> Vec<u8> {
    let mut t: Vec<u8> = Vec::new();
    // TIFF header.
    t.extend_from_slice(b"II");
    push_u16_le(&mut t, 42);
    push_u32_le(&mut t, 8); // offset of IFD0
    // IFD0: one entry, the GPS IFD pointer.
    push_u16_le(&mut t, 1);
    push_u16_le(&mut t, 0x8825); // GPSInfoIFDPointer
    push_u16_le(&mut t, 4); // LONG
    push_u32_le(&mut t, 1);
    push_u32_le(&mut t, 26); // offset of the GPS IFD
    push_u32_le(&mut t, 0); // no next IFD
    // GPS IFD at 26: four entries.
    push_u16_le(&mut t, 4);
    // GPSLatitudeRef = "N".
    push_u16_le(&mut t, 0x0001);
    push_u16_le(&mut t, 2); // ASCII
    push_u32_le(&mut t, 2);
    t.extend_from_slice(b"N\0\0\0");
    // GPSLatitude = three rationals at offset 80.
    push_u16_le(&mut t, 0x0002);
    push_u16_le(&mut t, 5); // RATIONAL
    push_u32_le(&mut t, 3);
    push_u32_le(&mut t, 80);
    // GPSLongitudeRef = "W".
    push_u16_le(&mut t, 0x0003);
    push_u16_le(&mut t, 2);
    push_u32_le(&mut t, 2);
    t.extend_from_slice(b"W\0\0\0");
    // GPSLongitude = three rationals at offset 104.
    push_u16_le(&mut t, 0x0004);
    push_u16_le(&mut t, 5);
    push_u32_le(&mut t, 3);
    push_u32_le(&mut t, 104);
    push_u32_le(&mut t, 0); // no next IFD
    assert_eq!(t.len(), 80);
    // Latitude rationals: 45/1, 57/1, 5237/100.
    push_rational(&mut t, 45, 1);
    push_rational(&mut t, 57, 1);
    push_rational(&mut t, 5237, 100);
    // Longitude rationals: 108/1, 16/1, 3387/100.
    push_rational(&mut t, 108, 1);
    push_rational(&mut t, 16, 1);
    push_rational(&mut t, 3387, 100);
    t
}

const LAT_FIXTURE: i64 = 45_964_547_222; // 45 + 57/60 + 52.37/3600 degrees
const LON_FIXTURE: i64 = -108_276_074_999; // -(108 + 16/60 + 33.87/3600)

#[test]
fn primary_reads_gps_fields() {
    let data = gps_tiff_fixture();
    let coords = read_exif_kamadak(&data).unwrap().unwrap();
    assert_eq!(coords, (LAT_FIXTURE, LON_FIXTURE));
}

#[test]
fn primary_reports_unreadable_containers() {
    assert_eq!(read_exif_kamadak(b"not an image"), Err(ExtractionError::Unreadable));
    assert_eq!(read_exif_kamadak(b""), Err(ExtractionError::Unreadable));
}

#[test]
fn rationals_convert_exactly() {
    assert_eq!(
        rationals_to_nanodeg((45, 1), (57, 1), (5237, 100), false),
        Some(LAT_FIXTURE)
    );
    assert_eq!(
        rationals_to_nanodeg((108, 1), (16, 1), (3387, 100), true),
        Some(LON_FIXTURE)
    );
}

#[test]
fn rationals_reject_bad_components() {
    // A zero denominator is not a usable rational.
    assert_eq!(rationals_to_nanodeg((45, 0), (0, 1), (0, 1), false), None);
    // Negative components are rejected.
    assert_eq!(rationals_to_nanodeg((-45, 1), (0, 1), (0, 1), false), None);
    // More than 180 degrees is rejected.
    assert_eq!(rationals_to_nanodeg((181, 1), (0, 1), (0, 1), false), None);
}

#[test]
fn degree_strings_parse_exactly() {
    assert_eq!(
        parse_degstr(b"45 deg 57' 52.37\" N"),
        Some((LAT_FIXTURE, b'N'))
    );
    assert_eq!(parse_degstr(b"45 deg 30' 0\" S"), Some((45_500_000_000, b'S')));
    assert_eq!(parse_degstr(b"0 deg 0' 0\" E"), Some((0, b'E')));
    assert_eq!(parse_degstr(b"45 deg 60' 0\" N"), None); // minutes past 59
    assert_eq!(parse_degstr(b"45 deg 30' 60\" N"), None); // seconds past 60
    assert_eq!(parse_degstr(b"45deg 30' 0\" N"), None);
    assert_eq!(parse_degstr(b""), None);
}

#[test]
fn degree_strings_sign_both_hemispheres() {
    assert_eq!(
        parse_degstr_coord(b"45 deg 57' 52.37\" N", true),
        Some(LAT_FIXTURE)
    );
    assert_eq!(
        parse_degstr_coord(b"45 deg 57' 52.37\" S", true),
        Some(-LAT_FIXTURE)
    );
    assert_eq!(
        parse_degstr_coord(b"108 deg 16' 33.87\" W", false),
        Some(LON_FIXTURE)
    );
    assert_eq!(
        parse_degstr_coord(b"108 deg 16' 33.87\" E", false),
        Some(-LON_FIXTURE)
    );
    // A longitude reference on the latitude side is refused, and the
    // other way round.
    assert_eq!(parse_degstr_coord(b"45 deg 0' 0\" E", true), None);
    assert_eq!(parse_degstr_coord(b"45 deg 0' 0\" N", false), None);
    // Out of range for the side.
    assert_eq!(parse_degstr_coord(b"91 deg 0' 0\" N", true), None);
    assert_eq!(parse_degstr_coord(b"181 deg 0' 0\" E", false), None);
}

#[test]
fn decoders_agree_on_the_fixture() {
    // The same angles through the primary decoder's rationals and the
    // secondary decoder's degree strings: identical nanodegrees.
    let primary = read_exif_kamadak(&gps_tiff_fixture()).unwrap().unwrap();
    let lat = parse_degstr_coord(b"45 deg 57' 52.37\" N", true).unwrap();
    let lon = parse_degstr_coord(b"108 deg 16' 33.87\" W", false).unwrap();
    assert_eq!(primary, (lat, lon));
}

#[test]
fn exiftool_output_parses() {
    let json = r#"[{
        "SourceFile": "a.mp4",
        "GPSLatitude": "45 deg 57' 52.37\" N",
        "GPSLongitude": "108 deg 16' 33.87\" W"
    }]"#;
    assert_eq!(parse_exiftool_json(json), Some((LAT_FIXTURE, LON_FIXTURE)));
    assert_eq!(parse_exiftool_json("[{}]"), None);
    assert_eq!(parse_exiftool_json("not json"), None);
    assert_eq!(parse_exiftool_json("[]"), None);
}

#[test]
fn json_to_coords_valid() {
    let json_response = r#"
{
  "type": "FeatureCollection",
  "licence": "Data © OpenStreetMap contributors, ODbL 1.0. http://osm.org/copyright",
  "features": [
    {
      "type": "Feature",
      "properties": {
        "place_id": 304848284,
        "osm_type": "relation",
        "osm_id": 1740655,
        "place_rank": 12,
        "category": "boundary",
        "type": "administrative",
        "importance": 0.506869291577351,
        "addresstype": "county",
        "name": "Yellowstone County",
        "display_name": "Yellowstone County, Montana, United States"
      },
      "bbox": [-108.9256571, 45.4608533, -107.4629188, 46.496123],
      "geometry": {
        "type": "Point",
        "coordinates": [-108.276076, 45.9645464]
      }
    },
    {
      "type": "Feature",
      "properties": {
        "place_id": 347170371,
        "osm_type": "relation",
        "osm_id": 9384653,
        "place_rank": 12,
        "category": "boundary",
        "type": "administrative",
        "importance": 0.298273757504901,
        "addresstype": "village",
        "name": "Summer Village of Yellowstone",
        "display_name": "Summer Village of Yellowstone, Alberta, Canada"
      },
      "bbox": [-114.3855856, 53.7311871, -114.3729778, 53.7361412],
      "geometry": {
        "type": "Point",
        "coordinates": [-114.3807141, 53.7335433]
      }
    },
    {
      "type": "Feature",
      "properties": {
        "place_id": 345181622,
        "osm_type": "node",
        "osm_id": 153811247,
        "place_rank": 20,
        "category": "place",
        "type": "hamlet",
        "importance": 0.266167160425083,
        "addresstype": "hamlet",
        "name": "Yellowstone",
        "display_name": "Yellowstone, Town of Fayette, Lafayette County, Wisconsin, United States"
      },
      "bbox": [-89.9904023, 42.7783343, -89.9504023, 42.8183343],
      "geometry": {
        "type": "Point",
        "coordinates": [-89.9704023, 42.7983343]
      }
    },
    {
      "type": "Feature",
      "properties": {
        "place_id": 349935359,
        "osm_type": "node",
        "osm_id": 6646909895,
        "place_rank": 12,
        "category": "place",
        "type": "county",
        "importance": 0.240024700541695,
        "addresstype": "county",
        "name": "Yellowstone (summer village)",
        "display_name": "Yellowstone (summer village), Alberta, Canada"
      },
      "bbox": [-115.0788339, 53.0340404, -113.6788339, 54.4340404],
      "geometry": {
        "type": "Point",
        "coordinates": [-114.3788339, 53.7340404]
      }
    }
  ]
}
"#;
    let coords = json_to_coords(json_response).unwrap();

    assert_eq!(coords, (45_964_546_400, -108_276_076_000));
}

#[test]
fn json_to_coords_rejects_exponent_literals() {
    // Shortest-float printing can emit exponent form for extreme values;
    // the decimal grammar has none, so such a coordinate is dropped.
    let body = r#"{"features":[{"geometry":{"coordinates":[1e-7, 45.0]}}]}"#;
    assert!(json_to_coords(body).is_none());
    // A value the printer keeps in plain decimal form is accepted.
    let body = r#"{"features":[{"geometry":{"coordinates":[0.25, 45.0]}}]}"#;
    assert_eq!(json_to_coords(body), Some((45_000_000_000, 250_000_000)));
}

#[test]
fn json_to_coords_missing_key() {
    let json_response = r#"{"features": []}"#;

    let coords = json_to_coords(json_response);

    assert!(coords.is_none());
}
