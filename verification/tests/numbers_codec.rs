//! Decimal strings, the document codec, and the store.

use imnear::cache::{Cache, StorageFatal};
use imnear::numbers::{format_nanodeg, parse_nanodeg};
use imnear::photo_metadata::{decode_metadata, encode_metadata, PhotoMetadata};

#[test]
fn parse_nanodeg_exact_values() {
    assert_eq!(parse_nanodeg(b"0"), Some(0));
    assert_eq!(parse_nanodeg(b"45"), Some(45_000_000_000));
    assert_eq!(parse_nanodeg(b"-108.276076"), Some(-108_276_076_000));
    assert_eq!(parse_nanodeg(b"45.9645464"), Some(45_964_546_400));
    assert_eq!(parse_nanodeg(b"1.2"), Some(1_200_000_000));
    assert_eq!(parse_nanodeg(b"0.000000001"), Some(1));
}

#[test]
fn parse_nanodeg_truncates_past_nine_digits() {
    assert_eq!(parse_nanodeg(b"0.1234567891"), Some(123_456_789));
    assert_eq!(parse_nanodeg(b"-0.9999999999"), Some(-999_999_999));
}

#[test]
fn parse_nanodeg_rejects_malformed() {
    assert_eq!(parse_nanodeg(b""), None);
    assert_eq!(parse_nanodeg(b"-"), None);
    assert_eq!(parse_nanodeg(b"1."), None);
    assert_eq!(parse_nanodeg(b".5"), None);
    assert_eq!(parse_nanodeg(b"1e3"), None);
    assert_eq!(parse_nanodeg(b"01"), None);
    assert_eq!(parse_nanodeg(b"1..2"), None);
    assert_eq!(parse_nanodeg(b"--1"), None);
    assert_eq!(parse_nanodeg(b"10000000000"), None);
}

#[test]
fn format_nanodeg_exact_strings() {
    assert_eq!(format_nanodeg(0), b"0".to_vec());
    assert_eq!(format_nanodeg(1_200_000_000), b"1.2".to_vec());
    assert_eq!(format_nanodeg(-108_276_076_000), b"-108.276076".to_vec());
    assert_eq!(format_nanodeg(45_964_546_400), b"45.9645464".to_vec());
    assert_eq!(format_nanodeg(1), b"0.000000001".to_vec());
    assert_eq!(format_nanodeg(-90_000_000_000), b"-90".to_vec());
}

#[test]
fn format_then_parse_returns_the_value() {
    for v in [
        0i64,
        1,
        -1,
        1_200_000_000,
        -108_276_076_000,
        45_964_546_400,
        89_999_999_999,
        -180_000_000_000,
    ] {
        assert_eq!(parse_nanodeg(&format_nanodeg(v)), Some(v));
    }
}

#[test]
fn codec_roundtrip() {
    let none = PhotoMetadata { coordinates: None };
    assert_eq!(encode_metadata(&none), b"{\"coordinates\":null}".to_vec());
    assert_eq!(decode_metadata(&encode_metadata(&none)), Some(none));

    let some = PhotoMetadata { coordinates: Some((45_964_546_400, -108_276_076_000)) };
    assert_eq!(
        encode_metadata(&some),
        b"{\"coordinates\":[45.9645464,-108.276076]}".to_vec()
    );
    assert_eq!(decode_metadata(&encode_metadata(&some)), Some(some));
}

#[test]
fn codec_rejects_malformed_documents() {
    assert_eq!(decode_metadata(b""), None);
    assert_eq!(decode_metadata(b"{\"coordinates\":}"), None);
    assert_eq!(decode_metadata(b"{\"coordinates\":[1.2]}"), None);
    assert_eq!(decode_metadata(b"{\"coordinates\":[1.2,3.4]"), None);
    assert_eq!(decode_metadata(b"{\"coords\":[1.2,3.4]}"), None);
    // Out-of-range coordinates are not a well-formed document.
    assert_eq!(decode_metadata(b"{\"coordinates\":[91,0]}"), None);
    assert_eq!(decode_metadata(b"{\"coordinates\":[0,181]}"), None);
}

#[test]
fn write_read() {
    let data = PhotoMetadata { coordinates: Some((1_200_000_000, 3_400_000_000)) };
    let mut cache = Cache::new();
    let key = "test-key";

    cache.write_from(key, &data).unwrap();

    let saved = cache.read(key).unwrap();
    assert_eq!(String::from_utf8(saved).unwrap(), r#"{"coordinates":[1.2,3.4]}"#);

    let des: PhotoMetadata = cache.read_into(key).unwrap().unwrap();

    assert_eq!(data.coordinates, des.coordinates);
}

#[test]
fn strict_write_refuses_existing_key() {
    let mut cache = Cache::new();
    cache.write("k", b"{\"coordinates\":null}".to_vec()).unwrap();
    let again = cache.write("k", b"{\"coordinates\":null}".to_vec());
    assert_eq!(again, Err(StorageFatal::CacheFileExists));
    let via_from = cache.write_from("k", &PhotoMetadata { coordinates: None });
    assert_eq!(via_from, Err(StorageFatal::CacheFileExists));
}

#[test]
fn undecodable_entry_is_fatal() {
    let mut cache = Cache::new();
    cache.write("bad", b"not a document".to_vec()).unwrap();
    assert_eq!(cache.read_into("bad"), Err(StorageFatal::Undecodable));
    // An absent key is not an error: it is a miss.
    assert_eq!(cache.read_into("absent"), Ok(None));
}

#[test]
fn file_names_are_sanitized() {
    let mut cache = Cache::new();
    cache.write("a?b", b"{\"coordinates\":null}".to_vec()).unwrap();
    assert_eq!(cache.entry_count(), 1);
    // The sanitizer strips the characters illegal in file names.
    assert_eq!(cache.entry_file_name(0).as_str(), "ab");
    assert_eq!(cache.entry_doc(0).as_slice(), b"{\"coordinates\":null}");
}
