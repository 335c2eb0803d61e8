//! The search pipeline: filtering, caching, early stop, and ordering.

use imnear::cache::{Cache, StorageFatal};
use imnear::distance::{compute_distance, DistanceError};
use imnear::{classify, path_to_key, FilterResult, FilterStep, MediaKind, PhotoMetadata, Searcher};

const TARGET: (i64, i64) = (45_964_546_400, -108_276_076_000);

fn searcher(radius_mm: u64, early_stop: isize, sort: bool) -> Searcher {
    Searcher::new(radius_mm, TARGET, early_stop, sort, false, Cache::new()).unwrap()
}

#[test]
fn classify_by_extension() {
    assert_eq!(classify("photo.jpg"), MediaKind::Photo);
    assert_eq!(classify("PHOTO.JPG"), MediaKind::Photo);
    assert_eq!(classify("clip.mp4"), MediaKind::Video);
    assert_eq!(classify("clip.Mp4"), MediaKind::Video);
    assert_eq!(classify("notes.txt"), MediaKind::Unsupported);
    assert_eq!(classify("noextension"), MediaKind::Unsupported);
    assert_eq!(classify("dir.jpg/file"), MediaKind::Unsupported);
    assert_eq!(classify("photo.jpeg"), MediaKind::Unsupported);
}

#[test]
fn keys_flatten_separators() {
    assert_eq!(path_to_key("a/b\\c.jpg").as_str(), "a__b__c.jpg");
    assert_eq!(path_to_key("photo.jpg").as_str(), "photo.jpg");
    assert_eq!(path_to_key("").as_str(), "");
}

#[test]
fn invalid_target_is_rejected() {
    let r = Searcher::new(1000, (91_000_000_000, 0), -1, false, false, Cache::new());
    assert!(matches!(r, Err(DistanceError::InvalidCoordinate)));
    let r = Searcher::new(1000, (0, -180_000_000_001), -1, false, false, Cache::new());
    assert!(matches!(r, Err(DistanceError::InvalidCoordinate)));
}

#[test]
fn distance_identity_and_symmetry() {
    // distance(p, p) == 0, exactly.
    assert_eq!(compute_distance(TARGET, TARGET), Ok(0));
    let p0 = (48_858_370_000, 2_294_480_000); // Paris
    let p1 = (40_689_250_000, -74_044_500_000); // New York
    assert_eq!(compute_distance(p0, p1), compute_distance(p1, p0));
    // Invalid input is rejected, never silently computed.
    assert_eq!(
        compute_distance((90_000_000_001, 0), (0, 0)),
        Err(DistanceError::InvalidCoordinate)
    );
}

#[test]
fn distance_known_magnitudes() {
    // One degree of longitude along the equator: about 111.195 km.
    let d = compute_distance((0, 0), (0, 1_000_000_000)).unwrap();
    assert!(111_100_000 < d && d < 111_300_000, "off: {}", d);
    // Paris to New York: about 5837 km.
    let d = compute_distance(
        (48_858_370_000, 2_294_480_000),
        (40_689_250_000, -74_044_500_000),
    )
    .unwrap();
    assert!(5_820_000_000 < d && d < 5_855_000_000, "off: {}", d);
    // Near-antipodal: about half the circumference, and within the bound.
    let d = compute_distance((0, 0), (0, 180_000_000_000)).unwrap();
    assert!(19_900_000_000 < d && d <= 20_100_000_000, "off: {}", d);
}

#[test]
fn filter_path_with_location() {
    // Scenario: photo exactly at the target, radius one meter.
    let mut s = searcher(1000, -1, false);
    let step = s.filter_by_path_str("photos/sample.jpg").unwrap();
    assert!(matches!(step, FilterStep::NeedFileBytes));
    let m = PhotoMetadata { coordinates: Some(TARGET) };
    let r = s.filter_with_metadata("photos/sample.jpg", &m).unwrap();
    assert_eq!(r.distance, 0);
    assert!(r.selected);
    assert_eq!(r.path.as_str(), "photos/sample.jpg");
}

#[test]
fn filter_path_no_location() {
    let s = searcher(10_000_000, -1, false);
    let m = PhotoMetadata { coordinates: None };
    assert!(s.filter_with_metadata("x.jpg", &m).is_none());
    // Through the store: a cached "no coordinates" settles to nothing.
    let mut c = Cache::new();
    c.write_from(&path_to_key("x.jpg"), &m).unwrap();
    let mut s2 = Searcher::new(10_000_000, TARGET, -1, false, false, c).unwrap();
    let step = s2.filter_by_path_str("x.jpg").unwrap();
    assert!(matches!(step, FilterStep::Done(None)));
}

#[test]
fn cached_key_survives_source_deletion() {
    // Scenario: the key is pre-populated; no file ever exists, yet the
    // filter still answers from the store.
    let mut c = Cache::new();
    c.write("photo.jpg", b"{\"coordinates\":[1.2,3.4]}".to_vec()).unwrap();
    let mut s = Searcher::new(
        u64::MAX,
        (1_200_000_000, 3_400_000_000),
        -1,
        false,
        false,
        c,
    )
    .unwrap();
    let step = s.filter_by_path_str("photo.jpg").unwrap();
    match step {
        FilterStep::Done(Some(fr)) => {
            assert_eq!(fr.distance, 0);
            assert!(fr.selected);
        },
        _ => panic!("expected a settled result from the store"),
    }
    // Asking again gives the same answer: the store alone decides.
    let step = s.filter_by_path_str("photo.jpg").unwrap();
    match step {
        FilterStep::Done(Some(fr)) => {
            assert_eq!(fr.distance, 0);
            assert!(fr.selected);
        },
        _ => panic!("expected the identical settled result"),
    }
}

#[test]
fn video_always_goes_to_secondary() {
    let mut s = searcher(1000, -1, false);
    let step = s.filter_by_path_str("clip.mp4").unwrap();
    assert!(matches!(step, FilterStep::NeedSecondary));
    // And a photo asks for its bytes first, never the tool.
    let step = s.filter_by_path_str("still.jpg").unwrap();
    assert!(matches!(step, FilterStep::NeedFileBytes));
}

#[test]
fn unsupported_paths_settle_and_are_cached() {
    let mut s = searcher(1000, -1, false);
    let step = s.filter_by_path_str("notes.txt").unwrap();
    assert!(matches!(step, FilterStep::Done(None)));
    // The negative outcome was recorded: the next ask is a hit.
    let step = s.filter_by_path_str("notes.txt").unwrap();
    assert!(matches!(step, FilterStep::Done(None)));
}

#[test]
fn unreadable_bytes_fall_back_to_secondary() {
    let mut s = searcher(1000, -1, false);
    assert!(matches!(
        s.filter_by_path_str("p.jpg").unwrap(),
        FilterStep::NeedFileBytes
    ));
    let step = s.filter_with_bytes("p.jpg", b"garbage").unwrap();
    assert!(matches!(step, FilterStep::NeedSecondary));
    // The tool's output settles it.
    let json = r#"[{"GPSLatitude": "45 deg 57' 52.37\" N",
                    "GPSLongitude": "108 deg 16' 33.87\" W"}]"#;
    let step = s.filter_with_secondary("p.jpg", Some(json)).unwrap();
    match step {
        FilterStep::Done(Some(fr)) => {
            assert_eq!(fr.path.as_str(), "p.jpg");
            assert!(fr.distance > 0);
        },
        _ => panic!("expected coordinates from the tool output"),
    }
    // Settled for good: the store answers from now on.
    assert!(matches!(
        s.filter_by_path_str("p.jpg").unwrap(),
        FilterStep::Done(Some(_))
    ));
}

#[test]
fn failed_tool_is_a_skip_not_a_record() {
    let mut s = searcher(1000, -1, false);
    assert!(matches!(
        s.filter_by_path_str("clip.mp4").unwrap(),
        FilterStep::NeedSecondary
    ));
    let step = s.filter_with_secondary("clip.mp4", None).unwrap();
    assert!(matches!(step, FilterStep::Done(None)));
    // Nothing was cached: the path is still a miss.
    assert!(matches!(
        s.filter_by_path_str("clip.mp4").unwrap(),
        FilterStep::NeedSecondary
    ));
}

#[test]
fn conflicting_write_is_reported() {
    let mut s = searcher(1000, -1, false);
    assert!(matches!(
        s.filter_by_path_str("notes.txt").unwrap(),
        FilterStep::Done(None)
    ));
    // Handing bytes for a path that is already settled hits the strict
    // write policy.
    match s.filter_with_bytes("notes.txt", &tiff_n0e0()) {
        Err(e) => assert_eq!(e, StorageFatal::CacheFileExists),
        Ok(_) => panic!("expected the strict policy to refuse the write"),
    }
}

/// A minimal TIFF with GPS at 0 deg N, 0 deg E.
fn tiff_n0e0() -> Vec<u8> {
    let mut t: Vec<u8> = Vec::new();
    let le16 = |t: &mut Vec<u8>, v: u16| t.extend_from_slice(&v.to_le_bytes());
    let le32 = |t: &mut Vec<u8>, v: u32| t.extend_from_slice(&v.to_le_bytes());
    t.extend_from_slice(b"II");
    le16(&mut t, 42);
    le32(&mut t, 8);
    le16(&mut t, 1);
    le16(&mut t, 0x8825);
    le16(&mut t, 4);
    le32(&mut t, 1);
    le32(&mut t, 26);
    le32(&mut t, 0);
    le16(&mut t, 4);
    le16(&mut t, 0x0001);
    le16(&mut t, 2);
    le32(&mut t, 2);
    t.extend_from_slice(b"N\0\0\0");
    le16(&mut t, 0x0002);
    le16(&mut t, 5);
    le32(&mut t, 3);
    le32(&mut t, 80);
    le16(&mut t, 0x0003);
    le16(&mut t, 2);
    le32(&mut t, 2);
    t.extend_from_slice(b"E\0\0\0");
    le16(&mut t, 0x0004);
    le16(&mut t, 5);
    le32(&mut t, 3);
    le32(&mut t, 104);
    le32(&mut t, 0);
    for _ in 0..6 {
        le32(&mut t, 0);
        le32(&mut t, 1);
    }
    t
}

#[test]
fn photo_bytes_settle_and_cache() {
    let mut s = Searcher::new(u64::MAX, (0, 0), -1, false, false, Cache::new()).unwrap();
    assert!(matches!(
        s.filter_by_path_str("shots/origin.jpg").unwrap(),
        FilterStep::NeedFileBytes
    ));
    let step = s.filter_with_bytes("shots/origin.jpg", &tiff_n0e0()).unwrap();
    match step {
        FilterStep::Done(Some(fr)) => {
            assert_eq!(fr.distance, 0);
            assert!(fr.selected);
        },
        _ => panic!("expected coordinates at the origin"),
    }
    // The outcome is now served from the store.
    assert!(matches!(
        s.filter_by_path_str("shots/origin.jpg").unwrap(),
        FilterStep::Done(Some(_))
    ));
}

#[test]
fn radius_monotonicity() {
    let m = PhotoMetadata { coordinates: Some((45_964_546_400, -108_280_000_000)) };
    let narrow = searcher(100_000, -1, false); // 100 m
    let wide = searcher(1_000_000_000, -1, false); // 1000 km
    let rn = narrow.filter_with_metadata("p.jpg", &m).unwrap();
    let rw = wide.filter_with_metadata("p.jpg", &m).unwrap();
    assert_eq!(rn.distance, rw.distance);
    assert!(!rn.selected);
    assert!(rw.selected);
    // A maximal radius selects everything with coordinates.
    let all = searcher(u64::MAX, -1, false);
    let far = PhotoMetadata { coordinates: Some((-45_000_000_000, 71_000_000_000)) };
    assert!(all.filter_with_metadata("p.jpg", &far).unwrap().selected);
}

#[test]
fn early_stop_is_live() {
    let s = searcher(u64::MAX, 2, false);
    let mut found: Vec<FilterResult> = Vec::new();
    let fr = |p: &str| FilterResult { path: p.to_string(), distance: 5, selected: true };
    assert!(s.collect_step(&mut found, Some(fr("a.jpg"))));
    assert!(!s.collect_step(&mut found, Some(fr("b.jpg"))));
    assert_eq!(found.len(), 2);
    // Unselected results are dropped and do not count.
    let mut found: Vec<FilterResult> = Vec::new();
    let skip = FilterResult { path: "c.jpg".to_string(), distance: 5, selected: false };
    assert!(s.collect_step(&mut found, Some(skip)));
    assert!(s.collect_step(&mut found, None));
    assert_eq!(found.len(), 0);
    // A negative count never stops the run.
    let s = searcher(u64::MAX, -1, false);
    let mut found: Vec<FilterResult> = Vec::new();
    for i in 0..10 {
        assert!(s.collect_step(&mut found, Some(fr(&format!("{}.jpg", i)))));
    }
    assert_eq!(found.len(), 10);
}

#[test]
fn sort_breaks_ties_by_path() {
    let s = searcher(u64::MAX, -1, true);
    let fr = |p: &str, d: u64| FilterResult { path: p.to_string(), distance: d, selected: true };
    let mut found = vec![
        fr("z.jpg", 7),
        fr("a.jpg", 7),
        fr("m.jpg", 3),
        fr("b.jpg", 7),
        fr("n.jpg", 3),
    ];
    s.order_results(&mut found);
    let names: Vec<&str> = found.iter().map(|f| f.path.as_str()).collect();
    assert_eq!(names, vec!["m.jpg", "n.jpg", "a.jpg", "b.jpg", "z.jpg"]);
    // Without the flag the encounter order is kept.
    let plain = searcher(u64::MAX, -1, false);
    let mut found = vec![fr("z.jpg", 7), fr("a.jpg", 1)];
    plain.order_results(&mut found);
    let names: Vec<&str> = found.iter().map(|f| f.path.as_str()).collect();
    assert_eq!(names, vec!["z.jpg", "a.jpg"]);
}

#[test]
fn recorded_documents_are_hits() {
    let mut s = searcher(u64::MAX, -1, false);
    s.record_document("a__b.jpg", b"{\"coordinates\":null}".to_vec())
        .unwrap();
    // The filter flattens the separators to the same key and hits.
    assert!(matches!(
        s.filter_by_path_str("a/b.jpg").unwrap(),
        FilterStep::Done(None)
    ));
    // A second load of the same key is refused by the strict policy.
    assert!(s.record_document("a__b.jpg", b"{}".to_vec()).is_err());
}
