//! Locate media files whose embedded geographic coordinates fall within a
//! radius of a target point.
//!
//! Coordinates are fixed-point integers throughout: latitude and longitude in
//! nanodegrees (degrees times 10^9), distances in millimeters. This keeps the
//! whole pipeline in exact integer arithmetic that the verifier can reason
//! about, while the binary metadata decoding and all I/O stay at the edges.
//!
//! The searcher is driven as a step machine: the caller hands it a path, and
//! it answers either with a finished result or with a request — the file's
//! bytes for the in-process decoder, or the external tool's output for the
//! fallback decoder. The decisions in between (cache policy, decoder choice,
//! distance, selection, ordering, early stop) all live here, verified.

pub mod cache;
pub mod distance;
pub mod dms;
pub mod exif_read;
pub mod exiftool_read;
pub mod geocode;
pub mod numbers;
pub mod ordering;
pub mod photo_metadata;

pub use cache::Cache;
pub use photo_metadata::PhotoMetadata;

use vstd::prelude::*;

use cache::StorageFatal;
use distance::{compute_distance, spec_haversine_mm, DistanceError};
use exif_read::{exif_readable, lemma_primary_metadata_wf, read_exif_kamadak, spec_primary_metadata};
use exiftool_read::{lemma_secondary_metadata_wf, parse_exiftool_json, spec_secondary_metadata};
use ordering::{results_ordered, sort_results};
use photo_metadata::{coords_valid, spec_decode_metadata, spec_encode_metadata};

verus! {

/// One candidate file, judged against the target location.
pub struct FilterResult {
    /// The path the candidate was named by.
    pub path: String,
    /// Great-circle distance from the target, in millimeters.
    pub distance: u64,
    /// Whether the distance is within the search radius.
    pub selected: bool,
}

/// What kind of media a path names, judged by its extension.
#[derive(Clone, Copy, Debug, PartialEq, Eq)]
pub enum MediaKind {
    /// A still image: the in-process decoder is tried first.
    Photo,
    /// A video container: only the external tool can read it.
    Video,
    /// Anything else: no decoder is invoked.
    Unsupported,
}

/// What the searcher answers for one path: a finished answer, or a
/// request for outside work.
pub enum FilterStep {
    /// Settled: the selected result, or nothing for a path without
    /// usable coordinates.
    Done(Option<FilterResult>),
    /// The caller should read the file and call `filter_with_bytes`.
    NeedFileBytes,
    /// The caller should run the external tool and call
    /// `filter_with_secondary`.
    NeedSecondary,
}

/// Case-insensitive match of one path character against a lowercase
/// pattern character, by scalar value.
pub open spec fn char_ci_eq(c: char, lower: char) -> bool {
    c as u32 == lower as u32 || (97 <= lower as u32 <= 122 && c as u32 + 32 == lower as u32)
}

/// Index of the last `.`, or -1 when there is none.
pub open spec fn spec_last_dot(s: Seq<char>) -> int
    decreases s.len(),
{
    if s.len() == 0 {
        -1
    } else if s.last() as u32 == 46 {
        s.len() - 1
    } else {
        spec_last_dot(s.drop_last())
    }
}

/// The media kind a path's extension names: `jpg` is a photo, `mp4` a
/// video, both case-insensitively; everything else, including a path
/// without a dot, is unsupported.
pub open spec fn spec_media_kind(path: Seq<char>) -> MediaKind {
    let d = spec_last_dot(path);
    if d < 0 {
        MediaKind::Unsupported
    } else {
        let ext = path.skip(d + 1);
        if ext.len() == 3 && char_ci_eq(ext[0], 'j') && char_ci_eq(ext[1], 'p') && char_ci_eq(
            ext[2], 'g') {
            MediaKind::Photo
        } else if ext.len() == 3 && char_ci_eq(ext[0], 'm') && char_ci_eq(ext[1], 'p')
            && char_ci_eq(ext[2], '4') {
            MediaKind::Video
        } else {
            MediaKind::Unsupported
        }
    }
}

/// Compares one character against a lowercase pattern character, as
/// `char_ci_eq` describes.
fn char_ci(c: char, lower: char) -> (r: bool)
    ensures
        r == char_ci_eq(c, lower),
{
    (c as u32) == (lower as u32) || (97 <= lower as u32 && lower as u32 <= 122 && (c as u32) + 32
        == (lower as u32))
}

/// Classifies a path by its extension, as `spec_media_kind` describes.
pub fn classify(path: &str) -> (k: MediaKind)
    ensures
        k == spec_media_kind(path@),
{
    let n: usize = path.unicode_len();
    let mut i: usize = n;
    proof {
        assert(path@.take(n as int) =~= path@);
    }
    while i > 0
        invariant
            0 <= i <= n == path@.len(),
            spec_last_dot(path@) == spec_last_dot(path@.take(i as int)),
        decreases i,
    {
        let c: char = path.get_char(i - 1);
        if (c as u32) == 46 {
            proof {
                assert(path@.take(i as int).last() == path@[i - 1]);
            }
            if n - i != 3 {
                return MediaKind::Unsupported;
            }
            let c0: char = path.get_char(i);
            let c1: char = path.get_char(i + 1);
            let c2: char = path.get_char(i + 2);
            proof {
                assert(path@.skip(i as int)[0] == path@[i as int]);
                assert(path@.skip(i as int)[1] == path@[i + 1]);
                assert(path@.skip(i as int)[2] == path@[i + 2]);
            }
            if char_ci(c0, 'j') && char_ci(c1, 'p') && char_ci(c2, 'g') {
                return MediaKind::Photo;
            }
            if char_ci(c0, 'm') && char_ci(c1, 'p') && char_ci(c2, '4') {
                return MediaKind::Video;
            }
            return MediaKind::Unsupported;
        }
        proof {
            assert(path@.take(i as int).last() == path@[i - 1]);
            assert(path@.take(i as int).drop_last() =~= path@.take(i - 1));
        }
        i = i - 1;
    }
    proof {
        assert(path@.take(0).len() == 0);
    }
    MediaKind::Unsupported
}

/// The cache key a path maps to: every path separator, of either kind,
/// becomes a double underscore.
pub open spec fn spec_key_of(s: Seq<char>) -> Seq<char>
    decreases s.len(),
{
    if s.len() == 0 {
        Seq::empty()
    } else {
        spec_key_of(s.drop_last()) + (if s.last() as u32 == 47 || s.last() as u32 == 92 {
            seq!['_', '_']
        } else {
            seq![s.last()]
        })
    }
}

/// Derives the flat cache key for a path, as `spec_key_of` describes.
pub fn path_to_key(path: &str) -> (r: String)
    ensures
        r@ == spec_key_of(path@),
{
    let n: usize = path.unicode_len();
    let mut out: String = String::new();
    let mut i: usize = 0;
    while i < n
        invariant
            0 <= i <= n == path@.len(),
            out@ == spec_key_of(path@.take(i as int)),
        decreases n - i,
    {
        let c: char = path.get_char(i);
        if (c as u32) == 47 || (c as u32) == 92 {
            out.append("__");
            proof {
                reveal_strlit("__");
                assert(path@.take(i + 1).drop_last() =~= path@.take(i as int));
                assert(path@.take(i + 1).last() == path@[i as int]);
                assert(out@ =~= spec_key_of(path@.take(i + 1)));
            }
        } else {
            let piece: &str = path.substring_char(i, i + 1);
            out.append(piece);
            proof {
                assert(piece@ =~= seq![path@[i as int]]);
                assert(path@.take(i + 1).drop_last() =~= path@.take(i as int));
                assert(path@.take(i + 1).last() == path@[i as int]);
                assert(out@ =~= spec_key_of(path@.take(i + 1)));
            }
        }
        i = i + 1;
    }
    proof {
        assert(path@.take(n as int) =~= path@);
    }
    out
}

/// The search pipeline: target, radius and flags, plus the metadata store.
pub struct Searcher {
    radius: u64,
    target_loc: (i64, i64),
    early_stop_count: isize,
    sort_by_distance: bool,
    verbose: bool,
    cache: Cache,
}

impl Searcher {
    /// The search radius, in millimeters.
    pub closed spec fn spec_radius(self) -> u64 {
        self.radius
    }

    /// The target location, in nanodegrees.
    pub closed spec fn spec_target(self) -> (i64, i64) {
        self.target_loc
    }

    /// How many selected results stop the run; negative means no bound.
    pub closed spec fn spec_early_stop(self) -> int {
        self.early_stop_count as int
    }

    /// Whether results are sorted before presentation.
    pub closed spec fn spec_sort(self) -> bool {
        self.sort_by_distance
    }

    /// Whether diagnostics are wanted.
    pub closed spec fn spec_verbose(self) -> bool {
        self.verbose
    }

    /// The store's content, as a map from keys to documents.
    pub closed spec fn cache_view(self) -> Map<Seq<char>, Seq<u8>> {
        self.cache@
    }

    /// A valid target and a well-formed store.
    pub closed spec fn wf(self) -> bool {
        coords_valid(self.target_loc) && self.cache.wf()
    }

    /// Two searchers configured alike (the store's content aside).
    pub open spec fn same_config(a: Searcher, b: Searcher) -> bool {
        &&& a.spec_radius() == b.spec_radius()
        &&& a.spec_target() == b.spec_target()
        &&& a.spec_early_stop() == b.spec_early_stop()
        &&& a.spec_sort() == b.spec_sort()
        &&& a.spec_verbose() == b.spec_verbose()
    }

    /// Builds a searcher; a target outside the valid coordinate ranges is
    /// rejected.
    pub fn new(
        radius: u64,
        target_loc: (i64, i64),
        early_stop_count: isize,
        sort_by_distance: bool,
        verbose: bool,
        cache: Cache,
    ) -> (r: Result<Searcher, DistanceError>)
        requires
            cache.wf(),
        ensures
            (r is Ok) == coords_valid(target_loc),
            r matches Ok(s) ==> s.wf() && s.spec_radius() == radius && s.spec_target() == target_loc
                && s.spec_early_stop() == early_stop_count as int && s.spec_sort()
                == sort_by_distance && s.spec_verbose() == verbose && s.cache_view() == cache@,
            r is Err ==> r == Err::<Searcher, DistanceError>(DistanceError::InvalidCoordinate),
    {
        let (lat, lon) = target_loc;
        if lat < -90_000_000_000 || lat > 90_000_000_000 || lon < -180_000_000_000 || lon
            > 180_000_000_000 {
            return Err(DistanceError::InvalidCoordinate);
        }
        Ok(Searcher { radius, target_loc, early_stop_count, sort_by_distance, verbose, cache })
    }

    /// How a result must relate to a path and its metadata: no
    /// coordinates give no result; coordinates give a result carrying the
    /// path, the exact great-circle distance to the target, and the
    /// selection outcome `distance <= radius`.
    pub open spec fn result_matches(
        self,
        path: Seq<char>,
        m: PhotoMetadata,
        r: Option<FilterResult>,
    ) -> bool {
        match m.coordinates {
            None => r is None,
            Some(c) => r matches Some(fr) && fr.path@ == path && fr.distance as int
                == spec_haversine_mm(self.spec_target().0 as int, self.spec_target().1 as int,
                c.0 as int, c.1 as int) && fr.selected == (fr.distance <= self.spec_radius()),
        }
    }

    /// Judges a path whose metadata is known: computes the distance and
    /// the selection outcome, exactly as `result_matches` describes.
    pub fn filter_with_metadata(&self, path: &str, m: &PhotoMetadata) -> (r: Option<FilterResult>)
        requires
            self.wf(),
            m.wf(),
        ensures
            self.result_matches(path@, *m, r),
    {
        match m.coordinates {
            None => None,
            Some(c) => {
                let d: u64 = match compute_distance(self.target_loc, c) {
                    Ok(d) => d,
                    Err(_) => {
                        proof {
                            assert(false);
                        }
                        0
                    },
                };
                Some(
                    FilterResult { path: path.to_owned(), distance: d, selected: d <= self.radius },
                )
            },
        }
    }

    /// Begins judging a path. A cached key is settled from the store
    /// alone — whether or not the file still exists — and is never asked
    /// about again. A miss classifies the path: photos want the file's
    /// bytes, videos go straight to the external tool, and unsupported
    /// paths are recorded as having no location and settled.
    pub fn filter_by_path_str(&mut self, path: &str) -> (r: Result<FilterStep, StorageFatal>)
        requires
            old(self).wf(),
        ensures
            final(self).wf(),
            Self::same_config(*final(self), *old(self)),
            ({
                let key = spec_key_of(path@);
                if old(self).cache_view().contains_key(key) {
                    &&& final(self).cache_view() == old(self).cache_view()
                    &&& match spec_decode_metadata(old(self).cache_view()[key]) {
                        Some(m) => r matches Ok(s) && s matches FilterStep::Done(res) && old(
                            self).result_matches(path@, m, res),
                        None => r == Err::<FilterStep, StorageFatal>(StorageFatal::Undecodable),
                    }
                } else {
                    match spec_media_kind(path@) {
                        MediaKind::Photo => r matches Ok(s) && s is NeedFileBytes && final(
                            self).cache_view() == old(self).cache_view(),
                        MediaKind::Video => r matches Ok(s) && s is NeedSecondary && final(
                            self).cache_view() == old(self).cache_view(),
                        MediaKind::Unsupported => {
                            &&& final(self).cache_view() == old(self).cache_view().insert(
                                key,
                                spec_encode_metadata(PhotoMetadata { coordinates: None }),
                            )
                            &&& r matches Ok(s) && s matches FilterStep::Done(res) && res is None
                        },
                    }
                }
            }),
    {
        let key: String = path_to_key(path);
        match self.cache.read_into(key.as_str()) {
            Err(e) => Err(e),
            Ok(Some(m)) => Ok(FilterStep::Done(self.filter_with_metadata(path, &m))),
            Ok(None) => match classify(path) {
                MediaKind::Photo => Ok(FilterStep::NeedFileBytes),
                MediaKind::Video => Ok(FilterStep::NeedSecondary),
                MediaKind::Unsupported => {
                    let m: PhotoMetadata = PhotoMetadata { coordinates: None };
                    match self.cache.write_from(key.as_str(), &m) {
                        Ok(()) => Ok(FilterStep::Done(None)),
                        Err(e) => {
                            proof {
                                assert(false);
                            }
                            Err(e)
                        },
                    }
                },
            },
        }
    }

    /// Continues a photo with the file's bytes: the in-process decoder
    /// reads them. An unreadable container asks for the external tool
    /// instead and changes nothing. A readable one settles the path: its
    /// outcome (coordinates or none) is recorded in the store under the
    /// path's key and judged, as `result_matches` describes. The strict
    /// store refuses a key that was cached in the meantime.
    pub fn filter_with_bytes(&mut self, path: &str, data: &[u8]) -> (r: Result<
        FilterStep,
        StorageFatal,
    >)
        requires
            old(self).wf(),
        ensures
            final(self).wf(),
            Self::same_config(*final(self), *old(self)),
            r matches Ok(s) ==> !(s is NeedFileBytes),
            r matches Ok(s) ==> ((s is NeedSecondary) == !exif_readable(data@)),
            r matches Ok(s) && s is NeedSecondary ==> *final(self) == *old(self),
            r is Err ==> *final(self) == *old(self) && r == Err::<FilterStep, StorageFatal>(
                StorageFatal::CacheFileExists),
            r matches Ok(s) ==> (s matches FilterStep::Done(res) ==> ({
                &&& final(self).cache_view() == old(self).cache_view().insert(
                    spec_key_of(path@),
                    spec_encode_metadata(spec_primary_metadata(data@)),
                )
                &&& old(self).result_matches(path@, spec_primary_metadata(data@), res)
            })),
    {
        match read_exif_kamadak(data) {
            Err(_) => Ok(FilterStep::NeedSecondary),
            Ok(opt) => {
                let m: PhotoMetadata = PhotoMetadata { coordinates: opt };
                proof {
                    lemma_primary_metadata_wf(data@);
                    assert(m == spec_primary_metadata(data@));
                }
                let key: String = path_to_key(path);
                match self.cache.write_from(key.as_str(), &m) {
                    Err(e) => Err(e),
                    Ok(()) => {
                        let res: Option<FilterResult> = self.filter_with_metadata(path, &m);
                        Ok(FilterStep::Done(res))
                    },
                }
            },
        }
    }

    /// Continues a path with the external tool's output, or with `None`
    /// when the tool could not be run or failed: such a path is skipped
    /// without recording anything, since nothing definite was learned.
    /// Output that was parsed — to coordinates or to a definite "none" —
    /// settles the path exactly as `filter_with_bytes` does.
    pub fn filter_with_secondary(&mut self, path: &str, tool_output: Option<&str>) -> (r: Result<
        FilterStep,
        StorageFatal,
    >)
        requires
            old(self).wf(),
        ensures
            final(self).wf(),
            Self::same_config(*final(self), *old(self)),
            r matches Ok(s) ==> !(s is NeedFileBytes) && !(s is NeedSecondary),
            tool_output is None ==> ({
                &&& *final(self) == *old(self)
                &&& r matches Ok(s) && s matches FilterStep::Done(res) && res is None
            }),
            r is Err ==> *final(self) == *old(self) && r == Err::<FilterStep, StorageFatal>(
                StorageFatal::CacheFileExists),
            tool_output matches Some(json) ==> (r matches Ok(s) ==> (s matches FilterStep::Done(
                res) ==> ({
                &&& final(self).cache_view() == old(self).cache_view().insert(
                    spec_key_of(path@),
                    spec_encode_metadata(spec_secondary_metadata(json@)),
                )
                &&& old(self).result_matches(path@, spec_secondary_metadata(json@), res)
            }))),
    {
        let json: &str = match tool_output {
            None => {
                return Ok(FilterStep::Done(None));
            },
            Some(j) => j,
        };
        let opt: Option<(i64, i64)> = parse_exiftool_json(json);
        let m: PhotoMetadata = PhotoMetadata { coordinates: opt };
        proof {
            lemma_secondary_metadata_wf(json@);
            assert(m == spec_secondary_metadata(json@));
        }
        let key: String = path_to_key(path);
        match self.cache.write_from(key.as_str(), &m) {
            Err(e) => Err(e),
            Ok(()) => {
                let res: Option<FilterResult> = self.filter_with_metadata(path, &m);
                Ok(FilterStep::Done(res))
            },
        }
    }

    /// Accumulates one settled answer: a selected result is kept, any
    /// other dropped. Answers whether the run should continue: a
    /// non-negative early-stop count is a live bound, and the run stops
    /// as soon as that many results have been kept.
    pub fn collect_step(&self, found: &mut Vec<FilterResult>, r: Option<FilterResult>) -> (cont:
        bool)
        ensures
            match r {
                Some(fr) => final(found)@ == if fr.selected {
                    old(found)@.push(fr)
                } else {
                    old(found)@
                },
                None => final(found)@ == old(found)@,
            },
            cont == !(self.spec_early_stop() >= 0 && final(found)@.len() >= self.spec_early_stop()),
    {
        match r {
            Some(fr) => {
                if fr.selected {
                    found.push(fr);
                }
            },
            None => {},
        }
        if self.early_stop_count >= 0 && found.len() >= self.early_stop_count as usize {
            false
        } else {
            true
        }
    }

    /// Arranges results for presentation: when sorting is enabled, the
    /// vector afterwards holds the same results ascending by distance,
    /// ties broken by the path string ascending; otherwise it keeps its
    /// encounter order.
    pub fn order_results(&self, found: &mut Vec<FilterResult>)
        ensures
            self.spec_sort() ==> results_ordered(final(found)@) && final(found)@.to_multiset()
                == old(found)@.to_multiset(),
            !self.spec_sort() ==> final(found)@ == old(found)@,
    {
        if self.sort_by_distance {
            sort_results(found);
        }
    }

    /// Hands the store a document loaded by a persistence layer, under
    /// the key it was stored by. The strict policy holds: a key already
    /// present keeps its entry and the load is refused.
    pub fn record_document(&mut self, key: &str, doc: Vec<u8>) -> (r: Result<(), StorageFatal>)
        requires
            old(self).wf(),
        ensures
            final(self).wf(),
            Self::same_config(*final(self), *old(self)),
            (r is Ok) == !old(self).cache_view().contains_key(key@),
            r is Ok ==> final(self).cache_view() == old(self).cache_view().insert(key@, doc@),
            r is Err ==> *final(self) == *old(self) && r == Err::<(), StorageFatal>(
                StorageFatal::CacheFileExists),
    {
        self.cache.write(key, doc)
    }

    /// Whether diagnostics are wanted.
    pub fn is_verbose(&self) -> (r: bool)
        ensures
            r == self.spec_verbose(),
    {
        self.verbose
    }

    /// Whether sorting is enabled.
    pub fn wants_sort(&self) -> (r: bool)
        ensures
            r == self.spec_sort(),
    {
        self.sort_by_distance
    }

    /// The metadata store, for a persistence layer to walk.
    pub fn cache_ref(&self) -> (r: &Cache)
        ensures
            r@ == self.cache_view(),
            self.wf() ==> r.wf(),
    {
        &self.cache
    }
}

/// Widening the radius never loses a selected result: if two searchers
/// aim at the same target and one's radius is at most the other's, every
/// result the narrower run selects, the wider run selects too.
pub proof fn lemma_radius_monotone(
    s1: Searcher,
    s2: Searcher,
    path: Seq<char>,
    m: PhotoMetadata,
    r1: Option<FilterResult>,
    r2: Option<FilterResult>,
)
    requires
        s1.spec_target() == s2.spec_target(),
        s1.spec_radius() <= s2.spec_radius(),
        s1.result_matches(path, m, r1),
        s2.result_matches(path, m, r2),
        r1 matches Some(fr1) && fr1.selected,
    ensures
        r2 matches Some(fr2) && fr2.selected,
{
}

/// A maximal radius selects every path with known coordinates.
pub proof fn lemma_unbounded_radius_selects(
    s: Searcher,
    path: Seq<char>,
    m: PhotoMetadata,
    r: Option<FilterResult>,
)
    requires
        s.spec_radius() == u64::MAX,
        s.result_matches(path, m, r),
        m.coordinates is Some,
    ensures
        r matches Some(fr) && fr.selected,
{
}

} // verus!
