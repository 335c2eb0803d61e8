//! The metadata document that the cache stores for each media file: an
//! optional pair of geographic coordinates.
//!
//! Latitude and longitude are carried as nanodegrees: the decimal degree
//! value scaled by 10^9 and truncated to an integer. The scale is fine enough
//! (about 0.1 mm on the ground) that every coordinate a decoder can produce
//! is represented exactly.

use vstd::prelude::*;

use crate::numbers::{
    enc_pad, find_byte, first_byte, format_nanodeg, is_digit, lemma_enc_pad_ok, lemma_enc_uint_ok,
    lemma_format_parse_roundtrip, lemma_strip_digits, parse_nanodeg, pow10, spec_format_nanodeg,
    spec_parse_nanodeg, DOT, MINUS,
};

verus! {

/// Nanodegrees in one degree.
pub const NANO: i64 = 1_000_000_000;

/// Largest representable latitude: 90 degrees in nanodegrees.
pub const LAT_LIMIT: i64 = 90_000_000_000;

/// Largest representable longitude: 180 degrees in nanodegrees.
pub const LON_LIMIT: i64 = 180_000_000_000;

/// A latitude is valid when it lies in [-90, 90] degrees.
pub open spec fn lat_valid(lat: int) -> bool {
    -LAT_LIMIT <= lat <= LAT_LIMIT
}

/// A longitude is valid when it lies in [-180, 180] degrees.
pub open spec fn lon_valid(lon: int) -> bool {
    -LON_LIMIT <= lon <= LON_LIMIT
}

/// A coordinate pair (latitude, longitude) in nanodegrees, both in range.
pub open spec fn coords_valid(c: (i64, i64)) -> bool {
    lat_valid(c.0 as int) && lon_valid(c.1 as int)
}

/// What is known about one media file: its coordinates, if any were found.
/// `coordinates` being `None` is a legitimate, cacheable outcome meaning
/// "no location info found in this file".
#[derive(Clone, Copy, Debug, PartialEq)]
pub struct PhotoMetadata {
    /// (latitude, longitude) in nanodegrees.
    pub coordinates: Option<(i64, i64)>,
}

impl PhotoMetadata {
    /// A metadata document is well formed when any coordinates it carries
    /// are in range.
    pub open spec fn wf(self) -> bool {
        match self.coordinates {
            Some(c) => coords_valid(c),
            None => true,
        }
    }
}

impl Default for PhotoMetadata {
    /// The empty document: no location information.
    fn default() -> (r: Self)
        ensures
            r.coordinates is None,
    {
        PhotoMetadata { coordinates: None }
    }
}

/// ASCII comma, the separator between the two coordinates.
pub const COMMA: u8 = 44;

/// The opening of every cache document: `{"coordinates":`.
pub open spec fn doc_prefix() -> Seq<u8> {
    seq![123u8, 34, 99, 111, 111, 114, 100, 105, 110, 97, 116, 101, 115, 34, 58]
}

/// The document meaning "no coordinates": `{"coordinates":null}`.
pub open spec fn null_doc() -> Seq<u8> {
    doc_prefix() + seq![110u8, 117, 108, 108, 125]
}

/// The serialized form of a metadata document: the coordinates as a
/// two-element array of decimal degree strings, or `null`.
pub open spec fn spec_encode_metadata(m: PhotoMetadata) -> Seq<u8> {
    match m.coordinates {
        None => null_doc(),
        Some(c) => doc_prefix() + seq![91u8] + spec_format_nanodeg(c.0 as int) + seq![COMMA]
            + spec_format_nanodeg(c.1 as int) + seq![93u8, 125],
    }
}

/// What a document decodes to: `None` when it is not a well-formed
/// document with in-range coordinates.
pub open spec fn spec_decode_metadata(doc: Seq<u8>) -> Option<PhotoMetadata> {
    if doc == null_doc() {
        Some(PhotoMetadata { coordinates: None })
    } else if doc.len() >= 19 && doc.take(16) == doc_prefix() + seq![91u8] && doc[doc.len() - 2]
        == 93 && doc[doc.len() - 1] == 125 {
        let body = doc.subrange(16, doc.len() - 2);
        let c = first_byte(body, COMMA);
        if c >= 0 {
            match (spec_parse_nanodeg(body.take(c)), spec_parse_nanodeg(body.skip(c + 1))) {
                (Some(la), Some(lo)) => {
                    if lat_valid(la) && lon_valid(lo) {
                        Some(PhotoMetadata { coordinates: Some((la as i64, lo as i64)) })
                    } else {
                        None
                    }
                },
                _ => None,
            }
        } else {
            None
        }
    } else {
        None
    }
}

/// Appends `{"coordinates":`.
fn push_doc_prefix(out: &mut Vec<u8>)
    ensures
        final(out)@ == old(out)@ + doc_prefix(),
{
    out.push(123);
    out.push(34);
    out.push(99);
    out.push(111);
    out.push(111);
    out.push(114);
    out.push(100);
    out.push(105);
    out.push(110);
    out.push(97);
    out.push(116);
    out.push(101);
    out.push(115);
    out.push(34);
    out.push(58);
    proof {
        assert(out@ =~= old(out)@ + doc_prefix());
    }
}

/// Serializes a metadata document, exactly as `spec_encode_metadata`
/// describes it.
pub fn encode_metadata(m: &PhotoMetadata) -> (r: Vec<u8>)
    requires
        m.wf(),
    ensures
        r@ == spec_encode_metadata(*m),
{
    let mut out: Vec<u8> = Vec::new();
    push_doc_prefix(&mut out);
    match m.coordinates {
        None => {
            out.push(110);
            out.push(117);
            out.push(108);
            out.push(108);
            out.push(125);
            proof {
                assert(out@ =~= spec_encode_metadata(*m));
            }
        },
        Some((la, lo)) => {
            out.push(91);
            let mut lat_s: Vec<u8> = format_nanodeg(la);
            out.append(&mut lat_s);
            out.push(COMMA);
            let mut lon_s: Vec<u8> = format_nanodeg(lo);
            out.append(&mut lon_s);
            out.push(93);
            out.push(125);
            proof {
                assert(out@ =~= spec_encode_metadata(*m));
            }
        },
    }
    out
}

/// The first occurrence of `b` in `a + [b] + c` is right after `a` when
/// `a` holds none.
proof fn lemma_first_byte_concat(a: Seq<u8>, b: u8, c: Seq<u8>)
    requires
        forall|j: int| 0 <= j < a.len() ==> a[j] != b,
    ensures
        first_byte(a + seq![b] + c, b) == a.len(),
    decreases a.len(),
{
    let s = a + seq![b] + c;
    if a.len() == 0 {
        assert(s[0] == b);
    } else {
        assert(s[0] == a[0]);
        assert(s.skip(1) =~= a.skip(1) + seq![b] + c);
        lemma_first_byte_concat(a.skip(1), b, c);
    }
}

/// A document whose first sixteen bytes are `{"coordinates":[` pins each
/// of those bytes.
proof fn lemma_doc_head(doc: Seq<u8>)
    requires
        doc.len() >= 16,
        doc.take(16) == doc_prefix() + seq![91u8],
    ensures
        doc[0] == 123 && doc[1] == 34 && doc[2] == 99 && doc[3] == 111 && doc[4] == 111 && doc[5]
            == 114 && doc[6] == 100 && doc[7] == 105 && doc[8] == 110 && doc[9] == 97 && doc[10]
            == 116 && doc[11] == 101 && doc[12] == 115 && doc[13] == 34 && doc[14] == 58 && doc[15]
            == 91,
{
    let p = doc_prefix() + seq![91u8];
    assert forall|k: int| 0 <= k < 16 implies doc[k] == p[k] by {
        assert(doc.take(16)[k] == doc[k]);
    }
}

/// Parses a document, exactly as `spec_decode_metadata` describes it.
pub fn decode_metadata(doc: &[u8]) -> (r: Option<PhotoMetadata>)
    ensures
        r == spec_decode_metadata(doc@),
        r matches Some(m) ==> m.wf(),
{
    if doc.len() < 16 {
        proof {
            assert(doc@ != null_doc());
        }
        return None;
    }
    if doc[0] != 123 || doc[1] != 34 || doc[2] != 99 || doc[3] != 111 || doc[4] != 111 || doc[5]
        != 114 || doc[6] != 100 || doc[7] != 105 || doc[8] != 110 || doc[9] != 97 || doc[10] != 116
        || doc[11] != 101 || doc[12] != 115 || doc[13] != 34 || doc[14] != 58 {
        proof {
            assert(doc@ != null_doc());
            if doc@.take(16) == doc_prefix() + seq![91u8] {
                lemma_doc_head(doc@);
            }
        }
        return None;
    }
    if doc[15] == 110 {
        if doc.len() == 20 && doc[16] == 117 && doc[17] == 108 && doc[18] == 108 && doc[19] == 125 {
            proof {
                assert(doc@ =~= null_doc());
            }
            return Some(PhotoMetadata { coordinates: None });
        }
        proof {
            assert(doc@ != null_doc());
            if doc@.take(16) == doc_prefix() + seq![91u8] {
                lemma_doc_head(doc@);
            }
        }
        return None;
    }
    if doc[15] != 91 {
        proof {
            assert(doc@ != null_doc());
            if doc@.take(16) == doc_prefix() + seq![91u8] {
                lemma_doc_head(doc@);
            }
        }
        return None;
    }
    proof {
        assert(doc@ != null_doc());
        assert(doc@.take(16) =~= doc_prefix() + seq![91u8]);
    }
    if doc.len() < 19 || doc[doc.len() - 2] != 93 || doc[doc.len() - 1] != 125 {
        return None;
    }
    let body: &[u8] = vstd::slice::slice_subrange(doc, 16, doc.len() - 2);
    proof {
        assert(body@ =~= doc@.subrange(16, doc@.len() - 2));
    }
    let c: usize = match find_byte(body, COMMA) {
        Some(c) => c,
        None => {
            return None;
        },
    };
    let lat_s: &[u8] = vstd::slice::slice_subrange(body, 0, c);
    let lon_s: &[u8] = vstd::slice::slice_subrange(body, c + 1, body.len());
    proof {
        assert(lat_s@ =~= body@.take(c as int));
        assert(lon_s@ =~= body@.skip(c as int + 1));
    }
    let la: i64 = match parse_nanodeg(lat_s) {
        Some(v) => v,
        None => {
            return None;
        },
    };
    let lo: i64 = match parse_nanodeg(lon_s) {
        Some(v) => v,
        None => {
            return None;
        },
    };
    if la < -LAT_LIMIT || la > LAT_LIMIT || lo < -LON_LIMIT || lo > LON_LIMIT {
        return None;
    }
    Some(PhotoMetadata { coordinates: Some((la, lo)) })
}

/// Every byte a formatted coordinate contains is a digit, the minus sign,
/// or the decimal point; in particular it is never a comma. The string is
/// also never empty.
proof fn lemma_format_chars(v: int)
    requires
        -9_000_000_000_999_999_999 <= v <= 9_000_000_000_999_999_999,
    ensures
        spec_format_nanodeg(v).len() >= 1,
        forall|i: int| 0 <= i < spec_format_nanodeg(v).len() ==> (is_digit(
            #[trigger] spec_format_nanodeg(v)[i]) || spec_format_nanodeg(v)[i] == MINUS
            || spec_format_nanodeg(v)[i] == DOT),
{
    let m = if v < 0 {
        -v
    } else {
        v
    };
    let whole = m / 1_000_000_000;
    let frac = m % 1_000_000_000;
    lemma_enc_uint_ok(whole);
    if frac != 0 {
        assert(pow10(9) == 1_000_000_000) by {
            reveal_with_fuel(pow10, 10);
        }
        lemma_enc_pad_ok(frac, 9);
        lemma_strip_digits(enc_pad(frac, 9));
    }
}

/// Encoding a well-formed metadata document and decoding it back returns
/// the same document: the cache codec round-trips.
pub proof fn lemma_metadata_roundtrip(m: PhotoMetadata)
    requires
        m.wf(),
    ensures
        spec_decode_metadata(spec_encode_metadata(m)) == Some(m),
{
    match m.coordinates {
        None => {
        },
        Some((la, lo)) => {
            let doc = spec_encode_metadata(m);
            let lat_s = spec_format_nanodeg(la as int);
            let lon_s = spec_format_nanodeg(lo as int);
            lemma_format_chars(la as int);
            lemma_format_chars(lo as int);
            assert(doc[15] == 91 && null_doc()[15] == 110);
            assert(doc != null_doc());
            assert(doc.take(16) =~= doc_prefix() + seq![91u8]);
            assert(doc[doc.len() - 2] == 93 && doc[doc.len() - 1] == 125);
            let body = doc.subrange(16, doc.len() - 2);
            assert(body =~= lat_s + seq![COMMA] + lon_s);
            lemma_first_byte_concat(lat_s, COMMA, lon_s);
            let c = first_byte(body, COMMA);
            assert(c == lat_s.len());
            assert(body.take(c) =~= lat_s);
            assert(body.skip(c + 1) =~= lon_s);
            lemma_format_parse_roundtrip(la as int);
            lemma_format_parse_roundtrip(lo as int);
        },
    }
}

} // verus!
