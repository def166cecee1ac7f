//! 128-bit identifiers read from the binary records and from text.

use vstd::prelude::*;

verus! {

/// The 128-bit value of a 16-byte identifier stored with little-endian
/// `data1`, `data2` and `data3` fields followed by eight plain bytes:
/// the canonical byte order is `b3 b2 b1 b0 b5 b4 b7 b6 b8 .. b15`, read
/// as one big-endian number.
pub open spec fn guid_u128_of(b: Seq<u8>) -> u128 {
    ((b[3] as u128) << 120) | ((b[2] as u128) << 112) | ((b[1] as u128) << 104) | ((
    b[0] as u128) << 96) | ((b[5] as u128) << 88) | ((b[4] as u128) << 80) | ((b[7] as u128)
        << 72) | ((b[6] as u128) << 64) | ((b[8] as u128) << 56) | ((b[9] as u128) << 48) | ((
    b[10] as u128) << 40) | ((b[11] as u128) << 32) | ((b[12] as u128) << 24) | ((b[13] as u128)
        << 16) | ((b[14] as u128) << 8) | (b[15] as u128)
}

/// Relies on `uuid::Uuid::from_slice_le` and `Uuid::as_u128`: a 16-byte
/// slice is read with little-endian `data1`/`data2`/`data3` fields and the
/// value is the big-endian reading of the canonical bytes; `from_slice_le`
/// fails only when the slice is not 16 bytes long.
#[verifier::external_body]
pub fn guid_from_slice_le(b: &[u8]) -> (r: u128)
    requires
        b@.len() == 16,
    ensures
        r == guid_u128_of(b@),
{
    uuid::Uuid::from_slice_le(b).unwrap_or_default().as_u128()
}

/// What `uuid::Uuid::parse_str` returns, as the 128-bit value of the parsed
/// identifier: a function of the text alone.
pub uninterp spec fn uuid_parse_of(s: Seq<char>) -> Option<u128>;

/// Relies on `uuid::Uuid::parse_str`: deterministic in its input, `Err` is
/// mapped to `None` and `Ok` to the identifier's 128-bit value.
#[verifier::external_body]
pub fn parse_uuid_str(s: &str) -> (r: Option<u128>)
    ensures
        r == uuid_parse_of(s@),
{
    uuid::Uuid::parse_str(s).ok().map(|u| u.as_u128())
}

/// The identifier value of a braced textual identifier once the surrounding
/// pair of marker characters is stripped; zero when parsing fails or the
/// text is too short to hold the markers.
pub open spec fn vid_of(s: Seq<char>) -> u128 {
    if s.len() < 2 {
        0
    } else {
        match uuid_parse_of(s.subrange(1, s.len() - 1)) {
            Some(v) => v,
            None => 0,
        }
    }
}

/// Parses the view-customization identifier stored as `{...}` text: the
/// first and last characters are stripped before parsing, and any failure
/// yields zero.
pub fn parse_vid(s: &str) -> (r: u128)
    ensures
        r == vid_of(s@),
{
    let len = s.unicode_len();
    if len < 2 {
        return 0;
    }
    let inner = s.substring_char(1, len - 1);
    match parse_uuid_str(inner) {
        Some(v) => v,
        None => 0,
    }
}

} // verus!
