//! Packing of exported data for transport: the text is compressed and then
//! written in a printable encoding, and unpacking undoes both steps.  The
//! round trip is exact: unpacking what packing produced yields the text
//! that went in.

use vstd::prelude::*;
use vstd::string::StringSliceAdditionalSpecFns;
use vstd::utf8::encode_utf8;
use vstd::utf8::decode_utf8;
use vstd::utf8::valid_utf8;
use std::io::Write;
use std::io::Read;
use base64::Engine;

verus! {

/// What the compressor produces for a byte string: a function of the bytes
/// alone, since the fixed default level and empty header fields are used.
pub uninterp spec fn gzip_of(b: Seq<u8>) -> Seq<u8>;

/// What the printable encoding of a byte string is: a function of the
/// bytes alone.
pub uninterp spec fn b64_of(b: Seq<u8>) -> Seq<char>;

/// Relies on `flate2::write::GzEncoder` with `Compression::default` (its
/// `new`, `write_all` and `finish`): the compressed form of exactly the
/// written bytes.  The result is a function of the bytes alone: the
/// default header carries a zero timestamp and a fixed system marker, and
/// the sink is a plain buffer.
#[verifier::external_body]
fn gzip_compress(b: &[u8]) -> (r: Option<Vec<u8>>)
    ensures
        r matches Some(v) ==> v@ == gzip_of(b@),
{
    let mut encoder = flate2::write::GzEncoder::new(Vec::new(), flate2::Compression::default());
    if encoder.write_all(b).is_err() {
        return None;
    }
    encoder.finish().ok()
}

/// Relies on `flate2::read::GzDecoder` (its `new` and `read_to_end`):
/// decompression inverts compression, so the compressed form of any byte
/// string decompresses to exactly that string; anything else may fail.
#[verifier::external_body]
fn gzip_decompress(b: &[u8]) -> (r: Option<Vec<u8>>)
    ensures
        match r {
            Some(v) => forall|x: Seq<u8>| b@ == #[trigger] gzip_of(x) ==> v@ == x,
            None => forall|x: Seq<u8>| b@ != #[trigger] gzip_of(x),
        },
{
    let mut decoder = flate2::read::GzDecoder::new(b);
    let mut out = Vec::new();
    if decoder.read_to_end(&mut out).is_err() {
        return None;
    }
    Some(out)
}

/// Relies on `base64::engine::general_purpose::STANDARD.encode`: the
/// printable form of exactly the input bytes.
#[verifier::external_body]
fn b64_encode(b: &[u8]) -> (r: String)
    ensures
        r@ == b64_of(b@),
{
    base64::engine::general_purpose::STANDARD.encode(b)
}

/// Relies on `base64::engine::general_purpose::STANDARD.decode`: decoding
/// inverts encoding, so the printable form of any byte string decodes to
/// exactly that string; other inputs may be rejected.
#[verifier::external_body]
fn b64_decode(s: &str) -> (r: Option<Vec<u8>>)
    ensures
        match r {
            Some(v) => forall|x: Seq<u8>| s@ == #[trigger] b64_of(x) ==> v@ == x,
            None => forall|x: Seq<u8>| s@ != #[trigger] b64_of(x),
        },
{
    base64::engine::general_purpose::STANDARD.decode(s).ok()
}

/// Relies on `String::from_utf8`: it succeeds exactly on well-formed
/// encodings and yields their decoding.
#[verifier::external_body]
fn utf8_to_string(b: Vec<u8>) -> (r: Option<String>)
    ensures
        match r {
            Some(s) => valid_utf8(b@) && s@ == decode_utf8(b@),
            None => !valid_utf8(b@),
        },
{
    String::from_utf8(b).ok()
}

/// The packed form of a text: its encoding compressed, then written
/// printably.
pub open spec fn packed_of(s: Seq<char>) -> Seq<char> {
    b64_of(gzip_of(encode_utf8(s)))
}

/// Packs a text for transport.  Only a failure inside the compressor —
/// which a plain in-memory sink does not produce — yields nothing.
pub fn pack_backup(data: &str) -> (r: Option<String>)
    ensures
        r matches Some(e) ==> e@ == packed_of(data@),
{
    let bytes = data.as_bytes();
    let compressed = match gzip_compress(bytes) {
        Some(v) => v,
        None => {
            return None;
        },
    };
    Some(b64_encode(compressed.as_slice()))
}

/// Unpacks transported text: whatever `pack_backup` produced comes back
/// exactly; text that is not a packed form may yield nothing.
pub fn unpack_backup(encoded: &str) -> (r: Option<String>)
    ensures
        forall|orig: Seq<char>|
            encoded@ == #[trigger] packed_of(orig) ==> (r matches Some(t) && t@ == orig),
{
    let compressed = match b64_decode(encoded) {
        Some(v) => v,
        None => {
            return None;
        },
    };
    let plain = match gzip_decompress(compressed.as_slice()) {
        Some(v) => v,
        None => {
            return None;
        },
    };
    let text = utf8_to_string(plain);
    proof {
        broadcast use vstd::utf8::encode_utf8_valid_utf8;
        broadcast use vstd::utf8::encode_utf8_decode_utf8;

    }
    text
}

} // verus!
