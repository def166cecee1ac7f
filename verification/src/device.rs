//! The device fingerprint: hardware serial strings folded together with a
//! keyed byte rotation and digested into one hexadecimal identifier.

use vstd::prelude::*;
use vstd::string::StringSliceAdditionalSpecFns;
use crate::strutil::utf8_lossy;
use sha2::Digest;

verus! {

/// Whether every character of a text is plain ASCII.
pub open spec fn all_ascii(s: Seq<char>) -> bool {
    vstd::utf8::is_ascii_chars(s)
}

/// One text folded with a key: each character's code combined with the code
/// of the key character at the same position, the key repeating.
pub open spec fn shuffle_spec(d: Seq<char>, k: Seq<char>) -> Seq<char> {
    Seq::new(d.len(), |i: int| (((d[i] as u8) ^ (k[i % (k.len() as int)] as u8)) as char))
}

/// Folds a text with a repeating key, byte by byte.  Both texts must be
/// ASCII — the fold of two ASCII bytes is again ASCII, so the result is
/// well-formed text — and the key must not be empty.
pub fn shuffle(data: String, key: String) -> (r: String)
    ensures
        all_ascii(data@) && all_ascii(key@) && key@.len() > 0 ==> r@ == shuffle_spec(data@, key@),
        !(all_ascii(data@) && all_ascii(key@) && key@.len() > 0) ==> r@ == data@,
{
    let dstr = data.as_str();
    let kstr = key.as_str();
    if !dstr.is_ascii() || !kstr.is_ascii() || kstr.unicode_len() == 0 {
        return data;
    }
    let db = dstr.as_bytes();
    let kb = kstr.as_bytes();
    let n = db.len();
    let klen = kb.len();
    proof {
        broadcast use vstd::string::is_ascii_spec_bytes;
        broadcast use vstd::utf8::is_ascii_chars_nat_bound;

        assert(db@ =~= Seq::new(dstr@.len(), |i: int| dstr@[i] as u8));
        assert(kb@ =~= Seq::new(kstr@.len(), |i: int| kstr@[i] as u8));
        assert forall|j: int| 0 <= j < db@.len() implies #[trigger] db@[j] < 0x80 by {
            assert((data@[j] as nat) < 128);
        }
        assert forall|j: int| 0 <= j < kb@.len() implies #[trigger] kb@[j] < 0x80 by {
            assert((key@[j] as nat) < 128);
        }
    }
    let mut out: Vec<u8> = Vec::new();
    let mut i: usize = 0;
    while i < n
        invariant
            0 <= i <= n,
            n == db@.len(),
            klen == kb@.len(),
            klen > 0,
            db@ == dstr.spec_bytes(),
            kb@ == kstr.spec_bytes(),
            dstr.is_ascii(),
            kstr.is_ascii(),
            dstr@ == data@,
            kstr@ == key@,
            db@.len() == data@.len(),
            kb@.len() == key@.len(),
            forall|j: int| 0 <= j < db@.len() ==> db@[j] == (data@[j] as u8),
            forall|j: int| 0 <= j < kb@.len() ==> kb@[j] == (key@[j] as u8),
            forall|j: int| 0 <= j < db@.len() ==> db@[j] < 0x80,
            forall|j: int| 0 <= j < kb@.len() ==> kb@[j] < 0x80,
            out@.len() == i,
            forall|j: int| 0 <= j < i ==> out@[j] == (db@[j] ^ kb@[j % (klen as int)]),
            forall|j: int| 0 <= j < i ==> out@[j] < 0x80,
        decreases n - i,
    {
        let a = *vstd::slice::slice_index_get(db, i);
        let b = *vstd::slice::slice_index_get(kb, i % klen);
        let x = a ^ b;
        proof {
            assert(a < 0x80 && b < 0x80 ==> (a ^ b) < 0x80) by (bit_vector);
        }
        out.push(x);
        i = i + 1;
    }
    let r = utf8_lossy(out.as_slice());
    proof {
        assert(r@ =~= shuffle_spec(data@, key@));
    }
    r
}

/// What the digest of a byte string is: 32 bytes, a function of the input
/// alone.
pub uninterp spec fn sha256_of(b: Seq<u8>) -> Seq<u8>;

/// Relies on `sha2::Sha256::digest`: a 32-byte value computed from the
/// input bytes alone.
#[verifier::external_body]
fn sha256_digest(b: &[u8]) -> (r: Vec<u8>)
    ensures
        r@ == sha256_of(b@),
        r@.len() == 32,
{
    sha2::Sha256::digest(b).to_vec()
}

/// The lowercase hexadecimal digit of a value below sixteen.
pub open spec fn hex_char(d: int) -> char {
    if d < 10 {
        crate::strutil::digit_char(d)
    } else if d == 10 { 'a' }
    else if d == 11 { 'b' }
    else if d == 12 { 'c' }
    else if d == 13 { 'd' }
    else if d == 14 { 'e' }
    else { 'f' }
}

/// The hexadecimal text of a byte string: two lowercase digits per byte,
/// high nibble first.
pub open spec fn hex_of(b: Seq<u8>) -> Seq<char> {
    Seq::new(
        2 * b.len(),
        |i: int| if i % 2 == 0 {
            hex_char((b[i / 2] >> 4) as int)
        } else {
            hex_char((b[i / 2] & 0xf) as int)
        },
    )
}

/// Relies on `hex::encode`: two lowercase hexadecimal digits per input
/// byte, high nibble first.
#[verifier::external_body]
fn hex_encode(b: &[u8]) -> (r: String)
    ensures
        r@ == hex_of(b@),
{
    hex::encode(b)
}

/// Four hardware serial strings that identify one machine.
#[derive(Debug, Clone)]
pub struct DeviceId {
    pub pairs: [String; 4],
}

/// The folded text the fingerprint digests: each serial folded with the
/// next one as key, the three folds concatenated.
pub open spec fn fold_text(p0: Seq<char>, p1: Seq<char>, p2: Seq<char>, p3: Seq<char>) -> Seq<
    char,
> {
    shuffle_spec(p0, p1) + shuffle_spec(p1, p2) + shuffle_spec(p2, p3)
}

impl DeviceId {
    /// The hexadecimal fingerprint: the serials folded pairwise, the folds
    /// concatenated, digested, and written in hexadecimal.
    pub fn to_string(&self) -> (r: String)
        requires
            forall|k: int| 0 <= k < 4 ==> all_ascii((#[trigger] self.pairs[k])@),
            self.pairs[1]@.len() > 0,
            self.pairs[2]@.len() > 0,
            self.pairs[3]@.len() > 0,
        ensures
            r@ == hex_of(
                sha256_of(
                    vstd::utf8::encode_utf8(
                        fold_text(
                            self.pairs[0]@,
                            self.pairs[1]@,
                            self.pairs[2]@,
                            self.pairs[3]@,
                        ),
                    ),
                ),
            ),
    {
        let mut str_val = String::new();
        let part = shuffle(self.pairs[0].clone(), self.pairs[1].clone());
        str_val.append(part.as_str());
        let part = shuffle(self.pairs[1].clone(), self.pairs[2].clone());
        str_val.append(part.as_str());
        let part = shuffle(self.pairs[2].clone(), self.pairs[3].clone());
        str_val.append(part.as_str());
        proof {
            assert(str_val@ =~= fold_text(
                self.pairs[0]@,
                self.pairs[1]@,
                self.pairs[2]@,
                self.pairs[3]@,
            ));
        }
        let sv = str_val.as_str();
        let hash = sha256_digest(sv.as_bytes());
        hex_encode(hash.as_slice())
    }
}

} // verus!
