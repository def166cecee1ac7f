//! Re-encoding of the file-record fields the decoder reads, and the proof
//! that decoding such a record reproduces them.

use vstd::prelude::*;
use crate::date::dosdate_spec;
use crate::item::le16;
use crate::item::le32;
use crate::item::zero_pos;
use crate::item::zero_unit_pos;
use crate::item::utf16_units;
use crate::item::decode_item_spec;
use crate::item::decode_file_spec;
use crate::item::ShellItemV;
use crate::item::ShellFileItemV;
use crate::item::ext_signature;
use crate::strutil::utf8_lossy_of;
use crate::strutil::utf16_lossy_of;

verus! {

/// The two bytes of a 16-bit word, little endian.
pub open spec fn le16_bytes(v: u16) -> Seq<u8> {
    seq![(v & 0xff) as u8, ((v >> 8) & 0xff) as u8]
}

/// The four bytes of a 32-bit word, little endian.
pub open spec fn le32_bytes(v: u32) -> Seq<u8> {
    seq![
        (v & 0xff) as u8,
        ((v >> 8) & 0xff) as u8,
        ((v >> 16) & 0xff) as u8,
        ((v >> 24) & 0xff) as u8,
    ]
}

/// The bytes of a run of 16-bit units, little endian.
pub open spec fn utf16_bytes(u: Seq<u16>) -> Seq<u8> {
    Seq::new(
        (2 * u.len()) as nat,
        |i: int| if i % 2 == 0 {
            (u[i / 2] & 0xff) as u8
        } else {
            ((u[i / 2] >> 8) & 0xff) as u8
        },
    )
}

/// Whether the encoder accepts the fields: four-byte dates, a short name of
/// nonzero ASCII bytes, long-name units that are nonzero and below the
/// surrogate range, and a total size that fits the 16-bit size field.
pub open spec fn encodable_file_fields(
    mdate: Seq<u8>,
    cdate: Seq<u8>,
    adate: Seq<u8>,
    short: Seq<u8>,
    long: Seq<u16>,
) -> bool {
    &&& mdate.len() == 4
    &&& cdate.len() == 4
    &&& adate.len() == 4
    &&& forall|i: int| 0 <= i < short.len() ==> 0 < #[trigger] short[i] < 0x80
    &&& forall|i: int| 0 <= i < long.len() ==> 0 < #[trigger] long[i] < 0xd800
    &&& 39 + short.len() + 2 * long.len() <= 0xffff
}

/// The declared size of the encoded record.
pub open spec fn encoded_len(short: Seq<u8>, long: Seq<u16>) -> int {
    39 + short.len() as int + 2 * long.len() as int
}

/// The extension offset of the encoded record.
pub open spec fn encoded_ext_offset(short: Seq<u8>) -> int {
    15 + short.len() as int
}

/// The extension size field of the encoded record.
pub open spec fn encoded_ext_size(long: Seq<u16>) -> int {
    22 + 2 * long.len() as int
}

/// A file record holding exactly the fields the decoder reads: the base
/// fields, a null-terminated short name, and a version-3 extension with
/// both remaining dates and a null-terminated long name.
pub open spec fn encode_file_bytes(
    file_size: u32,
    fflags: u16,
    mdate: Seq<u8>,
    cdate: Seq<u8>,
    adate: Seq<u8>,
    short: Seq<u8>,
    long: Seq<u16>,
) -> Seq<u8> {
    le16_bytes(encoded_len(short, long) as u16) + seq![0x32u8, 0u8] + le32_bytes(file_size) + mdate
        + le16_bytes(fflags) + short + seq![0u8] + le16_bytes(encoded_ext_size(long) as u16)
        + le16_bytes(3u16) + le32_bytes(0xbeef0004u32) + cdate + adate + seq![0u8, 0u8, 0u8, 0u8]
        + utf16_bytes(long) + seq![0u8, 0u8] + le16_bytes(encoded_ext_offset(short) as u16)
}

proof fn lemma_le16_of_bytes(v: u16)
    ensures
        (le16_bytes(v)[0] as u16) | ((le16_bytes(v)[1] as u16) << 8) == v,
{
    assert(((v & 0xff) as u8 as u16) | ((((v >> 8) & 0xff) as u8 as u16) << 8) == v)
        by (bit_vector);
}

proof fn lemma_le32_of_bytes(v: u32)
    ensures
        (le32_bytes(v)[0] as u32) | ((le32_bytes(v)[1] as u32) << 8) | ((le32_bytes(v)[2] as u32)
            << 16) | ((le32_bytes(v)[3] as u32) << 24) == v,
{
    assert(((v & 0xff) as u8 as u32) | ((((v >> 8) & 0xff) as u8 as u32) << 8) | ((((v >> 16)
        & 0xff) as u8 as u32) << 16) | ((((v >> 24) & 0xff) as u8 as u32) << 24) == v)
        by (bit_vector);
}

proof fn lemma_le16_unit(v: u16)
    ensures
        ((v & 0xff) as u8 as u16) | ((((v >> 8) & 0xff) as u8 as u16) << 8) == v,
{
    assert(((v & 0xff) as u8 as u16) | ((((v >> 8) & 0xff) as u8 as u16) << 8) == v)
        by (bit_vector);
}

/// The first zero byte in a run of nonzero bytes followed by a zero sits
/// right after the run.
proof fn lemma_zero_pos_of(b: Seq<u8>, p: int)
    requires
        0 <= p <= b.len(),
        forall|i: int| 0 <= i < p ==> b[i] != 0,
        p < b.len() ==> b[p] == 0,
    ensures
        zero_pos(b, 0) == if p < b.len() {
            p
        } else {
            b.len() as int
        },
{
    lemma_zero_pos_from(b, 0, p);
}

proof fn lemma_zero_pos_from(b: Seq<u8>, i: int, p: int)
    requires
        0 <= i <= p <= b.len(),
        forall|j: int| i <= j < p ==> b[j] != 0,
        p < b.len() ==> b[p] == 0,
    ensures
        zero_pos(b, i) == if p < b.len() {
            p
        } else {
            b.len() as int
        },
    decreases p - i,
{
    if i < p {
        lemma_zero_pos_from(b, i + 1, p);
    }
}

/// The first zero unit in a run of nonzero units followed by a zero sits
/// right after the run.
proof fn lemma_zero_unit_pos_of(u: Seq<u16>, p: int)
    requires
        0 <= p <= u.len(),
        forall|i: int| 0 <= i < p ==> u[i] != 0,
        p < u.len() ==> u[p] == 0,
    ensures
        zero_unit_pos(u, 0) == if p < u.len() {
            p
        } else {
            u.len() as int
        },
{
    lemma_zero_unit_pos_from(u, 0, p);
}

proof fn lemma_zero_unit_pos_from(u: Seq<u16>, i: int, p: int)
    requires
        0 <= i <= p <= u.len(),
        forall|j: int| i <= j < p ==> u[j] != 0,
        p < u.len() ==> u[p] == 0,
    ensures
        zero_unit_pos(u, i) == if p < u.len() {
            p
        } else {
            u.len() as int
        },
    decreases p - i,
{
    if i < p {
        lemma_zero_unit_pos_from(u, i + 1, p);
    }
}

/// Decoding a record built by `encode_file_bytes` reproduces every field
/// the encoder was given: the size, the flags, each timestamp as the decoded
/// value of its four date bytes, the short name as the decoding of exactly
/// the short-name bytes, and the long name as the decoding of exactly the
/// long-name units.
#[verifier::rlimit(100)]
pub proof fn lemma_file_record_round_trip(
    file_size: u32,
    fflags: u16,
    mdate: Seq<u8>,
    cdate: Seq<u8>,
    adate: Seq<u8>,
    short: Seq<u8>,
    long: Seq<u16>,
)
    requires
        encodable_file_fields(mdate, cdate, adate, short, long),
    ensures
        decode_item_spec(encode_file_bytes(file_size, fflags, mdate, cdate, adate, short, long))
            == Some(
            ShellItemV::File(
                ShellFileItemV {
                    file_size,
                    fflags,
                    m_time: (match dosdate_spec(mdate) {
                        Some(t) => t,
                        None => 0,
                    }),
                    c_time: (match dosdate_spec(cdate) {
                        Some(t) => t,
                        None => 0,
                    }),
                    a_time: (match dosdate_spec(adate) {
                        Some(t) => t,
                        None => 0,
                    }),
                    short_name: utf8_lossy_of(short),
                    long_name: if long.len() > 0 {
                        utf16_lossy_of(long)
                    } else {
                        Seq::empty()
                    },
                    ext_size: encoded_ext_size(long) as u32,
                    ext_version: 3,
                },
            ),
        ),
{
    let raw = encode_file_bytes(file_size, fflags, mdate, cdate, adate, short, long);
    let n = encoded_len(short, long);
    let eo = encoded_ext_offset(short);
    let slen = short.len() as int;
    let llen = long.len() as int;
    assert(raw.len() == n);
    // Region bounds: bytes 0..14 header, 14..14+slen short name, one zero,
    // eo..eo+20 extension header and dates, eo+20..eo+20+2*llen long name,
    // two zero bytes, n-2..n the extension offset.
    assert(raw[0] == le16_bytes(n as u16)[0]);
    assert(raw[1] == le16_bytes(n as u16)[1]);
    lemma_le16_of_bytes(n as u16);
    assert(n as u16 as int == n);
    assert(le16(raw, 0) == n as u16);
    assert(raw[2] == 0x32);
    assert(0x32u8 & 0x70 == 0x30) by (bit_vector);
    assert(raw[4] == le32_bytes(file_size)[0]);
    assert(raw[5] == le32_bytes(file_size)[1]);
    assert(raw[6] == le32_bytes(file_size)[2]);
    assert(raw[7] == le32_bytes(file_size)[3]);
    lemma_le32_of_bytes(file_size);
    assert(le32(raw, 4) == file_size);
    assert(raw.subrange(8, 12) =~= mdate);
    assert(raw[12] == le16_bytes(fflags)[0]);
    assert(raw[13] == le16_bytes(fflags)[1]);
    lemma_le16_of_bytes(fflags);
    assert(le16(raw, 12) == fflags);
    assert(raw[n - 2] == le16_bytes(eo as u16)[0]);
    assert(raw[n - 1] == le16_bytes(eo as u16)[1]);
    lemma_le16_of_bytes(eo as u16);
    assert(le16(raw, n - 2) == eo as u16);
    // The short-name field runs from 14 to the byte before the extension.
    let field = raw.subrange(14, eo - 1);
    assert(field =~= short);
    lemma_zero_pos_of(field, slen);
    assert(crate::item::short_name_at(raw, eo) == utf8_lossy_of(short.subrange(0, slen)));
    assert(short.subrange(0, slen) =~= short);
    // The extension header.
    assert(raw[eo] == le16_bytes(encoded_ext_size(long) as u16)[0]);
    assert(raw[eo + 1] == le16_bytes(encoded_ext_size(long) as u16)[1]);
    lemma_le16_of_bytes(encoded_ext_size(long) as u16);
    assert(le16(raw, eo) == encoded_ext_size(long) as u16);
    assert(raw[eo + 2] == le16_bytes(3u16)[0]);
    assert(raw[eo + 3] == le16_bytes(3u16)[1]);
    lemma_le16_of_bytes(3u16);
    assert(le16(raw, eo + 2) == 3u16);
    let off = eo + 4;
    assert(raw[off] == le32_bytes(0xbeef0004u32)[0]);
    assert(raw[off + 1] == le32_bytes(0xbeef0004u32)[1]);
    assert(raw[off + 2] == le32_bytes(0xbeef0004u32)[2]);
    assert(raw[off + 3] == le32_bytes(0xbeef0004u32)[3]);
    lemma_le32_of_bytes(0xbeef0004u32);
    assert(le32(raw, off) == ext_signature());
    assert(raw.subrange(off + 4, off + 8) =~= cdate);
    assert(raw.subrange(off + 8, off + 12) =~= adate);
    // The long name: units from eo + 20 are the given units, a zero unit,
    // then the extension-offset word.
    let name_off = off + 16;
    assert(name_off == eo + 20);
    let units = utf16_units(raw, name_off);
    assert(raw.len() - name_off == 2 * llen + 4);
    assert(units.len() == llen + 2);
    assert forall|k: int| 0 <= k < llen implies units[k] == long[k] by {
        assert(raw[name_off + 2 * k] == utf16_bytes(long)[2 * k]);
        assert(raw[name_off + 2 * k + 1] == utf16_bytes(long)[2 * k + 1]);
        assert(utf16_bytes(long)[2 * k] == (long[k] & 0xff) as u8);
        assert(utf16_bytes(long)[2 * k + 1] == ((long[k] >> 8) & 0xff) as u8);
        lemma_le16_unit(long[k]);
    }
    assert(units[llen] == 0) by {
        assert(raw[name_off + 2 * llen] == 0);
        assert(raw[name_off + 2 * llen + 1] == 0);
        assert(0u16 | ((0u16) << 8) == 0) by (bit_vector);
    }
    assert forall|k: int| 0 <= k < llen implies #[trigger] units[k] != 0 by {
        assert(units[k] == long[k]);
    }
    lemma_zero_unit_pos_of(units, llen);
    assert(zero_unit_pos(units, 0) == llen);
    if llen > 0 {
        assert(units.subrange(0, llen) =~= long);
        assert(crate::item::long_name_at(raw, name_off) == utf16_lossy_of(long));
    } else {
        assert(crate::item::long_name_at(raw, name_off) =~= Seq::<char>::empty());
    }
    // Assemble: the decoder takes the file branch with a valid extension.
    assert(20 <= n <= raw.len());
    assert(15 <= eo <= n);
    assert(eo + 4 <= raw.len());
    assert(off + 12 <= raw.len());
    let f = decode_file_spec(raw);
    assert(f.file_size == file_size);
    assert(f.fflags == fflags);
    assert(f.ext_version == 3);
}

} // verus!
