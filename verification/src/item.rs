//! The shell-item decoder: one binary record, read from the store, becomes a
//! typed shell item (folder, volume, file, network location or unknown).
//!
//! A record opens with its declared size as a little-endian 16-bit word; a
//! record is decodable only when that size is at least twenty bytes and does
//! not exceed the bytes actually present.  A type byte at offset 2 selects
//! the shape.  File records may carry a trailing, versioned extension block
//! holding two more timestamps and the long name; any malformed part of the
//! extension degrades the record to its base fields instead of failing it.

use vstd::prelude::*;
use crate::date::dosdate_spec;
use crate::date::dosdate;
use crate::guid::guid_u128_of;
use crate::guid::guid_from_slice_le;
use crate::strutil::utf8_lossy_of;
use crate::strutil::utf16_lossy_of;
use crate::strutil::utf8_lossy;
use crate::strutil::utf16_lossy;

verus! {

/// A folder item: a well-known system location selected by an id byte.
#[derive(Clone, Debug)]
pub struct ShellFolderItem {
    pub id: u8,
    pub guid: u128,
    pub name: String,
}

/// A volume item: a short drive label.
#[derive(Clone, Debug)]
pub struct ShellVolumeItem {
    pub name: String,
}

/// A file (or sub-folder) item with its three timestamps and both names.
#[derive(Clone, Debug)]
pub struct ShellFileItem {
    pub file_size: u32,
    pub m_time: i64,
    pub c_time: i64,
    pub a_time: i64,
    pub fflags: u16,
    pub short_name: String,
    pub long_name: String,
    pub ext_size: u32,
    pub ext_version: u32,
}

/// A network location item.
#[derive(Clone, Debug)]
pub struct ShellNetworkItem {
    pub guid: Option<u128>,
    pub flags: u32,
    pub location: String,
    pub description: String,
    pub comment: String,
}

/// One decoded shell-bag record.
#[derive(Clone, Debug)]
pub enum ShellItem {
    Folder(ShellFolderItem),
    Volume(ShellVolumeItem),
    File(ShellFileItem),
    Network(ShellNetworkItem),
    Unknown(u32),
}

/// Mathematical image of a folder item.
pub ghost struct ShellFolderItemV {
    pub id: u8,
    pub guid: u128,
    pub name: Seq<char>,
}

pub ghost struct ShellVolumeItemV {
    pub name: Seq<char>,
}

pub ghost struct ShellFileItemV {
    pub file_size: u32,
    pub m_time: i64,
    pub c_time: i64,
    pub a_time: i64,
    pub fflags: u16,
    pub short_name: Seq<char>,
    pub long_name: Seq<char>,
    pub ext_size: u32,
    pub ext_version: u32,
}

pub ghost struct ShellNetworkItemV {
    pub guid: Option<u128>,
    pub flags: u32,
    pub location: Seq<char>,
    pub description: Seq<char>,
    pub comment: Seq<char>,
}

pub ghost enum ShellItemV {
    Folder(ShellFolderItemV),
    Volume(ShellVolumeItemV),
    File(ShellFileItemV),
    Network(ShellNetworkItemV),
    Unknown(u32),
}

impl View for ShellFolderItem {
    type V = ShellFolderItemV;

    open spec fn view(&self) -> ShellFolderItemV {
        ShellFolderItemV { id: self.id, guid: self.guid, name: self.name@ }
    }
}

impl View for ShellVolumeItem {
    type V = ShellVolumeItemV;

    open spec fn view(&self) -> ShellVolumeItemV {
        ShellVolumeItemV { name: self.name@ }
    }
}

impl View for ShellFileItem {
    type V = ShellFileItemV;

    open spec fn view(&self) -> ShellFileItemV {
        ShellFileItemV {
            file_size: self.file_size,
            m_time: self.m_time,
            c_time: self.c_time,
            a_time: self.a_time,
            fflags: self.fflags,
            short_name: self.short_name@,
            long_name: self.long_name@,
            ext_size: self.ext_size,
            ext_version: self.ext_version,
        }
    }
}

impl View for ShellNetworkItem {
    type V = ShellNetworkItemV;

    open spec fn view(&self) -> ShellNetworkItemV {
        ShellNetworkItemV {
            guid: self.guid,
            flags: self.flags,
            location: self.location@,
            description: self.description@,
            comment: self.comment@,
        }
    }
}

impl View for ShellItem {
    type V = ShellItemV;

    open spec fn view(&self) -> ShellItemV {
        match self {
            ShellItem::Folder(v) => ShellItemV::Folder(v@),
            ShellItem::Volume(v) => ShellItemV::Volume(v@),
            ShellItem::File(v) => ShellItemV::File(v@),
            ShellItem::Network(v) => ShellItemV::Network(v@),
            ShellItem::Unknown(t) => ShellItemV::Unknown(*t),
        }
    }
}

/// Little-endian 16-bit word at `off`.
pub open spec fn le16(b: Seq<u8>, off: int) -> u16 {
    (b[off] as u16) | ((b[off + 1] as u16) << 8)
}

/// Little-endian 32-bit word at `off`.
pub open spec fn le32(b: Seq<u8>, off: int) -> u32 {
    (b[off] as u32) | ((b[off + 1] as u32) << 8) | ((b[off + 2] as u32) << 16) | ((b[off
        + 3] as u32) << 24)
}

/// The position of the first zero byte at or after `i`, or the length when
/// there is none.
pub open spec fn zero_pos(b: Seq<u8>, i: int) -> int
    decreases b.len() - i,
{
    if i < 0 || i >= b.len() {
        b.len() as int
    } else if b[i] == 0 {
        i
    } else {
        zero_pos(b, i + 1)
    }
}

/// A null-terminated text field read from `start`: its decoded characters
/// and the offset just past its terminator.  A missing terminator, or one
/// in first position, leaves the field empty and the offset unchanged.
pub open spec fn cstr_at(b: Seq<u8>, start: int) -> (Seq<char>, int) {
    let e = zero_pos(b, start);
    if e < b.len() && e > start {
        (utf8_lossy_of(b.subrange(start, e)), e + 1)
    } else {
        (Seq::empty(), start)
    }
}

/// The 16-bit units of the byte tail from `off`, little endian, a trailing
/// lone byte standing as its own unit.
pub open spec fn utf16_units(b: Seq<u8>, off: int) -> Seq<u16> {
    Seq::new(((b.len() - off + 1) / 2) as nat, |i: int| if off + 2 * i + 1 < b.len() {
        le16(b, off + 2 * i)
    } else {
        b[off + 2 * i] as u16
    })
}

/// The position of the first zero unit, or the length when there is none.
pub open spec fn zero_unit_pos(u: Seq<u16>, i: int) -> int
    decreases u.len() - i,
{
    if i < 0 || i >= u.len() {
        u.len() as int
    } else if u[i] == 0 {
        i
    } else {
        zero_unit_pos(u, i + 1)
    }
}

/// The display label of a well-known folder id; ids outside the table give
/// the empty name.
pub open spec fn folder_name_of(id: u8) -> Seq<char> {
    if id == 0x00 { "INTERNET_EXPLORER"@ }
    else if id == 0x42 { "LIBRARIES"@ }
    else if id == 0x44 { "USERS"@ }
    else if id == 0x48 { "MY_DOCUMENTS"@ }
    else if id == 0x50 { "MY_COMPUTER"@ }
    else if id == 0x58 { "NETWORK"@ }
    else if id == 0x60 { "RECYCLE_BIN"@ }
    else if id == 0x68 { "INTERNET_EXPLORER"@ }
    else if id == 0x70 { "UNKNOWN"@ }
    else if id == 0x80 { "MY_GAMES"@ }
    else { Seq::empty() }
}

/// A timestamp decoded from four packed bytes, zero when not constructible.
pub open spec fn time_or_zero(b: Seq<u8>, off: int) -> i64 {
    match dosdate_spec(b.subrange(off, off + 4)) {
        Some(t) => t,
        None => 0,
    }
}

/// The extension signature that versioned file extensions must open with.
pub open spec fn ext_signature() -> u32 {
    0xbeef0004u32
}

/// The decoded file record.  The extension offset is read from the two bytes
/// just before the declared size; an offset of zero, past the declared size,
/// or too small to leave room for the short name withholds the extension and
/// yields the base fields alone.  Within the extension every read is bounded
/// by the bytes present; the first read that does not fit ends extension
/// decoding with the fields gathered so far.
pub open spec fn decode_file_spec(raw: Seq<u8>) -> ShellFileItemV {
    let entry_size = le16(raw, 0) as int;
    let base = ShellFileItemV {
        file_size: le32(raw, 4),
        m_time: time_or_zero(raw, 8),
        c_time: 0,
        a_time: 0,
        fflags: le16(raw, 12),
        short_name: Seq::empty(),
        long_name: Seq::empty(),
        ext_size: 0,
        ext_version: 0,
    };
    let ext_offset = le16(raw, entry_size - 2) as int;
    if ext_offset < 15 || ext_offset > entry_size {
        base
    } else {
        let short = short_name_at(raw, ext_offset);
        if ext_offset + 4 > raw.len() {
            ShellFileItemV { short_name: short, ..base }
        } else {
            let ext_size = le16(raw, ext_offset) as u32;
            let ext_version = le16(raw, ext_offset + 2) as u32;
            let with_ext = ShellFileItemV { short_name: short, ext_size, ext_version, ..base };
            if ext_version >= 3 {
                decode_file_versioned(raw, ext_offset + 4, with_ext)
            } else {
                with_ext
            }
        }
    }
}

/// The short name: the null-terminated slice between offset 14 and the byte
/// before the extension offset.
pub open spec fn short_name_at(raw: Seq<u8>, ext_offset: int) -> Seq<char> {
    let field = raw.subrange(14, ext_offset - 1);
    let e = zero_cut(field);
    utf8_lossy_of(field.subrange(0, e))
}

/// The length of the prefix before the first zero byte.
pub open spec fn zero_cut(b: Seq<u8>) -> int {
    zero_pos(b, 0)
}

/// The versioned tail of a file extension: signature, create and access
/// dates, a version-gated list of fixed skips, then the long name in 16-bit
/// units up to the first zero unit.
pub open spec fn decode_file_versioned(raw: Seq<u8>, off: int, item: ShellFileItemV)
    -> ShellFileItemV {
    if off + 4 > raw.len() || le32(raw, off) != ext_signature() {
        item
    } else if off + 12 > raw.len() {
        item
    } else {
        let c_time = time_or_zero(raw, off + 4);
        let a_time = time_or_zero(raw, off + 8);
        let with_times = ShellFileItemV { c_time, a_time, ..item };
        let v = item.ext_version as int;
        let name_off = off + 14 + (if v >= 7 { 18int } else { 0 }) + 2 + (if v >= 9 { 4int } else {
            0
        }) + (if v >= 8 { 4int } else { 0 });
        ShellFileItemV { long_name: long_name_at(raw, name_off), ..with_times }
    }
}

/// The long name: 16-bit units from `off` to the record's end, cut at the
/// first zero unit; a zero in first position, or none at all, leaves it
/// empty.
pub open spec fn long_name_at(raw: Seq<u8>, off: int) -> Seq<char> {
    if off > raw.len() {
        Seq::empty()
    } else {
        let units = utf16_units(raw, off);
        let pos = zero_unit_pos(units, 0);
        if pos < units.len() && pos > 0 {
            utf16_lossy_of(units.subrange(0, pos))
        } else {
            Seq::empty()
        }
    }
}

/// The decoded network record: a 16-byte identifier alone when the low type
/// nibble is `0x0d`, otherwise a flags byte and up to three null-terminated
/// text fields, the second and third gated by flag bits.
pub open spec fn decode_network_spec(raw: Seq<u8>) -> ShellNetworkItemV {
    let t = raw[2];
    if t & 0x0f == 0x0d {
        ShellNetworkItemV {
            guid: Some(guid_u128_of(raw.subrange(3, 19))),
            flags: 0,
            location: Seq::empty(),
            description: Seq::empty(),
            comment: Seq::empty(),
        }
    } else {
        let flags = raw[4] as u32;
        let loc = cstr_at(raw, 5);
        let desc = if flags & 0x80 != 0 {
            cstr_at(raw, loc.1)
        } else {
            (Seq::<char>::empty(), loc.1)
        };
        let comm = if flags & 0x40 != 0 {
            cstr_at(raw, desc.1)
        } else {
            (Seq::<char>::empty(), desc.1)
        };
        ShellNetworkItemV {
            guid: None,
            flags,
            location: loc.0,
            description: desc.0,
            comment: comm.0,
        }
    }
}

/// What decoding an arbitrary byte record yields: `None` when the record is
/// shorter than two bytes, declares a size below twenty, or declares a size
/// beyond the bytes present; otherwise the item selected by the type byte.
pub open spec fn decode_item_spec(raw: Seq<u8>) -> Option<ShellItemV> {
    if raw.len() < 2 {
        None
    } else {
        let entry_size = le16(raw, 0) as int;
        if entry_size < 20 || entry_size > raw.len() {
            None
        } else {
            let t = raw[2];
            if t & 0x70 == 0x30 {
                Some(ShellItemV::File(decode_file_spec(raw)))
            } else if t & 0x70 == 0x40 {
                Some(ShellItemV::Network(decode_network_spec(raw)))
            } else if t == 0x1f {
                Some(
                    ShellItemV::Folder(
                        ShellFolderItemV {
                            id: raw[3],
                            guid: guid_u128_of(raw.subrange(4, 20)),
                            name: folder_name_of(raw[3]),
                        },
                    ),
                )
            } else if t == 0x2f {
                Some(ShellItemV::Volume(ShellVolumeItemV { name: utf8_lossy_of(raw.subrange(3, 6)) }))
            } else {
                Some(ShellItemV::Unknown(t as u32))
            }
        }
    }
}

/// Reads the little-endian 16-bit word at `off`.
pub fn read_le16(raw: &Vec<u8>, off: usize) -> (r: u16)
    requires
        off + 2 <= raw@.len(),
    ensures
        r == le16(raw@, off as int),
{
    let _bound = raw.len();
    (raw[off] as u16) | ((raw[off + 1] as u16) << 8)
}

/// Reads the little-endian 32-bit word at `off`.
pub fn read_le32(raw: &Vec<u8>, off: usize) -> (r: u32)
    requires
        off + 4 <= raw@.len(),
    ensures
        r == le32(raw@, off as int),
{
    let _bound = raw.len();
    (raw[off] as u32) | ((raw[off + 1] as u32) << 8) | ((raw[off + 2] as u32) << 16) | ((raw[off
        + 3] as u32) << 24)
}

/// Finds the first zero byte at or after `start`.
fn zero_pos_exec(b: &[u8], start: usize) -> (r: usize)
    ensures
        r == zero_pos(b@, start as int),
        r <= b@.len(),
{
    let len = b.len();
    if start >= len {
        return len;
    }
    let mut i: usize = start;
    while i < len
        invariant
            start <= i <= len,
            len == b@.len(),
            zero_pos(b@, start as int) == zero_pos(b@, i as int),
        decreases len - i,
    {
        if *vstd::slice::slice_index_get(b, i) == 0 {
            return i;
        }
        i = i + 1;
    }
    len
}

/// Copies the four bytes at `off` and decodes them as a packed date,
/// yielding zero when the date is not constructible.
fn read_time_or_zero(raw: &Vec<u8>, off: usize) -> (r: i64)
    requires
        off + 4 <= raw@.len(),
    ensures
        r == time_or_zero(raw@, off as int),
{
    let _bound = raw.len();
    let sub = vstd::slice::slice_subrange(raw.as_slice(), off, off + 4);
    match dosdate(sub) {
        Some(t) => t,
        None => 0,
    }
}

/// Reads a null-terminated text field from `start`, returning the decoded
/// text and the offset just past the terminator; a missing or immediate
/// terminator leaves the text empty and the offset unchanged.
fn read_cstr(raw: &Vec<u8>, start: usize) -> (r: (String, usize))
    ensures
        r.0@ == cstr_at(raw@, start as int).0,
        r.1 == cstr_at(raw@, start as int).1,
        r.1 <= raw@.len() || r.1 == start,
{
    let e = zero_pos_exec(raw.as_slice(), start);
    if e < raw.len() && e > start {
        let field = vstd::slice::slice_subrange(raw.as_slice(), start, e);
        (utf8_lossy(field), e + 1)
    } else {
        (String::new(), start)
    }
}

/// Collects the 16-bit units of the byte tail from `off`.
fn collect_utf16(raw: &Vec<u8>, off: usize) -> (r: Vec<u16>)
    requires
        off <= raw@.len(),
    ensures
        r@ == utf16_units(raw@, off as int),
{
    let len = raw.len();
    let mut units: Vec<u16> = Vec::new();
    let mut i: usize = off;
    while i < len
        invariant
            off <= i <= len,
            len == raw@.len(),
            (i - off) % 2 == 0,
            units@.len() == (i - off) / 2,
            forall|k: int|
                0 <= k < units@.len() ==> units@[k] == utf16_units(raw@, off as int)[k],
        decreases len - i,
    {
        if i + 1 < len {
            units.push(read_le16(raw, i));
            i = i + 2;
        } else {
            units.push(raw[i] as u16);
            proof {
                assert(units@ =~= utf16_units(raw@, off as int));
            }
            return units;
        }
    }
    proof {
        assert(units@ =~= utf16_units(raw@, off as int));
    }
    units
}

/// Finds the first zero unit.
fn zero_unit_pos_exec(u: &Vec<u16>) -> (r: usize)
    ensures
        r == zero_unit_pos(u@, 0),
        r <= u@.len(),
{
    let len = u.len();
    let mut i: usize = 0;
    while i < len
        invariant
            0 <= i <= len,
            len == u@.len(),
            zero_unit_pos(u@, 0) == zero_unit_pos(u@, i as int),
        decreases len - i,
    {
        if u[i] == 0 {
            return i;
        }
        i = i + 1;
    }
    len
}

/// Reads the short name: the null-terminated slice between offset 14 and
/// the byte before the extension offset.
fn read_short_name(raw: &Vec<u8>, ext_offset: usize) -> (r: String)
    requires
        15 <= ext_offset,
        ext_offset <= raw@.len() + 1,
    ensures
        r@ == short_name_at(raw@, ext_offset as int),
{
    let field = vstd::slice::slice_subrange(raw.as_slice(), 14, ext_offset - 1);
    let e = zero_pos_exec(field, 0);
    let cut = vstd::slice::slice_subrange(field, 0, e);
    utf8_lossy(cut)
}

/// Reads the long name: units from `off` to the record's end, cut at the
/// first zero unit.
fn read_long_name(raw: &Vec<u8>, off: usize) -> (r: String)
    ensures
        r@ == long_name_at(raw@, off as int),
{
    if off > raw.len() {
        return String::new();
    }
    let units = collect_utf16(raw, off);
    let pos = zero_unit_pos_exec(&units);
    if pos < units.len() && pos > 0 {
        let cut = vstd::slice::slice_subrange(units.as_slice(), 0, pos);
        utf16_lossy(cut)
    } else {
        String::new()
    }
}

/// Decodes one binary record into a typed shell item.  Yields `None` when
/// the record is shorter than two bytes or its declared size is below
/// twenty or beyond the bytes present; never panics on any input.  The
/// route is the store path the record came from; it takes no part in the
/// decoding itself.
pub fn parse_node_value(node_value: &Vec<u8>, element_route: &Vec<u32>) -> (r: Option<ShellItem>)
    ensures
        (r is None) == (decode_item_spec(node_value@) is None),
        r matches Some(item) ==> decode_item_spec(node_value@) == Some(item@),
{
    let _ = element_route;
    let raw = node_value;
    let len = raw.len();
    if len < 2 {
        return None;
    }
    let entry_size = read_le16(raw, 0) as usize;
    if entry_size < 20 || entry_size > len {
        return None;
    }
    let t = raw[2];
    if t & 0x70 == 0x30 {
        let file_size = read_le32(raw, 4);
        let m_time = read_time_or_zero(raw, 8);
        let fflags = read_le16(raw, 12);
        let base = ShellFileItem {
            file_size,
            m_time,
            c_time: 0,
            a_time: 0,
            fflags,
            short_name: String::new(),
            long_name: String::new(),
            ext_size: 0,
            ext_version: 0,
        };
        let ext_offset = read_le16(raw, entry_size - 2) as usize;
        if ext_offset < 15 || ext_offset > entry_size {
            return Some(ShellItem::File(base));
        }
        let short_name = read_short_name(raw, ext_offset);
        if ext_offset + 4 > len {
            return Some(ShellItem::File(ShellFileItem { short_name, ..base }));
        }
        let ext_size = read_le16(raw, ext_offset) as u32;
        let ext_version = read_le16(raw, ext_offset + 2) as u32;
        let item = ShellFileItem { short_name, ext_size, ext_version, ..base };
        if ext_version < 3 {
            return Some(ShellItem::File(item));
        }
        let off = ext_offset + 4;
        if off + 4 > len || read_le32(raw, off) != 0xbeef0004 {
            return Some(ShellItem::File(item));
        }
        if off + 12 > len {
            return Some(ShellItem::File(item));
        }
        let c_time = read_time_or_zero(raw, off + 4);
        let a_time = read_time_or_zero(raw, off + 8);
        let skip7: usize = if ext_version >= 7 { 18 } else { 0 };
        let skip9: usize = if ext_version >= 9 { 4 } else { 0 };
        let skip8: usize = if ext_version >= 8 { 4 } else { 0 };
        let name_off = off + 14 + skip7 + 2 + skip9 + skip8;
        let long_name = read_long_name(raw, name_off);
        return Some(ShellItem::File(ShellFileItem { c_time, a_time, long_name, ..item }));
    }
    if t & 0x70 == 0x40 {
        if t & 0x0f == 0x0d {
            let gsub = vstd::slice::slice_subrange(raw.as_slice(), 3, 19);
            let guid = guid_from_slice_le(gsub);
            return Some(
                ShellItem::Network(
                    ShellNetworkItem {
                        guid: Some(guid),
                        flags: 0,
                        location: String::new(),
                        description: String::new(),
                        comment: String::new(),
                    },
                ),
            );
        }
        let flags = raw[4] as u32;
        let (location, off1) = read_cstr(raw, 5);
        let (description, off2) = if flags & 0x80 != 0 {
            read_cstr(raw, off1)
        } else {
            (String::new(), off1)
        };
        let (comment, _off3) = if flags & 0x40 != 0 {
            read_cstr(raw, off2)
        } else {
            (String::new(), off2)
        };
        return Some(
            ShellItem::Network(ShellNetworkItem { guid: None, flags, location, description, comment }),
        );
    }
    if t == 0x1f {
        let gsub = vstd::slice::slice_subrange(raw.as_slice(), 4, 20);
        let guid = guid_from_slice_le(gsub);
        let id = raw[3];
        let name = folder_name_exec(id);
        return Some(ShellItem::Folder(ShellFolderItem { id, guid, name }));
    }
    if t == 0x2f {
        let nsub = vstd::slice::slice_subrange(raw.as_slice(), 3, 6);
        let name = utf8_lossy(nsub);
        return Some(ShellItem::Volume(ShellVolumeItem { name }));
    }
    Some(ShellItem::Unknown(t as u32))
}

/// The display label of a well-known folder id.
fn folder_name_exec(id: u8) -> (r: String)
    ensures
        r@ == folder_name_of(id),
{
    let lit: &str = if id == 0x00 { "INTERNET_EXPLORER" }
    else if id == 0x42 { "LIBRARIES" }
    else if id == 0x44 { "USERS" }
    else if id == 0x48 { "MY_DOCUMENTS" }
    else if id == 0x50 { "MY_COMPUTER" }
    else if id == 0x58 { "NETWORK" }
    else if id == 0x60 { "RECYCLE_BIN" }
    else if id == 0x68 { "INTERNET_EXPLORER" }
    else if id == 0x70 { "UNKNOWN" }
    else if id == 0x80 { "MY_GAMES" }
    else { "" };
    let mut s = String::new();
    s.append(lit);
    proof {
        if !(id == 0x00 || id == 0x42 || id == 0x44 || id == 0x48 || id == 0x50 || id == 0x58
            || id == 0x60 || id == 0x68 || id == 0x70 || id == 0x80) {
            reveal_strlit("");
            assert(s@ =~= folder_name_of(id));
        }
    }
    s
}

/// Records shorter than twenty bytes, or whose declared size does not fit
/// inside the bytes present, never decode.
pub proof fn lemma_truncated_record_undecodable(raw: Seq<u8>)
    requires
        raw.len() < 20 || le16(raw, 0) < 20 || le16(raw, 0) > raw.len(),
    ensures
        decode_item_spec(raw) is None,
{
}

} // verus!
