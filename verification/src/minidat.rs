//! The usage-history collectors' shared shape: one record per observed
//! value, each collector tagged by a fixed identifier, together with the
//! pure parsing that the collectors' stores require — byte-to-text
//! conversion, device-path rewriting and the application-compatibility
//! cache layout.

use vstd::prelude::*;
use crate::item::le16;
use crate::item::le32;
use crate::item::read_le16;
use crate::item::read_le32;
use crate::strutil::utf16_lossy_of;
use crate::strutil::utf16_lossy;
use crate::strutil::replace_spec;
use crate::strutil::replace_all;
use crate::strutil::first_match_from;
use crate::strutil::lemma_first_match_from_valid;
use crate::strutil::find_from;
use crate::strutil::has_prefix;
use crate::strutil::starts_with_exec;
use crate::strutil::str_eq;
use crate::strutil::push_char;

verus! {

/// One usage-history record: a value and the identifier of the collector
/// that produced it.
#[derive(Debug, Clone)]
pub struct MiniDat {
    pub value: String,
    pub id: &'static str,
}

/// The description of one collector.
#[derive(Debug, Clone)]
pub struct MiniDatInfo {
    pub id: &'static str,
    pub name: &'static str,
    pub description: &'static str,
    pub stable: bool,
    pub filtering: bool,
}

/// A collector's record constructor.
pub trait MiniDatWrapper {
    fn new_instance(value: String) -> (r: MiniDat)
        ensures
            r.value@ == value@,
    ;
}

/// A collector: it gathers its records from its own store.
pub trait MiniDatEmployee<E> {
    fn run() -> Vec<E>;
}

pub struct SevenZip {}

pub struct WinRar {}

pub struct UserAssist {}

pub struct Radar {}

pub struct AppCompatCache {}

pub struct Bam {}

pub struct AppSwitched {}

pub struct ShellBag {}

pub struct SRUM {}

impl MiniDatWrapper for SevenZip {
    fn new_instance(value: String) -> (r: MiniDat) {
        MiniDat { value, id: "seven_zip" }
    }
}

impl MiniDatWrapper for WinRar {
    fn new_instance(value: String) -> (r: MiniDat) {
        MiniDat { value, id: "winrar" }
    }
}

impl MiniDatWrapper for UserAssist {
    fn new_instance(value: String) -> (r: MiniDat) {
        MiniDat { value, id: "user_assist" }
    }
}

impl MiniDatWrapper for Radar {
    fn new_instance(value: String) -> (r: MiniDat) {
        MiniDat { value, id: "radar" }
    }
}

impl MiniDatWrapper for AppCompatCache {
    fn new_instance(value: String) -> (r: MiniDat) {
        MiniDat { value, id: "app_compat_cache" }
    }
}

impl MiniDatWrapper for Bam {
    fn new_instance(value: String) -> (r: MiniDat) {
        MiniDat { value, id: "bam" }
    }
}

impl MiniDatWrapper for AppSwitched {
    fn new_instance(value: String) -> (r: MiniDat) {
        MiniDat { value, id: "app_switched" }
    }
}

impl MiniDatWrapper for ShellBag {
    fn new_instance(value: String) -> (r: MiniDat) {
        MiniDat { value, id: "shellbag" }
    }
}

impl MiniDatWrapper for SRUM {
    fn new_instance(value: String) -> (r: MiniDat) {
        MiniDat { value, id: "srum" }
    }
}

/// Copies a byte slice into an owned buffer.
pub fn bytes_to_vec_u8(bytes: &[u8]) -> (r: Vec<u8>)
    ensures
        r@ == bytes@,
{
    let n = bytes.len();
    let mut out: Vec<u8> = Vec::new();
    let mut i: usize = 0;
    while i < n
        invariant
            0 <= i <= n,
            n == bytes@.len(),
            out@ == bytes@.take(i as int),
        decreases n - i,
    {
        out.push(*vstd::slice::slice_index_get(bytes, i));
        proof {
            assert(bytes@.take(i + 1) =~= bytes@.take(i as int).push(bytes@[i as int]));
        }
        i = i + 1;
    }
    proof {
        assert(bytes@.take(n as int) =~= bytes@);
    }
    out
}

/// The 16-bit units of a byte string taken two by two, little endian, a
/// trailing lone byte dropped.
pub open spec fn pairs16(b: Seq<u8>) -> Seq<u16> {
    Seq::new((b.len() / 2) as nat, |i: int| le16(b, 2 * i))
}

/// Collects the byte pairs of a buffer as 16-bit units.
fn collect_pairs16(b: &[u8]) -> (r: Vec<u16>)
    ensures
        r@ == pairs16(b@),
{
    let len = b.len();
    let mut out: Vec<u16> = Vec::new();
    let mut i: usize = 0;
    while len - i >= 2
        invariant
            0 <= i <= len,
            i % 2 == 0,
            len == b@.len(),
            out@.len() == i / 2,
            forall|k: int| 0 <= k < i / 2 ==> out@[k] == le16(b@, 2 * k),
        decreases len - i,
    {
        let lo = *vstd::slice::slice_index_get(b, i);
        let hi = *vstd::slice::slice_index_get(b, i + 1);
        out.push((lo as u16) | ((hi as u16) << 8));
        i = i + 2;
    }
    proof {
        assert(out@ =~= pairs16(b@));
    }
    out
}

/// The text of a byte string read as 16-bit units, optionally with null
/// characters removed.
pub open spec fn bytes_text(b: Seq<u8>, remove_null_char: bool) -> Seq<char> {
    let s = utf16_lossy_of(pairs16(b));
    if remove_null_char {
        replace_spec(s, seq!['\0'], Seq::empty())
    } else {
        s
    }
}

/// Decodes a byte string as 16-bit-unit text, optionally dropping null
/// characters.
pub fn bytes_to_string(bytes: &[u8], remove_null_char: bool) -> (r: String)
    ensures
        r@ == bytes_text(bytes@, remove_null_char),
{
    let units = collect_pairs16(bytes);
    let s = utf16_lossy(units.as_slice());
    if remove_null_char {
        proof {
            reveal_strlit("\0");
            reveal_strlit("");
            assert("\0"@ =~= seq!['\0']);
            assert(""@ =~= Seq::<char>::empty());
        }
        replace_all(s.as_str(), "\0", "")
    } else {
        s
    }
}

/// One character lowered within the ASCII range.
pub open spec fn ascii_lower_char(c: char) -> char {
    let v = c as u32;
    if 65 <= v <= 90 {
        ((v + 32) as u8) as char
    } else {
        c
    }
}

/// A text lowered within the ASCII range, character by character.
pub open spec fn ascii_lower(s: Seq<char>) -> Seq<char> {
    Seq::new(s.len(), |i: int| ascii_lower_char(s[i]))
}

/// Lowers the ASCII letters of a text.
fn ascii_lower_exec(s: &str) -> (r: String)
    ensures
        r@ == ascii_lower(s@),
{
    let n = s.unicode_len();
    let mut out = String::new();
    let mut i: usize = 0;
    while i < n
        invariant
            0 <= i <= n,
            n == s@.len(),
            out@.len() == i,
            forall|j: int| 0 <= j < i ==> out@[j] == ascii_lower_char(s@[j]),
        decreases n - i,
    {
        let c = s.get_char(i);
        let v = c as u32;
        let mapped: char = if 65 <= v && v <= 90 {
            ((v + 32) as u8) as char
        } else {
            c
        };
        push_char(&mut out, mapped);
        i = i + 1;
    }
    proof {
        assert(out@ =~= ascii_lower(s@));
    }
    out
}

/// How a device-rooted path splits: `None` unless the path opens with a
/// separator, a segment that lowers to the device marker, and a segment
/// that lowers to something beginning with the volume marker; otherwise
/// the device prefix (separator, both segments) and the remainder after
/// the third separator.
pub open spec fn device_parse(s: Seq<char>) -> Option<(Seq<char>, Seq<char>)> {
    if s.len() == 0 || s[0] != '\\' {
        None
    } else {
        match first_match_from(s, seq!['\\'], 1) {
            None => None,
            Some(i1) => {
                let part1 = s.subrange(1, i1);
                let second = first_match_from(s, seq!['\\'], i1 + 1);
                let part2 = match second {
                    Some(i2) => s.subrange(i1 + 1, i2),
                    None => s.skip(i1 + 1),
                };
                let rest = match second {
                    Some(i2) => s.skip(i2 + 1),
                    None => Seq::<char>::empty(),
                };
                if ascii_lower(part1) == "device"@ && has_prefix(
                    ascii_lower(part2),
                    "harddiskvolume"@,
                ) {
                    Some((seq!['\\'] + part1 + seq!['\\'] + part2, rest))
                } else {
                    None
                }
            },
        }
    }
}

/// The device prefix of a device-rooted path, for the caller to resolve to
/// a drive letter.
pub fn device_volume_path(path: &str) -> (r: Option<String>)
    ensures
        match r {
            Some(s) => device_parse(path@) matches Some(p) && s@ == p.0,
            None => device_parse(path@) is None,
        },
{
    let n = path.unicode_len();
    if n == 0 || path.get_char(0) != '\\' {
        return None;
    }
    let i1 = match find_from(path, "\\", 1) {
        Some(i) => i,
        None => {
            proof {
                reveal_strlit("\\");
                assert("\\"@ =~= seq!['\\']);
            }
            return None;
        },
    };
    proof {
        reveal_strlit("\\");
        assert("\\"@ =~= seq!['\\']);
        lemma_first_match_from_valid(path@, "\\"@, 1);
    }
    let part1 = path.substring_char(1, i1);
    let second = find_from(path, "\\", i1 + 1);
    let part2 = match second {
        Some(i2) => {
            proof {
                lemma_first_match_from_valid(path@, "\\"@, i1 + 1);
            }
            path.substring_char(i1 + 1, i2)
        },
        None => path.substring_char(i1 + 1, n),
    };
    proof {
        assert(path@.subrange(i1 + 1, n as int) =~= path@.skip(i1 + 1));
    }
    let low1 = ascii_lower_exec(part1);
    let low2 = ascii_lower_exec(part2);
    proof {
        reveal_strlit("device");
        reveal_strlit("harddiskvolume");
    }
    if str_eq(low1.as_str(), "device") && starts_with_exec(low2.as_str(), "harddiskvolume") {
        let mut out = String::new();
        push_char(&mut out, '\\');
        out.append(part1);
        push_char(&mut out, '\\');
        out.append(part2);
        proof {
            assert(out@ =~= seq!['\\'] + path@.subrange(1, i1 as int) + seq!['\\'] + (
            match first_match_from(path@, seq!['\\'], i1 + 1) {
                Some(i2) => path@.subrange(i1 + 1, i2),
                None => path@.skip(i1 + 1),
            }));
        }
        Some(out)
    } else {
        None
    }
}

/// Rewrites a device-rooted path to its drive-letter form, when the caller
/// resolved the device prefix to a letter; any other path, or a missing
/// letter, stays as it is.
pub fn replace_device_path_with_drive_letter(path: &str, drive_letter: Option<&str>) -> (r:
    String)
    ensures
        r@ == (match (device_parse(path@), drive_letter) {
            (Some(p), Some(l)) => l@ + seq!['\\'] + p.1,
            _ => path@,
        }),
{
    let parsed = device_volume_path(path);
    match (parsed, drive_letter) {
        (Some(_), Some(letter)) => {
            let n = path.unicode_len();
            proof {
                reveal_strlit("\\");
                assert("\\"@ =~= seq!['\\']);
                lemma_first_match_from_valid(path@, "\\"@, 1);
            }
            let i1 = match find_from(path, "\\", 1) {
                Some(i) => i,
                None => {
                    return string_of(path);
                },
            };
            let second = find_from(path, "\\", i1 + 1);
            let rest = match second {
                Some(i2) => {
                    proof {
                        lemma_first_match_from_valid(path@, "\\"@, i1 + 1);
                    }
                    path.substring_char(i2 + 1, n)
                },
                None => "",
            };
            proof {
                match first_match_from(path@, seq!['\\'], i1 + 1) {
                    Some(i2) => {
                        assert(path@.subrange(i2 + 1, n as int) =~= path@.skip(i2 + 1));
                    },
                    None => {
                        reveal_strlit("");
                        assert(""@ =~= Seq::<char>::empty());
                    },
                }
            }
            let mut out = String::new();
            out.append(letter);
            push_char(&mut out, '\\');
            out.append(rest);
            proof {
                assert(out@ =~= letter@ + seq!['\\'] + (device_parse(path@)->0).1);
            }
            out
        },
        _ => string_of(path),
    }
}

/// One cache path: the entry's path bytes read as 16-bit units, with every
/// raw-device marker removed.
pub open spec fn acc_path(b: Seq<u8>, off: int, size: int) -> Seq<char> {
    replace_spec(
        utf16_lossy_of(pairs16(b.subrange(off, off + size))),
        seq!['\\', '?', '?', '\\'],
        Seq::empty(),
    )
}

/// The cache paths from `off` on.  Each record holds two skipped words, a
/// flags word, a path length, the path bytes, a timestamp, a data length
/// and that much data; the first read that does not fit inside the buffer
/// ends the run, as does a data length too large for any real buffer.
pub open spec fn acc_entries(b: Seq<u8>, off: int) -> Seq<Seq<char>>
    decreases b.len() - off,
{
    if off < 0 || off >= b.len() || off + 4 > b.len() {
        Seq::empty()
    } else if off + 12 > b.len() {
        Seq::empty()
    } else if off + 14 > b.len() {
        Seq::empty()
    } else {
        let psize = le16(b, off + 12) as int;
        if off + 14 + psize > b.len() {
            Seq::empty()
        } else {
            let path = acc_path(b, off + 14, psize);
            let o5 = off + 14 + psize;
            seq![path] + (if o5 + 8 > b.len() {
                Seq::empty()
            } else if o5 + 12 > b.len() {
                Seq::empty()
            } else {
                let ds = le32(b, o5 + 8);
                if ds >= 0x80000000 {
                    Seq::empty()
                } else if o5 + 12 + ds > b.len() {
                    Seq::empty()
                } else {
                    acc_entries(b, o5 + 12 + ds)
                }
            })
        }
    }
}

/// What the cache parser yields: nothing for a buffer too small to hold
/// the record offset or whose offset word is out of range, else the run of
/// entry paths from the declared offset.
pub open spec fn acc_spec(b: Seq<u8>) -> Seq<Seq<char>> {
    if b.len() < 4 {
        Seq::empty()
    } else {
        let start = le32(b, 0);
        if start >= 0x80000000 {
            Seq::empty()
        } else {
            acc_entries(b, start as int)
        }
    }
}

/// The texts of a string list.
pub open spec fn str_views(s: Seq<String>) -> Seq<Seq<char>> {
    Seq::new(s.len(), |i: int| s[i]@)
}

/// Parses the application-compatibility cache: the 32-bit word at the
/// start names the offset of the records, and each record contributes the
/// text of its path field.  Every read is bounded by the buffer; the first
/// that does not fit ends the run.
pub fn parse_app_compat_cache(data: &Vec<u8>) -> (r: Vec<String>)
    requires
        data@.len() + 64 <= usize::MAX,
    ensures
        str_views(r@) == acc_spec(data@),
{
    let mut out: Vec<String> = Vec::new();
    let blen = data.len();
    if blen < 4 {
        proof {
            assert(str_views(out@) =~= acc_spec(data@));
        }
        return out;
    }
    let start = read_le32(data, 0);
    if start >= 0x8000_0000 {
        proof {
            assert(str_views(out@) =~= acc_spec(data@));
        }
        return out;
    }
    let mut off = start as usize;
    proof {
        assert(str_views(out@) + acc_entries(data@, off as int) =~= acc_spec(data@));
    }
    loop
        invariant_except_break
            blen == data@.len(),
            blen + 64 <= usize::MAX,
            str_views(out@) + acc_entries(data@, off as int) == acc_spec(data@),
        ensures
            str_views(out@) == acc_spec(data@),
        decreases blen - off,
    {
        if off >= blen || blen - off < 14 {
            proof {
                assert(str_views(out@) + acc_entries(data@, off as int) =~= str_views(out@));
            }
            break ;
        }
        let psize = read_le16(data, off + 12) as usize;
        if blen - (off + 14) < psize {
            proof {
                assert(str_views(out@) + acc_entries(data@, off as int) =~= str_views(out@));
            }
            break ;
        }
        let pbytes = vstd::slice::slice_subrange(data.as_slice(), off + 14, off + 14 + psize);
        let units = collect_pairs16(pbytes);
        let raw = utf16_lossy(units.as_slice());
        proof {
            reveal_strlit("\\??\\");
            reveal_strlit("");
            assert("\\??\\"@ =~= seq!['\\', '?', '?', '\\']);
            assert(""@ =~= Seq::<char>::empty());
        }
        let path = replace_all(raw.as_str(), "\\??\\", "");
        let ghost prev = out@;
        let ghost at = off as int;
        out.push(path);
        proof {
            assert(str_views(out@) =~= str_views(prev) + seq![
                acc_path(data@, at + 14, psize as int),
            ]);
        }
        let o5 = off + 14 + psize;
        if blen - o5 < 12 {
            proof {
                assert(str_views(out@) =~= str_views(prev) + acc_entries(data@, at));
            }
            break ;
        }
        let ds = read_le32(data, o5 + 8);
        if ds >= 0x8000_0000 {
            proof {
                assert(str_views(out@) =~= str_views(prev) + acc_entries(data@, at));
            }
            break ;
        }
        let dsu = ds as usize;
        if blen - (o5 + 12) < dsu {
            proof {
                assert(str_views(out@) =~= str_views(prev) + acc_entries(data@, at));
            }
            break ;
        }
        proof {
            assert(str_views(out@) + acc_entries(data@, o5 + 12 + dsu) =~= str_views(prev)
                + acc_entries(data@, at));
        }
        off = o5 + 12 + dsu;
    }
    out
}

/// Copies a string slice into an owned text.
fn string_of(s: &str) -> (r: String)
    ensures
        r@ == s@,
{
    let mut out = String::new();
    out.append(s);
    out
}

} // verus!
