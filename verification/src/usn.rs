//! Volumes and change-journal records: the plain descriptions the journal
//! reader yields, and the rendering of a change reason's flag bits.

use vstd::prelude::*;
use crate::strutil::push_char;

verus! {

/// What a volume is for the scan: the system volume, or one with the
/// journaled file system.
#[derive(Debug, Clone, Copy)]
pub enum Flag {
    SYSTEM,
    NTFS,
}

/// One volume: its root path, its space figures and its flags.
#[derive(Debug, Clone)]
pub struct Volume {
    pub path: String,
    pub free_space: u64,
    pub available_space: u64,
    pub total_space: u64,
    pub flags: Vec<Flag>,
}

impl Volume {
    /// Describes a volume from the figures and flags the caller queried.
    pub fn new(path: String, free_space: u64, available_space: u64, total_space: u64, flags: Vec<
        Flag,
    >) -> (r: Volume)
        ensures
            r.path@ == path@,
            r.free_space == free_space,
            r.available_space == available_space,
            r.total_space == total_space,
            r.flags@ == flags@,
    {
        Volume { path, free_space, available_space, total_space, flags }
    }
}

/// The journal record layout in use.
#[derive(Debug, Clone, Copy)]
pub enum Version {
    _2,
    _3,
}

/// One journal entry resolved to a file: its name, its path when the file
/// could still be opened, its timestamp and the text of its change reason.
#[derive(Debug, Clone)]
pub struct FileRecord {
    pub name: String,
    pub path: Option<String>,
    pub timestamp: i64,
    pub reason: String,
}

/// One named reason bit, rendered when set.
pub open spec fn reason_part(r: u32, bit: u32, name: Seq<char>) -> Seq<char> {
    if r & bit != 0 {
        name + seq![' ']
    } else {
        Seq::empty()
    }
}

/// The text of a change reason: the name of every set flag bit, each
/// followed by a space, in the fixed order of the flag table.
pub open spec fn reason_str_spec(r: u32) -> Seq<char> {
    reason_part(r, 0x8000, "USN_REASON_BASIC_INFO_CHANGE"@) + reason_part(
        r,
        0x80000000,
        "USN_REASON_CLOSE"@,
    ) + reason_part(r, 0x20000, "USN_REASON_COMPRESSION_CHANGE"@) + reason_part(
        r,
        0x2,
        "USN_REASON_DATA_EXTEND"@,
    ) + reason_part(r, 0x1, "USN_REASON_DATA_OVERWRITE"@) + reason_part(
        r,
        0x4,
        "USN_REASON_DATA_TRUNCATION"@,
    ) + reason_part(r, 0x1000000, "USN_REASON_DESIRED_STORAGE_CLASS_CHANGE"@) + reason_part(
        r,
        0x400,
        "USN_REASON_EA_CHANGE"@,
    ) + reason_part(r, 0x40000, "USN_REASON_ENCRYPTION_CHANGE"@) + reason_part(
        r,
        0x100,
        "USN_REASON_FILE_CREATE"@,
    ) + reason_part(r, 0x200, "USN_REASON_FILE_DELETE"@) + reason_part(
        r,
        0x10000,
        "USN_REASON_HARD_LINK_CHANGE"@,
    ) + reason_part(r, 0x4000, "USN_REASON_INDEXABLE_CHANGE"@) + reason_part(
        r,
        0x800000,
        "USN_REASON_INTEGRITY_CHANGE"@,
    ) + reason_part(r, 0x20, "USN_REASON_NAMED_DATA_EXTEND"@) + reason_part(
        r,
        0x10,
        "USN_REASON_NAMED_DATA_OVERWRITE"@,
    ) + reason_part(r, 0x40, "USN_REASON_NAMED_DATA_TRUNCATION"@) + reason_part(
        r,
        0x80000,
        "USN_REASON_OBJECT_ID_CHANGE"@,
    ) + reason_part(r, 0x2000, "USN_REASON_RENAME_NEW_NAME"@) + reason_part(
        r,
        0x1000,
        "USN_REASON_RENAME_OLD_NAME"@,
    ) + reason_part(r, 0x100000, "USN_REASON_REPARSE_POINT_CHANGE"@) + reason_part(
        r,
        0x800,
        "USN_REASON_SECURITY_CHANGE"@,
    ) + reason_part(r, 0x200000, "USN_REASON_STREAM_CHANGE"@) + reason_part(
        r,
        0x400000,
        "USN_REASON_TRANSACTED_CHANGE"@,
    )
}

/// Appends one flag's name and a space when its bit is set.
fn append_part(out: &mut String, r: u32, bit: u32, name: &str)
    ensures
        final(out)@ == old(out)@ + reason_part(r, bit, name@),
{
    if r & bit != 0 {
        out.append(name);
        push_char(out, ' ');
    } else {
        proof {
            assert(old(out)@ + reason_part(r, bit, name@) =~= old(out)@);
        }
    }
}

impl FileRecord {
    /// Renders a change reason: each set flag's name, space separated.
    pub fn get_reason_str(reason: u32) -> (r: String)
        ensures
            r@ == reason_str_spec(reason),
    {
        let mut out = String::new();
        proof {
            assert(out@ =~= Seq::<char>::empty());
        }
        append_part(&mut out, reason, 0x8000, "USN_REASON_BASIC_INFO_CHANGE");
        append_part(&mut out, reason, 0x80000000, "USN_REASON_CLOSE");
        append_part(&mut out, reason, 0x20000, "USN_REASON_COMPRESSION_CHANGE");
        append_part(&mut out, reason, 0x2, "USN_REASON_DATA_EXTEND");
        append_part(&mut out, reason, 0x1, "USN_REASON_DATA_OVERWRITE");
        append_part(&mut out, reason, 0x4, "USN_REASON_DATA_TRUNCATION");
        append_part(&mut out, reason, 0x1000000, "USN_REASON_DESIRED_STORAGE_CLASS_CHANGE");
        append_part(&mut out, reason, 0x400, "USN_REASON_EA_CHANGE");
        append_part(&mut out, reason, 0x40000, "USN_REASON_ENCRYPTION_CHANGE");
        append_part(&mut out, reason, 0x100, "USN_REASON_FILE_CREATE");
        append_part(&mut out, reason, 0x200, "USN_REASON_FILE_DELETE");
        append_part(&mut out, reason, 0x10000, "USN_REASON_HARD_LINK_CHANGE");
        append_part(&mut out, reason, 0x4000, "USN_REASON_INDEXABLE_CHANGE");
        append_part(&mut out, reason, 0x800000, "USN_REASON_INTEGRITY_CHANGE");
        append_part(&mut out, reason, 0x20, "USN_REASON_NAMED_DATA_EXTEND");
        append_part(&mut out, reason, 0x10, "USN_REASON_NAMED_DATA_OVERWRITE");
        append_part(&mut out, reason, 0x40, "USN_REASON_NAMED_DATA_TRUNCATION");
        append_part(&mut out, reason, 0x80000, "USN_REASON_OBJECT_ID_CHANGE");
        append_part(&mut out, reason, 0x2000, "USN_REASON_RENAME_NEW_NAME");
        append_part(&mut out, reason, 0x1000, "USN_REASON_RENAME_OLD_NAME");
        append_part(&mut out, reason, 0x100000, "USN_REASON_REPARSE_POINT_CHANGE");
        append_part(&mut out, reason, 0x800, "USN_REASON_SECURITY_CHANGE");
        append_part(&mut out, reason, 0x200000, "USN_REASON_STREAM_CHANGE");
        append_part(&mut out, reason, 0x400000, "USN_REASON_TRANSACTED_CHANGE");
        proof {
            assert(out@ =~= reason_str_spec(reason));
        }
        out
    }

    /// Assembles a record from a resolved journal entry: the caller hands
    /// the file name, the resolved path if any, the timestamp and the raw
    /// reason bits.
    pub fn new(name: String, path: Option<String>, timestamp: i64, reason: u32) -> (r: FileRecord)
        ensures
            r.name@ == name@,
            r.path == path,
            r.timestamp == timestamp,
            r.reason@ == reason_str_spec(reason),
    {
        FileRecord { name, path, timestamp, reason: FileRecord::get_reason_str(reason) }
    }
}

} // verus!
