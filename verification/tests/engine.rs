//! Tests of the shell-bag engine: the date codec, the record decoder, the
//! tree walker, the timeline and the collapsed-folder view.

use shellbags::bagpath::ShellBagPath;
use shellbags::bags::{get_mru_list, read_hive, read_mru_bag, read_shell_bags, ShellBagList, ShellBags};
use shellbags::collapse::{
    bag_mru_to_shell_bag, collapse, collect_shell_bag, collect_sub_shell_bag,
    decode_bag_mru_entry_name, BagMRU, ShellBagDat,
};
use shellbags::date::{dosdate, format_timestamp, split_timestamp};
use shellbags::item::{parse_node_value, ShellItem};
use shellbags::store::{RegNode, RegValue};
use shellbags::timeline::{associate, parse_bag_with_timeline, ShellBagAction};

#[test]
fn main_test() {
    println!("!");
}

fn date_2020_01_01() -> [u8; 4] {
    // day 1, month 1, year 1980 + 40; midnight.
    [0x21, 0x50, 0x00, 0x00]
}

#[test]
fn dosdate_exact_value() {
    let t = dosdate(&date_2020_01_01()).unwrap();
    assert_eq!(t, 1577836800);
    assert_eq!(format_timestamp(t), "2020-01-01 00:00:00 UTC");
}

#[test]
fn dosdate_rejects_zero_fields_and_bad_days() {
    assert_eq!(dosdate(&[0, 0, 0, 0]), None);
    // Day 31 in a 30-day month (April).
    let word: u16 = 31 | (4 << 5) | (40 << 9);
    assert_eq!(dosdate(&[word as u8, (word >> 8) as u8, 0, 0]), None);
    // Wrong length.
    assert_eq!(dosdate(&[1, 2, 3]), None);
    assert_eq!(dosdate(&[1, 2, 3, 4, 5]), None);
}

#[test]
fn dosdate_fields_recoverable() {
    // Hour 12, minute 4, second 6 (stored halved).
    let time_word: u16 = 3 | (4 << 5) | (12 << 11);
    let mut bytes = date_2020_01_01();
    bytes[2] = time_word as u8;
    bytes[3] = (time_word >> 8) as u8;
    let t = dosdate(&bytes).unwrap();
    assert_eq!(split_timestamp(t), (2020, 1, 1, 12, 4, 6));
}

#[test]
fn format_timestamp_out_of_range_is_decimal() {
    assert_eq!(format_timestamp(-5), "-5");
    assert_eq!(format_timestamp(0), "1970-01-01 00:00:00 UTC");
}

#[test]
fn decoder_rejects_short_and_truncated_records() {
    for len in 0..20usize {
        let raw: Vec<u8> = (0..len).map(|i| (i * 37 + 11) as u8).collect();
        assert!(parse_node_value(&raw, &vec![]).is_none(), "len {}", len);
    }
    // Declared size below twenty.
    let mut raw = vec![0u8; 32];
    raw[0] = 19;
    assert!(parse_node_value(&raw, &vec![]).is_none());
    // Declared size beyond the bytes present.
    raw[0] = 40;
    assert!(parse_node_value(&raw, &vec![]).is_none());
}

#[test]
fn decoder_never_panics_on_byte_soup() {
    for len in 0..256usize {
        let raw: Vec<u8> = (0..len).map(|i| ((i * 131 + len * 7) % 256) as u8).collect();
        let _ = parse_node_value(&raw, &vec![1, 2]);
    }
}

fn folder_record(id: u8) -> Vec<u8> {
    let mut raw = vec![20u8, 0, 0x1f, id];
    raw.extend_from_slice(&[
        0xa1, 0xa2, 0xa3, 0xa4, 0xb1, 0xb2, 0xc1, 0xc2, 0xd1, 0xd2, 0xd3, 0xd4, 0xd5, 0xd6, 0xd7,
        0xd8,
    ]);
    raw
}

#[test]
fn decode_folder_with_known_name_and_guid() {
    let raw = folder_record(0x48);
    match parse_node_value(&raw, &vec![]).unwrap() {
        ShellItem::Folder(f) => {
            assert_eq!(f.id, 0x48);
            assert_eq!(f.name, "MY_DOCUMENTS");
            // data1, data2, data3 little endian, the rest as stored.
            assert_eq!(f.guid, 0xa4a3a2a1_b2b1_c2c1_d1d2_d3d4d5d6d7d8u128);
        },
        other => panic!("not a folder: {:?}", other),
    }
}

#[test]
fn decode_folder_unknown_id_has_empty_name() {
    let raw = folder_record(0x33);
    match parse_node_value(&raw, &vec![]).unwrap() {
        ShellItem::Folder(f) => assert_eq!(f.name, ""),
        other => panic!("not a folder: {:?}", other),
    }
}

#[test]
fn decode_volume_label() {
    let mut raw = vec![20u8, 0, 0x2f, b'C', b':', b'\\'];
    raw.resize(20, 0);
    match parse_node_value(&raw, &vec![]).unwrap() {
        ShellItem::Volume(v) => assert_eq!(v.name, "C:\\"),
        other => panic!("not a volume: {:?}", other),
    }
}

#[test]
fn decode_network_guid_form() {
    // Low nibble 0x0d: a 16-byte identifier at offset 3 is the sole payload.
    let mut raw = vec![20u8, 0, 0x4d];
    raw.extend_from_slice(&[
        0xa1, 0xa2, 0xa3, 0xa4, 0xb1, 0xb2, 0xc1, 0xc2, 0xd1, 0xd2, 0xd3, 0xd4, 0xd5, 0xd6, 0xd7,
        0xd8,
    ]);
    raw.push(0);
    assert_eq!(raw.len(), 20);
    match parse_node_value(&raw, &vec![]).unwrap() {
        ShellItem::Network(n) => {
            assert_eq!(n.guid, Some(0xa4a3a2a1_b2b1_c2c1_d1d2_d3d4d5d6d7d8u128));
            assert_eq!(n.flags, 0);
            assert_eq!(n.location, "");
            assert_eq!(n.description, "");
            assert_eq!(n.comment, "");
        },
        other => panic!("not a network item: {:?}", other),
    }
}

#[test]
fn decode_network_with_strings() {
    let mut raw = vec![0u8, 0, 0x41, 0, 0xc0];
    raw.extend_from_slice(b"loc\0d\0cm\0");
    raw.resize(24, 0);
    raw[0] = 20;
    match parse_node_value(&raw, &vec![]).unwrap() {
        ShellItem::Network(n) => {
            assert_eq!(n.guid, None);
            assert_eq!(n.flags, 0xc0);
            assert_eq!(n.location, "loc");
            assert_eq!(n.description, "d");
            assert_eq!(n.comment, "cm");
        },
        other => panic!("not a network item: {:?}", other),
    }
}

fn file_record_doc() -> Vec<u8> {
    // Base record only: size 100, modify date 2020-01-01, short name DOC,
    // extension offset pointing at the record's end.
    let mut raw = vec![20u8, 0, 0x32, 0, 100, 0, 0, 0];
    raw.extend_from_slice(&date_2020_01_01());
    raw.extend_from_slice(&[0, 0]);
    raw.extend_from_slice(b"DOC\0");
    raw.extend_from_slice(&[18, 0]);
    assert_eq!(raw.len(), 20);
    raw
}

#[test]
fn decode_file_base_record() {
    match parse_node_value(&file_record_doc(), &vec![]).unwrap() {
        ShellItem::File(f) => {
            assert_eq!(f.file_size, 100);
            assert_eq!(f.short_name, "DOC");
            assert_eq!(f.m_time, 1577836800);
            assert_eq!(f.c_time, 0);
            assert_eq!(f.a_time, 0);
            assert_eq!(f.long_name, "");
            assert_eq!(f.ext_size, 0);
            assert_eq!(f.ext_version, 0);
        },
        other => panic!("not a file: {:?}", other),
    }
}

#[test]
fn decode_file_versioned_extension_round_trip() {
    // The fields the decoder reads, re-encoded and decoded again: base
    // fields, a version-3 extension with both dates, and the long name.
    let short = b"DOC";
    let long: [u16; 4] = [b'D' as u16, b'o' as u16, b'c' as u16, b's' as u16];
    let ext_offset = 15 + short.len();
    let total = 39 + short.len() + 2 * long.len();
    let ext_size = 22 + 2 * long.len();
    let mut raw: Vec<u8> = Vec::new();
    raw.extend_from_slice(&(total as u16).to_le_bytes());
    raw.extend_from_slice(&[0x32, 0]);
    raw.extend_from_slice(&100u32.to_le_bytes());
    raw.extend_from_slice(&date_2020_01_01());
    raw.extend_from_slice(&7u16.to_le_bytes());
    raw.extend_from_slice(short);
    raw.push(0);
    raw.extend_from_slice(&(ext_size as u16).to_le_bytes());
    raw.extend_from_slice(&3u16.to_le_bytes());
    raw.extend_from_slice(&0xbeef0004u32.to_le_bytes());
    raw.extend_from_slice(&date_2020_01_01());
    raw.extend_from_slice(&date_2020_01_01());
    raw.extend_from_slice(&[0, 0, 0, 0]);
    for u in long.iter() {
        raw.extend_from_slice(&u.to_le_bytes());
    }
    raw.extend_from_slice(&[0, 0]);
    raw.extend_from_slice(&(ext_offset as u16).to_le_bytes());
    assert_eq!(raw.len(), total);
    match parse_node_value(&raw, &vec![]).unwrap() {
        ShellItem::File(f) => {
            assert_eq!(f.file_size, 100);
            assert_eq!(f.fflags, 7);
            assert_eq!(f.short_name, "DOC");
            assert_eq!(f.long_name, "Docs");
            assert_eq!(f.m_time, 1577836800);
            assert_eq!(f.c_time, 1577836800);
            assert_eq!(f.a_time, 1577836800);
            assert_eq!(f.ext_version, 3);
            assert_eq!(f.ext_size, ext_size as u32);
        },
        other => panic!("not a file: {:?}", other),
    }
}

#[test]
fn decode_file_bad_signature_degrades_to_base() {
    let mut raw = file_record_doc();
    // Grow the record so the extension header fits, with a wrong signature.
    raw.truncate(18);
    raw.extend_from_slice(&[8, 0]);
    raw.extend_from_slice(&3u16.to_le_bytes());
    raw.extend_from_slice(&0xdeadbeefu32.to_le_bytes());
    raw.extend_from_slice(&[18, 0]);
    raw[0] = raw.len() as u8;
    match parse_node_value(&raw, &vec![]).unwrap() {
        ShellItem::File(f) => {
            assert_eq!(f.short_name, "DOC");
            assert_eq!(f.ext_version, 3);
            assert_eq!(f.c_time, 0);
            assert_eq!(f.long_name, "");
        },
        other => panic!("not a file: {:?}", other),
    }
}

fn mru_value(ids: &[u32]) -> Vec<u8> {
    let mut v = Vec::new();
    for id in ids {
        v.extend_from_slice(&id.to_le_bytes());
    }
    v.extend_from_slice(&0xffffffffu32.to_le_bytes());
    v
}

fn leaf_node() -> RegNode {
    RegNode {
        keys: vec![],
        values: vec![("MRUListEx".to_string(), RegValue::Bin(mru_value(&[])))],
    }
}

#[test]
fn mru_list_reads_and_drops_sentinel() {
    let node = RegNode {
        keys: vec![],
        values: vec![("MRUListEx".to_string(), RegValue::Bin(mru_value(&[5, 9])))],
    };
    assert_eq!(get_mru_list(&node).unwrap(), vec![5, 9]);
    let empty = RegNode { keys: vec![], values: vec![] };
    assert!(get_mru_list(&empty).is_err());
}

#[test]
fn walker_follows_declared_order_and_records_one_anomaly() {
    // Declared order 3, 1, 2 against enumerated order 1, 2, 3.
    let mut values = vec![("MRUListEx".to_string(), RegValue::Bin(mru_value(&[3, 1, 2])))];
    for id in [1u32, 2, 3] {
        values.push((id.to_string(), RegValue::Bin(folder_record(0x40 + id as u8))));
    }
    let node = RegNode {
        keys: vec![
            ("1".to_string(), leaf_node()),
            ("2".to_string(), leaf_node()),
            ("3".to_string(), leaf_node()),
        ],
        values,
    };
    let mut data = ShellBagList::new();
    let root = ShellBagPath(Vec::new());
    read_mru_bag(&node, &mut data, &root).unwrap();
    let paths: Vec<Vec<u32>> = data.list.iter().map(|(p, _)| p.0.clone()).collect();
    assert_eq!(paths, vec![vec![3], vec![1], vec![2]]);
    assert_eq!(data.mru_anomalies.len(), 1);
    assert_eq!(data.mru_anomalies[0].0 .0, Vec::<u32>::new());
    assert_eq!(data.mru_anomalies[0].1 .0, vec![3, 1, 2]);
    assert_eq!(data.mru_anomalies[0].1 .1, vec![1, 2, 3]);
}

#[test]
fn walker_replaces_duplicate_identifiers() {
    // The declared order names the same key twice: one tree entry results.
    let values = vec![
        ("MRUListEx".to_string(), RegValue::Bin(mru_value(&[1, 1]))),
        ("1".to_string(), RegValue::Bin(folder_record(0x48))),
    ];
    let node = RegNode { keys: vec![("1".to_string(), leaf_node())], values };
    let mut data = ShellBagList::new();
    read_mru_bag(&node, &mut data, &ShellBagPath(Vec::new())).unwrap();
    assert_eq!(data.list.len(), 1);
    assert_eq!(data.list[0].0 .0, vec![1]);
}

#[test]
fn walker_records_anomaly_on_length_mismatch() {
    // Declared and enumerated orders agree elementwise but differ in length.
    let values = vec![
        ("MRUListEx".to_string(), RegValue::Bin(mru_value(&[1]))),
        ("1".to_string(), RegValue::Bin(folder_record(0x48))),
    ];
    let node = RegNode {
        keys: vec![("1".to_string(), leaf_node()), ("2".to_string(), leaf_node())],
        values,
    };
    let mut data = ShellBagList::new();
    read_mru_bag(&node, &mut data, &ShellBagPath(Vec::new())).unwrap();
    assert_eq!(data.mru_anomalies.len(), 1);
    assert_eq!(data.mru_anomalies[0].1 .0, vec![1]);
    assert_eq!(data.mru_anomalies[0].1 .1, vec![1, 2]);
}

#[test]
fn walker_records_no_anomaly_when_orders_agree() {
    let values = vec![
        ("MRUListEx".to_string(), RegValue::Bin(mru_value(&[1]))),
        ("1".to_string(), RegValue::Bin(folder_record(0x48))),
    ];
    let node = RegNode { keys: vec![("1".to_string(), leaf_node())], values };
    let mut data = ShellBagList::new();
    read_mru_bag(&node, &mut data, &ShellBagPath(Vec::new())).unwrap();
    assert!(data.mru_anomalies.is_empty());
    assert_eq!(data.list.len(), 1);
}

fn hive_with_doc_file() -> RegNode {
    // BagMRU: a folder at key 1, holding the file at key 2.
    let file_child = RegNode {
        keys: vec![],
        values: vec![
            ("MRUListEx".to_string(), RegValue::Bin(mru_value(&[2]))),
            ("2".to_string(), RegValue::Bin(file_record_doc())),
        ],
    };
    let bag_mru = RegNode {
        keys: vec![("1".to_string(), file_child)],
        values: vec![
            ("MRUListEx".to_string(), RegValue::Bin(mru_value(&[1]))),
            ("1".to_string(), RegValue::Bin(folder_record(0x48))),
        ],
    };
    RegNode {
        keys: vec![
            ("Bags".to_string(), RegNode { keys: vec![], values: vec![] }),
            ("BagMRU".to_string(), bag_mru),
        ],
        values: vec![],
    }
}

fn empty_hive() -> RegNode {
    RegNode {
        keys: vec![
            ("Bags".to_string(), RegNode { keys: vec![], values: vec![] }),
            ("BagMRU".to_string(), leaf_node()),
        ],
        values: vec![],
    }
}

#[test]
fn timeline_for_single_folder_and_file() {
    let bags = read_shell_bags(&empty_hive(), &hive_with_doc_file()).unwrap();
    assert_eq!(bags.ntuser.list.len(), 2);
    let hives = vec![("S-1-5-21-TEST".to_string(), bags)];
    let timeline = parse_bag_with_timeline(&hives);
    assert_eq!(timeline.len(), 3);
    for ev in &timeline {
        assert_eq!(ev.folder, "\\MY_DOCUMENTS\\DOC");
        assert_eq!(ev.user, "S-1-5-21-TEST");
    }
    // Access and create default to the epoch start; modify carries the
    // decoded date and sorts last.
    assert_eq!(timeline[0].action, ShellBagAction::Access);
    assert_eq!(timeline[0].numeric_time, 0);
    assert_eq!(timeline[1].action, ShellBagAction::Created);
    assert_eq!(timeline[2].action, ShellBagAction::Modified);
    assert_eq!(timeline[2].numeric_time, 1577836800);
    assert_eq!(timeline[2].time, "2020-01-01 00:00:00 UTC");
}

#[test]
fn associate_runs_identically_twice() {
    let bags = read_hive(&hive_with_doc_file()).unwrap();
    let first = associate(&bags);
    let second = associate(&bags);
    assert_eq!(first.len(), second.len());
    for (a, b) in first.iter().zip(second.iter()) {
        assert_eq!(a.0 .0, b.0 .0);
        assert_eq!(a.1, b.1);
    }
    let displays: Vec<&str> = first.iter().map(|p| p.1.as_str()).collect();
    assert!(displays.contains(&"\\MY_DOCUMENTS"));
    assert!(displays.contains(&"\\MY_DOCUMENTS\\DOC"));
}

fn dats(paths: &[&str]) -> Vec<ShellBagDat> {
    paths.iter().map(|p| ShellBagDat { path: p.to_string() }).collect()
}

fn path_set(v: &[ShellBagDat]) -> Vec<String> {
    let mut s: Vec<String> = v.iter().map(|d| d.path.clone()).collect();
    s.sort();
    s
}

#[test]
fn collapse_keeps_most_specific_paths() {
    let out = collapse(dats(&["C:\\a", "C:\\a\\b", "D:\\x"]));
    assert_eq!(path_set(&out), vec!["C:\\a\\b".to_string(), "D:\\x".to_string()]);
}

#[test]
fn collapse_is_order_independent_and_idempotent() {
    let input = ["C:\\a", "C:\\a\\b", "C:\\a\\b\\c", "D:\\x", "D:\\xy"];
    let out1 = collapse(dats(&input));
    let mut permuted = input;
    permuted.reverse();
    let out2 = collapse(dats(&permuted));
    assert_eq!(path_set(&out1), path_set(&out2));
    let again = collapse(out1.clone());
    assert_eq!(path_set(&again), path_set(&out1));
    // No retained path is continued, separator and all, by another.
    for a in &out1 {
        for b in &out1 {
            let pre = if a.path.ends_with('\\') {
                a.path.clone()
            } else {
                format!("{}\\", a.path)
            };
            assert!(!(b.path.len() > a.path.len() && b.path.starts_with(&pre)));
        }
    }
}

#[test]
fn bag_mru_name_decoding_and_normalizing() {
    let mut volume_entry = BagMRU {
        path: "\\1".to_string(),
        entry: vec![20, 0, 0x2f, b'C', b':', b'\\'],
        sub: vec![],
        full_name: None,
        short_name: None,
    };
    decode_bag_mru_entry_name(&mut volume_entry);
    assert_eq!(volume_entry.short_name.as_deref(), Some("C:\\"));

    let mut raw_31 = file_record_doc();
    raw_31[2] = 0x31;
    let mut file_entry = BagMRU {
        path: "\\2".to_string(),
        entry: raw_31,
        sub: vec![],
        full_name: None,
        short_name: None,
    };
    decode_bag_mru_entry_name(&mut file_entry);
    // Bytes 14 up to the extension offset, null characters removed.
    assert_eq!(file_entry.short_name.as_deref(), Some("DOC"));

    let named = BagMRU {
        path: "\\1".to_string(),
        entry: vec![],
        sub: vec![],
        full_name: Some("\\\\C:\\\\Users".to_string()),
        short_name: None,
    };
    let dat = bag_mru_to_shell_bag(&named).unwrap();
    assert_eq!(dat.path, "C:\\Users");
}

#[test]
fn collect_shell_bag_collapses_forest() {
    let deep = BagMRU {
        path: "\\1\\2".to_string(),
        entry: vec![],
        sub: vec![],
        full_name: Some("\\\\C:\\\\Users\\Docs".to_string()),
        short_name: Some("Docs".to_string()),
    };
    let root = BagMRU {
        path: "\\1".to_string(),
        entry: vec![],
        sub: vec![deep],
        full_name: Some("\\\\C:\\\\Users".to_string()),
        short_name: Some("Users".to_string()),
    };
    let subs = collect_sub_shell_bag(&root);
    assert_eq!(subs.len(), 1);
    assert_eq!(subs[0].path, "C:\\Users\\Docs");
    let out = collect_shell_bag(&vec![root]);
    assert_eq!(path_set(&out), vec!["C:\\Users\\Docs".to_string()]);
}

#[test]
fn hive_without_mru_root_is_fatal() {
    let no_mru = RegNode {
        keys: vec![("Bags".to_string(), RegNode { keys: vec![], values: vec![] })],
        values: vec![],
    };
    assert!(read_hive(&no_mru).is_err());
    let ShellBags { ntuser, usr_class } = read_shell_bags(&empty_hive(), &empty_hive()).unwrap();
    assert!(ntuser.list.is_empty());
    assert!(usr_class.list.is_empty());
}
