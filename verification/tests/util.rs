//! Tests of the smaller utilities: text ciphers, wide strings, the
//! usage-history parsers, the account-tree tokenizer and the window
//! view-state reader.

use shellbags::analyzer::{matches_on_context, Analyzer, AnalyzerContext, ItemContext};
use shellbags::backup::{pack_backup, unpack_backup};
use shellbags::browserx::{Browser, Driver};
use shellbags::device::{shuffle, DeviceId};
use shellbags::guid::parse_vid;
use shellbags::minidat::{
    bytes_to_string, bytes_to_vec_u8, device_volume_path, parse_app_compat_cache,
    replace_device_path_with_drive_letter, MiniDat, MiniDatWrapper, SevenZip, ShellBag,
};
use shellbags::steam::Steam;
use shellbags::steamtree::{
    convert_from_login_user, login_map, Convertable, LoginMap, TokenType, Tree,
};
use shellbags::strutil::{i64_to_string, parse_u32_name, replace_all, replace_first, u64_to_string};
use shellbags::usn::{FileRecord, Volume};
use shellbags::utils::{
    extract_guid, from_pwstr, replace_guid_in_path, rot13, to_pwstr, vec_with_capacity,
};
use shellbags::vmdetect::VMDetector;
use shellbags::windows_info::read_window_info;
use shellbags::store::{RegNode, RegValue};

#[test]
fn backup_round_trip() {
    let data = "{\"entries\":[\"C:\\\\Users\"],\"n\":3}";
    let packed = pack_backup(data).unwrap();
    assert!(packed.chars().all(|c| c.is_ascii_alphanumeric() || "+/=".contains(c)));
    assert_eq!(unpack_backup(packed.as_str()).as_deref(), Some(data));
    assert_eq!(unpack_backup("not packed at all!"), None);
}

#[test]
fn rot13_rotates_letters_only() {
    assert_eq!(rot13("Hello, World!"), "Uryyb, Jbeyq!");
    assert_eq!(rot13(rot13("Secret13").as_str()), "Secret13");
}

#[test]
fn shuffle_folds_ascii_bytes() {
    assert_eq!(shuffle("AB".to_string(), "K".to_string()), "\n\t");
    // Folding twice with the same key restores the text.
    let once = shuffle("Hello".to_string(), "key".to_string());
    assert_eq!(shuffle(once, "key".to_string()), "Hello");
}

#[test]
fn device_fingerprint_is_deterministic_hex() {
    let id = DeviceId {
        pairs: [
            "serial-a".to_string(),
            "serial-b".to_string(),
            "serial-c".to_string(),
            "serial-d".to_string(),
        ],
    };
    let h1 = id.to_string();
    let h2 = id.to_string();
    assert_eq!(h1, h2);
    assert_eq!(h1.len(), 64);
    assert!(h1.chars().all(|c| c.is_ascii_hexdigit() && !c.is_ascii_uppercase()));
}

#[test]
fn wide_string_round_trip() {
    assert_eq!(to_pwstr("AB"), vec![65u16, 66, 0]);
    assert_eq!(from_pwstr(&[72, 105]), "Hi");
    assert_eq!(vec_with_capacity(3), vec![0u8, 0, 0]);
}

#[test]
fn decimal_rendering_and_parsing() {
    assert_eq!(u64_to_string(0), "0");
    assert_eq!(u64_to_string(90210), "90210");
    assert_eq!(i64_to_string(-42), "-42");
    assert_eq!(parse_u32_name("42"), Some(42));
    assert_eq!(parse_u32_name("+7"), Some(7));
    assert_eq!(parse_u32_name("007"), Some(7));
    assert_eq!(parse_u32_name(""), None);
    assert_eq!(parse_u32_name("4a"), None);
    assert_eq!(parse_u32_name("4294967295"), Some(u32::MAX));
    assert_eq!(parse_u32_name("4294967296"), None);
}

#[test]
fn replacement_helpers() {
    assert_eq!(replace_all("a--b--c", "--", "+"), "a+b+c");
    assert_eq!(replace_first("a--b--c", "--", "+"), "a+b--c");
    assert_eq!(
        replace_guid_in_path("x{G-1}y{G-1}z", "G-1", "Folder").unwrap(),
        "xFolderyFolderz"
    );
}

#[test]
fn guid_extraction_from_text() {
    let text = "prefix {a1a2a3a4-b1b2-c1c2-d1d2-d3d4d5d6d7d8} suffix";
    assert_eq!(
        extract_guid(text).as_deref(),
        Some("a1a2a3a4-b1b2-c1c2-d1d2-d3d4d5d6d7d8")
    );
    assert_eq!(extract_guid("no identifier here"), None);
    // Braces with the wrong width or a stray character inside do not count.
    assert_eq!(extract_guid("{tooshort}"), None);
    assert_eq!(extract_guid("{a1a2a3a4-b1b2-c1c2-d1d2-d3d4d5d6d7d!} pad pad"), None);
}

#[test]
fn guid_text_parsing() {
    let v = parse_vid("{a1a2a3a4-b1b2-c1c2-d1d2-d3d4d5d6d7d8}");
    assert_eq!(v, 0xa1a2a3a4_b1b2_c1c2_d1d2_d3d4d5d6d7d8u128);
    assert_eq!(parse_vid("{broken}"), 0);
    assert_eq!(parse_vid(""), 0);
}

#[test]
fn bytes_conversions() {
    assert_eq!(bytes_to_vec_u8(&[1, 2, 3]), vec![1, 2, 3]);
    assert_eq!(bytes_to_string(&[b'H', 0, b'i', 0], false), "Hi");
    assert_eq!(bytes_to_string(&[b'H', 0, 0, 0, b'i', 0], true), "Hi");
}

#[test]
fn device_path_rewriting() {
    let path = "\\Device\\HarddiskVolume3\\Users\\doc.txt";
    assert_eq!(device_volume_path(path).as_deref(), Some("\\Device\\HarddiskVolume3"));
    assert_eq!(
        replace_device_path_with_drive_letter(path, Some("C:")),
        "C:\\Users\\doc.txt"
    );
    assert_eq!(replace_device_path_with_drive_letter(path, None), path);
    assert_eq!(
        replace_device_path_with_drive_letter("C:\\plain", Some("D:")),
        "C:\\plain"
    );
    assert_eq!(device_volume_path("\\Other\\HarddiskVolume3\\x"), None);
}

#[test]
fn app_compat_cache_paths() {
    // Offset word names position 4; one record with an eight-byte path.
    let mut buf = vec![4u8, 0, 0, 0];
    buf.extend_from_slice(&[0; 14]);
    let path: Vec<u8> = "Test".encode_utf16().flat_map(|u| u.to_le_bytes()).collect();
    buf[16] = path.len() as u8;
    buf.extend_from_slice(&path);
    assert_eq!(parse_app_compat_cache(&buf), vec!["Test".to_string()]);
    assert_eq!(parse_app_compat_cache(&vec![1, 2]), Vec::<String>::new());
}

#[test]
fn reason_flags_render_in_table_order() {
    assert_eq!(FileRecord::get_reason_str(0x100), "USN_REASON_FILE_CREATE ");
    assert_eq!(
        FileRecord::get_reason_str(0x100 | 0x200),
        "USN_REASON_FILE_CREATE USN_REASON_FILE_DELETE "
    );
    assert_eq!(FileRecord::get_reason_str(0), "");
    let rec = FileRecord::new("a.txt".to_string(), None, 7, 0x1);
    assert_eq!(rec.reason, "USN_REASON_DATA_OVERWRITE ");
}

#[test]
fn plain_record_constructors() {
    let v = Volume::new("C:\\".to_string(), 1, 2, 3, vec![]);
    assert_eq!(v.path, "C:\\");
    assert_eq!(v.total_space, 3);
    let b = Browser::new("chrome".to_string(), "p".to_string(), Driver::BLINK, true);
    assert!(b.is_present());
    let s = Steam::new(Some("steam".to_string()));
    assert_eq!(s.location.as_deref(), Some("steam"));
    let _ = VMDetector::new();
    let m: MiniDat = SevenZip::new_instance("C:\\x.7z".to_string());
    assert_eq!(m.value, "C:\\x.7z");
    assert_eq!(m.id, "seven_zip");
    let m2: MiniDat = ShellBag::new_instance("C:\\y".to_string());
    assert_eq!(m2.id, "shellbag");
}

#[test]
fn context_matching_by_size_and_checksums() {
    let item = |size: u64, crc: u32| ItemContext {
        name: "n".to_string(),
        path: format!("p{}", size),
        size,
        crc32: vec![crc],
        tls: 0,
    };
    let target = AnalyzerContext { items: vec![item(100, 7), item(50, 9)] };
    let catalogue = AnalyzerContext { items: vec![item(99, 7), item(10, 8)] };
    let found = matches_on_context(target, catalogue);
    // Size 99 + 1 covers 100 with the same checksum run; nothing matches 9.
    assert_eq!(found.len(), 1);
    assert_eq!(found[0].path, "p100");
    assert_eq!(found[0].items.len(), 1);
    assert_eq!(found[0].items[0].size, 99);
    let holder = Analyzer::new(AnalyzerContext { items: vec![] });
    assert!(holder.context.items.is_empty());
}

#[test]
fn tree_tokenizer_and_struct_name() {
    let text = "\"Root\"\n{\n\t\"key\"\t\t\"val\"\n}\n";
    let mut tree = Tree::new(text.to_string());
    tree.parse();
    let kinds: Vec<TokenType> = tree.tokens.iter().map(|t| t._type).collect();
    assert_eq!(
        kinds,
        vec![
            TokenType::OpenQuote,
            TokenType::StructName,
            TokenType::CloseQuote,
            TokenType::OpenBracket,
            TokenType::OpenQuote,
            TokenType::NameField,
            TokenType::CloseQuote,
            TokenType::OpenQuote,
            TokenType::ValueField,
            TokenType::CloseQuote,
            TokenType::CloseBracket,
        ]
    );
    assert_eq!(tree.tokens[1].value.as_deref(), Some("Root"));
    assert_eq!(tree.tokens[5].value.as_deref(), Some("key"));
    assert_eq!(tree.tokens[8].value.as_deref(), Some("val"));
    assert_eq!(tree.find_original_struct_name().as_deref(), Some("Root"));
    let table = login_map(&tree.tokens);
    assert_eq!(table.len(), 1);
    assert_eq!(table[0].0, "Root");
    assert_eq!(table[0].1, vec![("key".to_string(), "val".to_string())]);
}

struct NameList {
    names: Vec<String>,
}

impl Convertable for NameList {
    fn generate(map: LoginMap) -> Self {
        NameList { names: map.into_iter().map(|(k, _)| k).collect() }
    }
}

#[test]
fn convert_checks_struct_name() {
    let text = "\"users\"\n{\n\t\"76561198000000000\"\n\t{\n\t\t\"AccountName\"\t\t\"doc\"\n\t}\n}\n";
    let mut tree = Tree::new(text.to_string());
    tree.parse();
    let wrong: Option<NameList> = convert_from_login_user(tree.clone(), "accounts");
    assert!(wrong.is_none());
    let got: Option<NameList> = convert_from_login_user(tree, "_Unknown_");
    let names = got.unwrap().names;
    // The account block name is the last one seen before each close, so it
    // is the one recorded.
    assert_eq!(names, vec!["76561198000000000".to_string()]);
}

#[test]
fn window_info_reads_values() {
    let uuid_node = RegNode {
        keys: vec![],
        values: vec![
            ("IconSize".to_string(), RegValue::Num(48)),
            ("Mode".to_string(), RegValue::Num(4)),
            (
                "Vid".to_string(),
                RegValue::Text("{a1a2a3a4-b1b2-c1c2-d1d2-d3d4d5d6d7d8}".to_string()),
            ),
        ],
    };
    let info = read_window_info(&uuid_node, 7);
    assert_eq!(info.slot, 7);
    assert_eq!(info.icon_size, 48);
    assert_eq!(info.mode, 4);
    assert_eq!(info.group_view, 0);
    assert_eq!(info.vid, 0xa1a2a3a4_b1b2_c1c2_d1d2_d3d4d5d6d7d8u128);
}
