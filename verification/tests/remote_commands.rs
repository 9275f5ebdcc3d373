use arcropolis::remote::arc::Lookup;
use arcropolis::remote::search::{
    handle_get_folder_path, handle_get_folder_path_index, handle_get_path, handle_get_path_entry_index, handle_get_path_index, SearchEntryRec,
    SearchTables,
};
use arcropolis::hashing::Hash40;
use arcropolis::remote::{
    check_for_flag, get_flag_and_option, handle_command, lookup_target, parse_hash, parse_index, LookupTarget,
    RemoteCommand,
};
use arcropolis::remote::arc::{handle_command as arc_command, Command as ArcCommand};
use arcropolis::remote::search::{handle_command as search_command, Command as SearchCommand};
use arcropolis::remote::table::{handle_command as table_command, Command as TableCommand};

fn args(list: &[&str]) -> Vec<String> {
    list.iter().map(|s| s.to_string()).collect()
}

#[test]
fn index_decimal() {
    assert_eq!(parse_index("10"), Some(10));
    assert_eq!(parse_index("+7"), Some(7));
}

#[test]
fn index_hexadecimal() {
    assert_eq!(parse_index("0x10"), Some(16));
    assert_eq!(parse_index("ff"), Some(255));
    assert_eq!(parse_index("0x0xA"), Some(10));
}

#[test]
fn index_rejected() {
    assert_eq!(parse_index("zz"), None);
    assert_eq!(parse_index(""), None);
    assert_eq!(parse_index("0x100000000"), None);
    assert_eq!(parse_index("-1"), None);
}

#[test]
fn index_decimal_overflow_read_as_hex_fails() {
    assert_eq!(parse_index("4294967296"), None);
    assert_eq!(parse_index("4294967295"), Some(u32::MAX));
}

#[test]
fn hash_raw_and_text() {
    assert_eq!(parse_hash("0x1e8b7be43"), Hash40(0x1_e8b7be43));
    assert_eq!(parse_hash("a"), Hash40(0x1_e8b7be43));
    assert_eq!(parse_hash("0xzz"), Hash40::from_str("0xzz"));
}

#[test]
fn flag_is_taken_out_once() {
    let mut a = args(&["-p", "x", "-p"]);
    assert!(check_for_flag("-p", &mut a));
    assert_eq!(a, args(&["x", "-p"]));
    assert!(!check_for_flag("-u", &mut a));
    assert_eq!(a, args(&["x", "-p"]));
}

#[test]
fn flag_with_option() {
    let mut a = args(&["-r", "-i", "12", "tail"]);
    assert_eq!(get_flag_and_option("-i", &mut a), Some("12".to_string()));
    assert_eq!(a, args(&["-r", "tail"]));
}

#[test]
fn flag_without_option_stays() {
    let mut a = args(&["x", "-i"]);
    assert_eq!(get_flag_and_option("-i", &mut a), None);
    assert_eq!(a, args(&["x", "-i"]));
}

#[test]
fn lookup_by_index_then_hash() {
    let mut a = args(&["-h", "a", "-i", "0x20"]);
    assert_eq!(lookup_target(&mut a), LookupTarget::Index(32));
    assert_eq!(a, args(&["-h", "a"]));
    let mut b = args(&["-h", "a"]);
    assert_eq!(lookup_target(&mut b), LookupTarget::Hash(Hash40(0x1_e8b7be43)));
    assert!(b.is_empty());
    let mut c = args(&["-i", "nope"]);
    assert_eq!(lookup_target(&mut c), LookupTarget::Usage);
    let mut d = args(&["-x"]);
    assert_eq!(lookup_target(&mut d), LookupTarget::Usage);
}

#[test]
fn categories_dispatch() {
    assert!(matches!(handle_command(Vec::new()), RemoteCommand::Usage));
    assert!(matches!(handle_command(args(&["help", "arc"])), RemoteCommand::Usage));
    assert!(matches!(handle_command(args(&["unknown"])), RemoteCommand::Usage));
    match handle_command(args(&["arc", "get_directory", "-i", "1"])) {
        RemoteCommand::Arc(rest) => assert_eq!(rest, args(&["get_directory", "-i", "1"])),
        _ => panic!("expected arc"),
    }
    assert!(matches!(handle_command(args(&["search"])), RemoteCommand::Search(r) if r.is_empty()));
    assert!(matches!(handle_command(args(&["table", "x"])), RemoteCommand::Table(r) if r == args(&["x"])));
}

#[test]
fn arc_commands_dispatch() {
    assert!(matches!(arc_command(args(&["walk_directory", "-r"])), ArcCommand::WalkDirectory(r) if r == args(&["-r"])));
    assert!(matches!(arc_command(args(&["get_shared_data_index"])), ArcCommand::GetSharedDataIndex));
    assert!(matches!(arc_command(args(&["nothing"])), ArcCommand::Usage));
    assert!(matches!(arc_command(Vec::new()), ArcCommand::Usage));
}

#[test]
fn search_commands_dispatch() {
    assert!(matches!(search_command(args(&["get_path", "-i", "3"])), SearchCommand::GetPath(r) if r == args(&["-i", "3"])));
    assert!(matches!(search_command(args(&["bogus"])), SearchCommand::Usage));
}

#[test]
fn table_commands_dispatch() {
    assert!(matches!(table_command(args(&["check_directory", "-i", "0"])), TableCommand::CheckDirectory(r) if r == args(&["-i", "0"])));
    assert!(matches!(table_command(args(&["get_broken_filepaths"])), TableCommand::GetBrokenFilepaths(r) if r.is_empty()));
    assert!(matches!(table_command(Vec::new()), TableCommand::Usage));
}

fn search_entry(hash: u64, index: u32) -> SearchEntryRec {
    SearchEntryRec { path_hash: hash, path_index: index, parent_hash: 0, file_name_hash: 0, ext_hash: 0 }
}

fn search_tables() -> SearchTables {
    SearchTables {
        folder_path_to_index: vec![(0xF0, 0), (0xF1, 0xFF_FFFF)],
        folder_paths: vec![search_entry(0xF0, 0xFF_FFFF)],
        path_to_index: vec![(0xA0, 1), (0xA1, 0), (0xA2, 0xFF_FFFF)],
        path_list_indices: vec![0xFF_FFFF, 0],
        paths: vec![search_entry(0xA0, 1)],
    }
}

fn argv(a: &[&str]) -> Vec<String> {
    a.iter().map(|s| s.to_string()).collect()
}

#[test]
fn search_section_lookups() {
    let t = search_tables();
    assert!(matches!(handle_get_folder_path_index(&t, argv(&["-h", "0xf1"])), Lookup::Found((0xF1, 0xFF_FFFF))));
    assert!(matches!(handle_get_folder_path_index(&t, argv(&["-i", "3"])), Lookup::OutOfBounds));
    assert!(matches!(handle_get_folder_path(&t, argv(&["-h", "0xf0"])), Lookup::Found(e) if e.path_hash == 0xF0));
    assert!(matches!(handle_get_folder_path(&t, argv(&["-h", "0xf1"])), Lookup::Missing));
    assert!(matches!(handle_get_path_index(&t, argv(&["-i", "1"])), Lookup::Found((0xA1, 0))));
    assert!(matches!(handle_get_path_entry_index(&t, argv(&["-h", "0xa0"])), Lookup::Found(0)));
    assert!(matches!(handle_get_path_entry_index(&t, argv(&["-h", "0xa1"])), Lookup::Found(0xFF_FFFF)));
    assert!(matches!(handle_get_path(&t, argv(&["-h", "0xa0"])), Lookup::Found(e) if e.path_hash == 0xA0));
    assert!(matches!(handle_get_path(&t, argv(&["-h", "0xa1"])), Lookup::Missing));
    assert!(matches!(handle_get_path(&t, argv(&["-h", "0xa2"])), Lookup::Missing));
    assert!(matches!(handle_get_path(&t, argv(&[])), Lookup::Usage));
}
