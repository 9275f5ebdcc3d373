use arcropolis::hashing::Hash40;
use arcropolis::modfs::handlers::strip_regional;
use arcropolis::path::{
    chars_of, extension_of, file_name_of, join_paths, string_of, trim_end_of, with_file_name_of,
};

fn s(v: &Vec<char>) -> String {
    string_of(v)
}

fn opt(v: Option<Vec<char>>) -> Option<String> {
    v.map(|x| string_of(&x))
}

#[test]
fn hash40_of_single_letter() {
    let h = Hash40::from_str("a");
    assert_eq!(h.as_u64(), 0x1_e8b7be43);
    assert_eq!(h.len(), 1);
    assert_eq!(h.crc32(), 0xe8b7be43);
}

#[test]
fn hash40_of_archive_path() {
    let h = Hash40::from_str("fighter/mario/model/body/c00/model.numdlb");
    assert_eq!(h.as_u64(), 0x29_1190785f);
    assert_eq!(h.len(), 0x29);
}

#[test]
fn hash40_of_empty_string() {
    assert_eq!(Hash40::from_str("").as_u64(), 0);
}

#[test]
fn chars_round_trip() {
    let v = chars_of("ui/méssage/é.msbt");
    assert_eq!(v.len(), 17);
    assert_eq!(s(&v), "ui/méssage/é.msbt");
}

#[test]
fn file_names_follow_path_components() {
    assert_eq!(opt(file_name_of(&chars_of("a/b.txt"))), Some("b.txt".to_string()));
    assert_eq!(opt(file_name_of(&chars_of("b.txt"))), Some("b.txt".to_string()));
    assert_eq!(opt(file_name_of(&chars_of("a/b/"))), Some("b".to_string()));
    assert_eq!(opt(file_name_of(&chars_of("a/b/."))), Some("b".to_string()));
    assert_eq!(opt(file_name_of(&chars_of("a/b//"))), Some("b".to_string()));
    assert_eq!(opt(file_name_of(&chars_of("a/.."))), None);
    assert_eq!(opt(file_name_of(&chars_of("/"))), None);
    assert_eq!(opt(file_name_of(&chars_of(""))), None);
    assert_eq!(opt(file_name_of(&chars_of("."))), None);
}

#[test]
fn trailing_separators_are_trimmed() {
    assert_eq!(s(&trim_end_of(&chars_of("a/b/./"))), "a/b");
    assert_eq!(s(&trim_end_of(&chars_of("a.b"))), "a.b");
}

#[test]
fn extensions_follow_the_last_dot() {
    assert_eq!(opt(extension_of(&chars_of("a/b.tar.gz"))), Some("gz".to_string()));
    assert_eq!(opt(extension_of(&chars_of("a/.bashrc"))), None);
    assert_eq!(opt(extension_of(&chars_of("a/noext"))), None);
    assert_eq!(opt(extension_of(&chars_of("a/dot."))), Some("".to_string()));
    assert_eq!(opt(extension_of(&chars_of("a.d/file"))), None);
}

#[test]
fn joining_paths_like_pushing() {
    assert_eq!(s(&join_paths(&chars_of("a"), &chars_of("b"))), "a/b");
    assert_eq!(s(&join_paths(&chars_of("a/"), &chars_of("b"))), "a/b");
    assert_eq!(s(&join_paths(&chars_of("a"), &chars_of("/b"))), "/b");
    assert_eq!(s(&join_paths(&chars_of(""), &chars_of("b"))), "b");
}

#[test]
fn replacing_file_names() {
    assert_eq!(s(&with_file_name_of(&chars_of("a/b.txt"), &chars_of("c.txt"))), "a/c.txt");
    assert_eq!(s(&with_file_name_of(&chars_of("b.txt"), &chars_of("c"))), "c");
    assert_eq!(s(&with_file_name_of(&chars_of("/b"), &chars_of("c"))), "/c");
    assert_eq!(s(&with_file_name_of(&chars_of("a/b/"), &chars_of("c"))), "a/c");
    assert_eq!(s(&with_file_name_of(&chars_of("a/.."), &chars_of("c"))), "a/../c");
}

#[test]
fn regional_marker_is_taken_out_of_the_name() {
    let (path, region) = strip_regional("ui/message/msg_menu+us_en.msbt");
    assert_eq!(path, "ui/message/msg_menu.msbt");
    assert_eq!(region, Some("us_en".to_string()));
}

#[test]
fn names_without_marker_stay() {
    let (path, region) = strip_regional("ui/message/msg_menu.msbt");
    assert_eq!(path, "ui/message/msg_menu.msbt");
    assert_eq!(region, None);
}

#[test]
fn marker_too_short_leaves_name() {
    let (path, region) = strip_regional("ui/a+b");
    assert_eq!(path, "ui/a+b");
    assert_eq!(region, None);
}

#[test]
fn marker_in_directory_is_not_a_region() {
    let (path, region) = strip_regional("ui+us_en/file.bin");
    assert_eq!(path, "ui+us_en/file.bin");
    assert_eq!(region, None);
}
