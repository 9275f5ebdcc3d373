use arcropolis::hashing::Hash40;
use arcropolis::replacement::lookup::{
    add_shared_file, get_dir_entry_for_file, get_shared_file, get_shared_file_count, initialize_share,
    initialize_unshare, is_shared_file, remove_shared_file, ArcTables, ShareLookup, UnshareLookup,
};

/// Paths 10, 11, 12, 13: 11 and 12 keep their data at 10; 13 at itself.
fn share() -> ShareLookup {
    ShareLookup::build(&vec![10, 11, 12, 13], &vec![Some(0), Some(0), Some(0), Some(3)])
}

#[test]
fn share_lookup_lists_sharers_in_order() {
    let lut = Some(share());
    assert_eq!(get_shared_file_count(&lut, Hash40(10)), 2);
    assert_eq!(get_shared_file(&lut, Hash40(10), 0), Some(Hash40(11)));
    assert_eq!(get_shared_file(&lut, Hash40(10), 1), Some(Hash40(12)));
    assert_eq!(get_shared_file(&lut, Hash40(10), 2), None);
    assert_eq!(get_shared_file_count(&lut, Hash40(13)), 0);
}

#[test]
fn shared_set_holds_both_ends() {
    let lut = Some(share());
    assert!(is_shared_file(&lut, Hash40(10)));
    assert!(is_shared_file(&lut, Hash40(11)));
    assert!(is_shared_file(&lut, Hash40(12)));
    assert!(!is_shared_file(&lut, Hash40(13)));
}

#[test]
fn missing_share_index_is_skipped() {
    let lut = Some(ShareLookup::build(&vec![1, 2], &vec![None, Some(0)]));
    assert_eq!(get_shared_file_count(&lut, Hash40(1)), 1);
    assert!(is_shared_file(&lut, Hash40(2)));
}

#[test]
fn add_then_remove_shared() {
    let mut lut = Some(share());
    add_shared_file(&mut lut, Hash40(50), Hash40(13));
    assert!(is_shared_file(&lut, Hash40(13)));
    assert_eq!(get_shared_file(&lut, Hash40(13), 0), Some(Hash40(50)));
    assert!(remove_shared_file(&mut lut, Hash40(13)));
    assert!(!is_shared_file(&lut, Hash40(13)));
    assert!(!remove_shared_file(&mut lut, Hash40(13)));
}

#[test]
fn add_to_a_path_with_a_list_appends_the_path_itself() {
    let mut lut = Some(share());
    add_shared_file(&mut lut, Hash40(10), Hash40(99));
    assert_eq!(get_shared_file_count(&lut, Hash40(10)), 3);
    assert_eq!(get_shared_file(&lut, Hash40(10), 2), Some(Hash40(10)));
    assert!(is_shared_file(&lut, Hash40(99)));
    assert_eq!(get_shared_file_count(&lut, Hash40(99)), 0);
}

#[test]
fn missing_share_lookup_answers_nothing() {
    let mut lut: Option<ShareLookup> = None;
    assert!(!is_shared_file(&lut, Hash40(1)));
    assert_eq!(get_shared_file_count(&lut, Hash40(1)), 0);
    assert_eq!(get_shared_file(&lut, Hash40(1), 0), None);
    add_shared_file(&mut lut, Hash40(1), Hash40(2));
    assert!(lut.is_none());
    assert!(!remove_shared_file(&mut lut, Hash40(1)));
}

#[test]
fn share_lookup_built_once() {
    let mut lut: Option<ShareLookup> = None;
    initialize_share(&mut lut, &vec![5, 6], &vec![Some(1), Some(1)]);
    assert_eq!(get_shared_file(&lut, Hash40(6), 0), Some(Hash40(5)));
    initialize_share(&mut lut, &vec![7, 8], &vec![Some(1), Some(1)]);
    assert_eq!(get_shared_file(&lut, Hash40(6), 0), Some(Hash40(5)));
    assert_eq!(get_shared_file_count(&lut, Hash40(8)), 0);
}

fn tables() -> ArcTables {
    ArcTables {
        dir_hashes: vec![0xD0, 0xD1],
        dir_file_start: vec![0, 2],
        dir_file_count: vec![2, 1],
        file_info_path: vec![1, 0, 2],
        path_hashes: vec![0x100, 0x101, 0x102],
    }
}

#[test]
fn unshare_lookup_places_each_file() {
    let mut lut: Option<UnshareLookup> = None;
    initialize_unshare(&mut lut, &tables());
    assert_eq!(get_dir_entry_for_file(&lut, Hash40(0x101)), Some((Hash40(0xD0), 0)));
    assert_eq!(get_dir_entry_for_file(&lut, Hash40(0x100)), Some((Hash40(0xD0), 1)));
    assert_eq!(get_dir_entry_for_file(&lut, Hash40(0x102)), Some((Hash40(0xD1), 0)));
    assert_eq!(get_dir_entry_for_file(&lut, Hash40(0x999)), None);
    assert_eq!(get_dir_entry_for_file(&None, Hash40(0x101)), None);
}

#[test]
fn later_directory_wins_for_a_repeated_path() {
    let mut t = tables();
    t.file_info_path = vec![1, 0, 1];
    let lut = Some(UnshareLookup::build(&t));
    assert_eq!(get_dir_entry_for_file(&lut, Hash40(0x101)), Some((Hash40(0xD1), 0)));
}
