use arcropolis::replacement_files::gather::{gather_mods, patch_mod_sizes};
use arcropolis::replacement_files::{CallbackEntry, FileIndex};
use arcropolis::visit::ModFile;
use std::collections::HashMap;

use arcropolis::hashing::Hash40;
use arcropolis::replacement::extensions::FileInfoFlags;
use arcropolis::unsharing::{
    get_shared_file, recreate_dir_path_to_index, recreate_path_to_index, reshare_directory, unshare_file, unshare_files, unshare_recursively, DirRec, DirTables, FileDataRec, FileInfoRec,
    FilePathRec, FileTables, InfoIndexRec, InfoToDataRec, UnshareError, UnsharePolicy, UnshareState, FIRST_BANK_ID,
};

const NUS3BANK: u64 = 0x8_8c004f33;

/// Path 1 keeps its data at path 0, through the one info-index entry.
fn tables(ext1: u64) -> FileTables {
    FileTables {
        file_paths: vec![
            FilePathRec { path_hash: 0xA0, path_index: 0, ext_hash: 1 },
            FilePathRec { path_hash: 0xA1, path_index: 0, ext_hash: ext1 },
        ],
        info_indices: vec![InfoIndexRec { dir_offset_index: 5, file_info_index: 0 }],
        file_infos: vec![
            FileInfoRec { file_path_index: 0, file_info_indice_index: 0, info_to_data_index: 0, flags: FileInfoFlags::from_bits(0) },
            FileInfoRec { file_path_index: 1, file_info_indice_index: 0, info_to_data_index: 0, flags: FileInfoFlags::from_bits(0) },
        ],
        info_to_datas: vec![InfoToDataRec { folder_offset_index: 3, file_data_index: 0, load_bits: 9 }],
        datas: vec![FileDataRec { offset_in_folder: 1, comp_size: 2, decomp_size: 3, flags: 4 }],
        loaded_data_len: 1,
    }
}

#[test]
fn shared_file_follows_the_chain() {
    let t = tables(1);
    assert_eq!(get_shared_file(&t, 1), Some(0));
    assert_eq!(get_shared_file(&t, 0), Some(0));
}

#[test]
fn unsharing_gives_the_file_its_own_entries() {
    let mut t = tables(1);
    let mut state = UnshareState::new();
    unshare_file(&mut t, &mut state, 7, 1, 100, 0);
    assert_eq!(t.file_infos.len(), 3);
    assert_eq!(t.info_indices.len(), 2);
    assert_eq!(t.info_to_datas.len(), 2);
    assert_eq!(t.datas.len(), 2);
    assert_eq!(t.file_paths[1].path_index, 1);
    assert_eq!(t.info_indices[1].file_info_index, 2);
    assert_eq!(t.info_indices[1].dir_offset_index, 5);
    assert_eq!(t.file_infos[1].file_info_indice_index, 1);
    assert_eq!(t.file_infos[2].file_path_index, 1);
    assert_eq!(t.file_infos[2].info_to_data_index, 1);
    assert_eq!(t.info_to_datas[1].file_data_index, 1);
    assert_eq!(t.info_to_datas[1].folder_offset_index, 3);
    assert_eq!(t.datas[1].decomp_size, 3);
    assert_eq!(t.loaded_data_len, 2);
    // the file now holds its own data
    assert_eq!(get_shared_file(&t, 1), Some(1));
    assert_eq!(get_shared_file(&t, 0), Some(0));
    assert_eq!(state.next_bank_id, FIRST_BANK_ID);
}

#[test]
fn unsharing_twice_changes_nothing_more() {
    let mut t = tables(1);
    let mut state = UnshareState::new();
    unshare_file(&mut t, &mut state, 7, 1, 100, 0);
    unshare_file(&mut t, &mut state, 7, 1, 100, 0);
    assert_eq!(t.file_infos.len(), 3);
    assert_eq!(t.datas.len(), 2);
}

#[test]
fn file_that_holds_its_data_is_left_alone() {
    let mut t = tables(1);
    let mut state = UnshareState::new();
    unshare_file(&mut t, &mut state, 7, 0, 100, 0);
    assert_eq!(t.file_infos.len(), 2);
    assert_eq!(t.loaded_data_len, 1);
    // past the shared data, it is copied anyway
    unshare_file(&mut t, &mut state, 8, 0, 0, 0);
    assert_eq!(t.file_infos.len(), 3);
}

#[test]
fn sound_banks_get_ids() {
    let mut t = tables(NUS3BANK);
    let mut state = UnshareState::new();
    unshare_file(&mut t, &mut state, 7, 1, 100, 0);
    assert_eq!(state.unshared_banks.get(&0xA1), Some(&FIRST_BANK_ID));
    assert_eq!(state.next_bank_id, FIRST_BANK_ID + 1);
}

#[test]
fn regional_file_takes_the_users_region() {
    let mut t = tables(1);
    t.file_infos[0].flags = FileInfoFlags::from_bits(0x8000);
    t.info_to_datas.push(InfoToDataRec { folder_offset_index: 30, file_data_index: 0, load_bits: 0 });
    t.info_to_datas.push(InfoToDataRec { folder_offset_index: 31, file_data_index: 0, load_bits: 0 });
    let mut state = UnshareState::new();
    unshare_file(&mut t, &mut state, 7, 1, 100, 2);
    assert_eq!(t.info_to_datas[3].folder_offset_index, 31);
    assert!(!t.file_infos[2].flags.is_regional());
}

fn dirs() -> DirTables {
    DirTables {
        dirs: vec![DirRec {
            path_hash: 0xD0,
            group_index: 0,
            file_info_start: 0,
            file_count: 2,
            child_dir_start: 0,
            child_dir_count: 0,
            redirected: true,
            is_symlink: false,
        }],
        child_hashes: Vec::new(),
        dir_hash_to_index: vec![(0xD0, 0)],
        group_dir_index: vec![42],
    }
}

fn policy(on_discovery: Vec<u64>) -> UnsharePolicy {
    UnsharePolicy {
        blacklisted_dirs: Vec::new(),
        blacklisted_files: Vec::new(),
        unshare_on_discovery: on_discovery,
        shared_data_idx: 100,
        region: 0,
    }
}

#[test]
fn directory_unsharing_copies_shared_files() {
    let mut t = tables(1);
    let mut d = dirs();
    let mut state = UnshareState::new();
    let mut deferred: HashMap<u64, (u32, usize)> = HashMap::new();
    assert_eq!(unshare_recursively(&mut t, &mut d, &mut state, &mut deferred, Hash40(0xD0), &policy(Vec::new())), Ok(()));
    assert_eq!(d.group_dir_index[0], 0xFF_FFFF);
    assert_eq!(t.file_infos.len(), 3);
    assert_eq!(get_shared_file(&t, 1), Some(1));
    assert!(deferred.is_empty());
    let done = state.unshared_files.get(&0).unwrap();
    assert!(done.contains(&0) && done.contains(&1));
}

#[test]
fn deferred_extensions_wait_for_discovery() {
    let mut t = tables(77);
    let mut d = dirs();
    let mut state = UnshareState::new();
    let mut deferred: HashMap<u64, (u32, usize)> = HashMap::new();
    assert_eq!(unshare_files(&mut t, &mut d, &mut state, &mut deferred, Hash40(0xD0), &policy(vec![77])), Ok(()));
    assert_eq!(t.file_infos.len(), 2);
    assert_eq!(deferred.get(&0xA1), Some(&(0, 1)));
    assert!(!state.unshared_files.get(&0).unwrap().contains(&1));
    assert_eq!(t.loaded_data_len, 1);
}

#[test]
fn unknown_or_blacklisted_directories_are_skipped() {
    let mut t = tables(1);
    let mut d = dirs();
    let mut state = UnshareState::new();
    let mut deferred: HashMap<u64, (u32, usize)> = HashMap::new();
    assert_eq!(unshare_recursively(&mut t, &mut d, &mut state, &mut deferred, Hash40(0xEE), &policy(Vec::new())), Ok(()));
    let mut pol = policy(Vec::new());
    pol.blacklisted_dirs = vec![0xD0];
    assert_eq!(unshare_recursively(&mut t, &mut d, &mut state, &mut deferred, Hash40(0xD0), &pol), Ok(()));
    assert_eq!(t.file_infos.len(), 2);
    assert_eq!(d.group_dir_index[0], 42);
}

#[test]
fn no_room_for_new_ids_stops() {
    let mut t = tables(1);
    let mut d = dirs();
    let mut state = UnshareState::new();
    state.next_bank_id = 0xFFFF_FFFE;
    let mut deferred: HashMap<u64, (u32, usize)> = HashMap::new();
    assert_eq!(
        unshare_recursively(&mut t, &mut d, &mut state, &mut deferred, Hash40(0xD0), &policy(Vec::new())),
        Err(UnshareError::TablesFull)
    );
}

fn two_dirs() -> DirTables {
    let dir = |hash: u64, start: u32| DirRec {
        path_hash: hash,
        group_index: 0,
        file_info_start: start,
        file_count: 1,
        child_dir_start: 0,
        child_dir_count: 0,
        redirected: false,
        is_symlink: false,
    };
    DirTables {
        dirs: vec![dir(0xA, 1), dir(0xB, 0)],
        child_hashes: Vec::new(),
        dir_hash_to_index: vec![(0xA, 0), (0xB, 1)],
        group_dir_index: vec![42],
    }
}

#[test]
fn resharing_points_files_with_the_same_data_at_the_source_path() {
    let mut t = tables(1);
    assert_eq!(t.file_infos[1].file_path_index, 1);
    reshare_directory(&mut t, &two_dirs(), Hash40(0xA), Hash40(0xB));
    assert_eq!(t.file_infos[1].file_path_index, 0);
    assert_eq!(t.file_infos[0].file_path_index, 0);
}

#[test]
fn resharing_leaves_files_with_other_data_alone() {
    let mut t = tables(1);
    let mut state = UnshareState::new();
    unshare_file(&mut t, &mut state, 7, 1, 100, 0);
    reshare_directory(&mut t, &two_dirs(), Hash40(0xA), Hash40(0xB));
    assert_eq!(t.file_infos[1].file_path_index, 1);
    // an unknown directory changes nothing
    let mut u = tables(1);
    reshare_directory(&mut u, &two_dirs(), Hash40(0xA), Hash40(0xC));
    assert_eq!(u.file_infos[1].file_path_index, 1);
}

#[test]
fn path_table_recreated_by_bucket() {
    let hashes = vec![7u64, 2, 5, 4];
    let (table, headers) = recreate_path_to_index(&hashes, 2);
    // bucket 0 holds the even hashes sorted, bucket 1 the odd ones
    assert_eq!(table, vec![(2, 1), (4, 3), (5, 2), (7, 0)]);
    assert_eq!(headers, vec![(0, 2), (0, 2), (2, 2)]);
}

#[test]
fn dir_table_recreated_sorted() {
    let hashes = vec![30u64, 10, 20];
    assert_eq!(recreate_dir_path_to_index(&hashes), vec![(10, 1), (20, 2), (30, 0)]);
}

#[test]
fn file_infos_sharing_an_index_entry() {
    let t = tables(1);
    let path = t.file_paths[1];
    let shared = arcropolis::runtime::get_shared_fileinfos(&t, &path);
    assert_eq!(shared.len(), 2);
    assert_eq!(shared[0].file_path_index, 0);
    assert_eq!(shared[1].file_path_index, 1);
    let other = FilePathRec { path_hash: 1, path_index: 5, ext_hash: 0 };
    assert!(arcropolis::runtime::get_shared_fileinfos(&t, &other).is_empty());
}

#[test]
fn gathering_patches_sizes_and_unshares_queued_files() {
    // without a queue: both paths resolve to info-indice index 0, one backup
    let mut t = tables(1);
    let mut state = UnshareState::new();
    let mut queue: HashMap<u64, (u32, usize)> = HashMap::new();
    let mods = vec![(Hash40(0xA1), ModFile::with_size("a1.bin".to_string(), 10))];
    let (files, backups) =
        gather_mods::<u8>(&mut t, &mut state, &mut queue, mods, Vec::new(), Vec::<CallbackEntry<u8>>::new(), 100, 0);
    assert_eq!(files.len(), 1);
    assert!(matches!(files[0].0, FileIndex::Regular(0)));
    assert_eq!(backups, vec![(0, 3)]);
    assert_eq!(t.datas[0].decomp_size, 10);
    // a queued file is unshared first, and then resolves to its own entry
    let mut t = tables(1);
    let mut state = UnshareState::new();
    let mut queue: HashMap<u64, (u32, usize)> = HashMap::new();
    queue.insert(0xA1, (7, 1));
    let mods = vec![(Hash40(0xA1), ModFile::with_size("a1.bin".to_string(), 2))];
    let (files, backups) =
        gather_mods::<u8>(&mut t, &mut state, &mut queue, mods, Vec::new(), Vec::<CallbackEntry<u8>>::new(), 100, 0);
    assert!(queue.is_empty());
    assert_eq!(t.file_infos.len(), 3);
    assert!(matches!(files[0].0, FileIndex::Regular(1)));
    // the size stays, as the copy is larger; the backup names the copy
    assert_eq!(backups, vec![(1, 3)]);
    assert_eq!(t.datas[1].decomp_size, 3);
    assert_eq!(t.datas[0].decomp_size, 3);
    // sizes alone; streamed files get no backup
    let mut t = tables(1);
    let list = vec![
        (FileIndex::Stream(Hash40(5)), arcropolis::replacement_files::FileCtx::<u8>::new()),
    ];
    assert!(patch_mod_sizes(&list, &mut t, 0).is_empty());
}
