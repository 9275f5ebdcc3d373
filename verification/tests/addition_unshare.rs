use std::collections::{HashMap, HashSet};

use arcropolis::replacement::extensions::{apply_context, FileInfoFlags, FileInfoFlagsExt};
use arcropolis::runtime::FsHeaderCounts;
use arcropolis::replacement::file_groups::{reshare_file_group, reshare_file_groups};
use arcropolis::replacement::lookup::{ShareLookup, UnshareLookup};
use arcropolis::replacement::preprocess::{reshare_contained_files, shared_file_by_hash};
use arcropolis::replacement::resort::{resort_file_hashes, resort_folder_paths, resort_paths};
use arcropolis::replacement::unshare::{reshare_dependent_files, unshare_file, unshare_files, AdditionContext};
use arcropolis::unsharing::{DirTables, DirRec, FileDataRec, FileInfoRec, FilePathRec, FileTables, GroupRec, InfoIndexRec, InfoToDataRec};

const A: u64 = 0x05_AAAA_AAAA;
const B: u64 = 0x05_BBBB_BBBB;
const C: u64 = 0x05_CCCC_CCCC;
const DIR: u64 = 0x03_D0D0_D0D0;

fn info(path: u32, ii: u32) -> FileInfoRec {
    FileInfoRec { file_path_index: path, file_info_indice_index: ii, info_to_data_index: 0, flags: FileInfoFlags::from_bits(0) }
}

/// Paths B and C share the data of path A; all three are files of one
/// directory.
fn files() -> FileTables {
    FileTables {
        file_paths: vec![
            FilePathRec { path_hash: A, path_index: 0, ext_hash: 1 },
            FilePathRec { path_hash: B, path_index: 0, ext_hash: 1 },
            FilePathRec { path_hash: C, path_index: 0, ext_hash: 1 },
        ],
        info_indices: vec![InfoIndexRec { dir_offset_index: 0, file_info_index: 0 }],
        file_infos: vec![info(0, 0), info(1, 0), info(2, 0)],
        info_to_datas: vec![InfoToDataRec { folder_offset_index: 3, file_data_index: 0, load_bits: 9 }],
        datas: vec![FileDataRec { offset_in_folder: 1, comp_size: 2, decomp_size: 3, flags: 4 }],
        loaded_data_len: 1,
    }
}

fn tables() -> AdditionContext {
    AdditionContext {
        files: files(),
        arc: files(),
        dirs: vec![DirRec {
            path_hash: DIR,
            group_index: 0,
            file_info_start: 0,
            file_count: 3,
            child_dir_start: 0,
            child_dir_count: 0,
            redirected: false,
            is_symlink: false,
        }],
        dir_hash_to_index: vec![(DIR, 0)],
        loaded_filepaths: 0,
    }
}

fn share() -> Option<ShareLookup> {
    let mut shared = HashSet::new();
    shared.insert(A);
    shared.insert(B);
    shared.insert(C);
    let mut lists = HashMap::new();
    lists.insert(A, vec![B, C]);
    Some(ShareLookup { is_shared_search: shared, shared_file_lookup: lists })
}

fn places() -> Option<UnshareLookup> {
    let mut entries = HashMap::new();
    entries.insert(A, (DIR, 0usize));
    entries.insert(B, (DIR, 1usize));
    entries.insert(C, (DIR, 2usize));
    Some(UnshareLookup { entries })
}

#[test]
fn unsharing_a_sharer_gives_it_its_own_chain() {
    let mut t = tables();
    let mut s = share();
    unshare_file(&mut t, &mut s, &places(), &HashSet::new(), B, 0, 0);
    let f = &t.files;
    assert_eq!(f.file_paths[1].path_index, 1);
    assert_eq!(f.info_indices.len(), 2);
    assert_eq!(f.info_indices[1].dir_offset_index, 0xFF_FFFF);
    assert_eq!(f.info_indices[1].file_info_index, 3);
    assert_eq!(f.file_infos.len(), 4);
    assert_eq!(f.file_infos[3].file_path_index, 1);
    assert_eq!(f.file_infos[3].file_info_indice_index, 1);
    assert_eq!(f.file_infos[3].info_to_data_index, 1);
    assert!(f.file_infos[3].flags.standalone_file());
    assert!(!f.file_infos[3].flags.unshared_nus3bank());
    assert_eq!(f.file_infos[1].file_info_indice_index, 1);
    assert!(f.file_infos[1].flags.standalone_file());
    assert_eq!(f.info_to_datas[1].file_data_index, 1);
    assert_eq!(f.info_to_datas[1].folder_offset_index, 3);
    assert_eq!(f.datas.len(), 2);
    // the source file is marked standalone
    assert!(f.file_infos[0].flags.standalone_file());
    // C is untouched
    assert_eq!(f.file_paths[2].path_index, 0);
    assert!(!s.as_ref().unwrap().is_shared_search.contains(&B));
    assert!(s.as_ref().unwrap().is_shared_search.contains(&C));
    assert_eq!(t.loaded_filepaths, 0);
}

#[test]
fn unsharing_the_source_reshares_its_sharers_first() {
    let mut t = tables();
    let mut s = share();
    unshare_file(&mut t, &mut s, &places(), &HashSet::new(), A, 0, 0);
    let f = &t.files;
    // the fresh copy of the shared data
    assert_eq!(f.file_paths.len(), 4);
    assert_eq!(f.file_paths[3].path_hash, 0xFF_AAAA_AAAA);
    assert_eq!(f.file_paths[3].path_index, 1);
    assert_eq!(f.info_indices[1].file_info_index, 3);
    assert_eq!(f.file_infos[3].file_path_index, 3);
    // the sharers now load through it
    assert_eq!(f.file_paths[1].path_index, 1);
    assert_eq!(f.file_paths[2].path_index, 1);
    assert_eq!(f.file_infos[1].file_info_indice_index, 1);
    assert_eq!(f.file_infos[2].file_info_indice_index, 1);
    // and the source has a chain of its own
    assert_eq!(f.file_paths[0].path_index, 2);
    assert_eq!(f.info_indices[2].file_info_index, 4);
    assert_eq!(f.file_infos[4].file_path_index, 0);
    assert_eq!(f.file_infos[4].info_to_data_index, 2);
    assert!(f.file_infos[4].flags.standalone_file());
    assert_eq!(f.datas.len(), 3);
    assert_eq!(t.loaded_filepaths, 1);
    assert!(!s.as_ref().unwrap().is_shared_search.contains(&A));
}

#[test]
fn a_source_before_the_shared_data_keeps_its_data() {
    let mut t = tables();
    let mut s = share();
    unshare_file(&mut t, &mut s, &places(), &HashSet::new(), A, 0, 5);
    let f = &t.files;
    assert_eq!(f.file_paths.len(), 4);
    assert_eq!(f.file_paths[0].path_index, 0);
    assert_eq!(f.info_indices.len(), 2);
    assert!(f.file_infos[0].flags.standalone_file());
    assert!(s.as_ref().unwrap().is_shared_search.contains(&A));
}

#[test]
fn ignored_and_unshared_files_are_left_alone() {
    let mut t = tables();
    let mut s = share();
    let mut ignore = HashSet::new();
    ignore.insert(B);
    unshare_file(&mut t, &mut s, &places(), &ignore, B, 0, 0);
    assert_eq!(t.files.file_infos.len(), 3);
    let mut none: Option<ShareLookup> = None;
    unshare_file(&mut t, &mut none, &places(), &HashSet::new(), C, 0, 0);
    assert_eq!(t.files.file_infos.len(), 3);
}

#[test]
fn resharing_skips_ignored_sharers() {
    let mut t = tables();
    let s = share();
    let mut ignore = HashSet::new();
    ignore.insert(C);
    reshare_dependent_files(&mut t, &s, &places(), &ignore, A, 0);
    assert_eq!(t.files.file_paths[1].path_index, 1);
    assert_eq!(t.files.file_paths[2].path_index, 0);
    assert_eq!(t.loaded_filepaths, 1);
    // a file nobody shares is not reshared
    reshare_dependent_files(&mut t, &s, &places(), &HashSet::new(), B, 0);
    assert_eq!(t.files.file_paths.len(), 4);
}

#[test]
fn unshare_files_handles_each_in_turn() {
    let mut t = tables();
    let mut s = share();
    unshare_files(&mut t, &mut s, &places(), &HashSet::new(), &vec![B, C], 0, 0);
    assert_eq!(t.files.file_paths[1].path_index, 1);
    assert_eq!(t.files.file_paths[2].path_index, 2);
    assert_eq!(t.files.file_infos.len(), 5);
    assert!(s.as_ref().unwrap().is_shared_search.contains(&A));
    assert!(!s.as_ref().unwrap().is_shared_search.contains(&C));
}

/// File infos 0 and 1 are a directory's; 2 and 3 the group it links to,
/// whose file infos load through file info 2.
fn group_files() -> FileTables {
    FileTables {
        file_paths: vec![FilePathRec { path_hash: A, path_index: 0, ext_hash: 1 }],
        info_indices: vec![
            InfoIndexRec { dir_offset_index: 0, file_info_index: 0 },
            InfoIndexRec { dir_offset_index: 0, file_info_index: 2 },
        ],
        file_infos: vec![info(0, 0), info(0, 1), info(0, 1), info(0, 1)],
        info_to_datas: vec![InfoToDataRec { folder_offset_index: 0, file_data_index: 0, load_bits: 0 }],
        datas: vec![FileDataRec { offset_in_folder: 0, comp_size: 0, decomp_size: 0, flags: 0 }],
        loaded_data_len: 1,
    }
}

fn group_ctx(dirs: Vec<DirRec>) -> AdditionContext {
    AdditionContext { files: group_files(), arc: group_files(), dirs, dir_hash_to_index: vec![], loaded_filepaths: 0 }
}

#[test]
fn relinking_a_group_makes_linked_files_standalone() {
    let mut ctx = group_ctx(vec![]);
    assert_eq!(ctx.get_shared_info_index(1), Some(2));
    assert_eq!(ctx.get_shared_info_index(0), Some(0));
    reshare_file_group(&mut ctx, 0, 2, 2, 2, 0, 0);
    // file info 0 loads through itself; file info 1 through the group
    assert!(!ctx.files.file_infos[0].flags.standalone_file());
    assert!(ctx.files.file_infos[1].flags.standalone_file());
    assert!(!ctx.files.file_infos[2].flags.standalone_file());
}

#[test]
fn relinking_every_directory_cuts_the_group_links() {
    let dirs = vec![DirRec {
        path_hash: DIR,
        group_index: 0,
        file_info_start: 0,
        file_count: 2,
        child_dir_start: 0,
        child_dir_count: 0,
        redirected: true,
        is_symlink: false,
    }];
    let mut groups = vec![
        GroupRec { directory_index: 1, file_start: 0, file_count: 2 },
        GroupRec { directory_index: 0, file_start: 2, file_count: 2 },
    ];
    let mut ctx = group_ctx(dirs);
    reshare_file_groups(&mut ctx, &mut groups, 0, 0);
    assert_eq!(groups[0].directory_index, 0xFF_FFFF);
    assert_eq!(groups[1].directory_index, 0);
    assert!(ctx.files.file_infos[1].flags.standalone_file());
}

fn contained_tables() -> FileTables {
    let path = |h: u64, i: u32| FilePathRec { path_hash: h, path_index: i, ext_hash: 0 };
    FileTables {
        file_paths: vec![path(A, 0), path(B, 1), path(0xA2, 0), path(0xB2, 2)],
        info_indices: vec![
            InfoIndexRec { dir_offset_index: 0, file_info_index: 0 },
            InfoIndexRec { dir_offset_index: 0, file_info_index: 1 },
            InfoIndexRec { dir_offset_index: 0, file_info_index: 3 },
        ],
        file_infos: vec![info(0, 0), info(1, 1), info(2, 0), info(3, 2)],
        info_to_datas: vec![InfoToDataRec { folder_offset_index: 0, file_data_index: 0, load_bits: 0 }],
        datas: vec![FileDataRec { offset_in_folder: 0, comp_size: 0, decomp_size: 0, flags: 0 }],
        loaded_data_len: 1,
    }
}

#[test]
fn contained_files_are_pointed_at_the_source_files() {
    let dir = |h: u64, start: u32| DirRec {
        path_hash: h,
        group_index: 0,
        file_info_start: start,
        file_count: 2,
        child_dir_start: 0,
        child_dir_count: 0,
        redirected: false,
        is_symlink: false,
    };
    let mut ctx = AdditionContext {
        files: contained_tables(),
        arc: contained_tables(),
        dirs: vec![dir(0x51, 0), dir(0xD1, 2)],
        dir_hash_to_index: vec![(0x51, 0), (0xD1, 1)],
        loaded_filepaths: 0,
    };
    assert_eq!(shared_file_by_hash(&ctx.arc, B), Some(1));
    let reshared = reshare_contained_files(&mut ctx, 0xD1, 0x51);
    assert_eq!(reshared.len(), 1);
    assert!(reshared.contains(&0xA2));
    assert_eq!(ctx.files.file_infos[2].file_path_index, 0);
    assert_eq!(ctx.files.file_infos[3].file_path_index, 3);
    // an unknown directory changes nothing
    let none = reshare_contained_files(&mut ctx, 0x99, 0x51);
    assert!(none.is_empty());
}

#[test]
fn file_hashes_are_bucketed_and_sorted() {
    let (table, buckets) = resort_file_hashes(&vec![5, 2, 7, 4], 2);
    assert_eq!(table, vec![(2, 1), (4, 3), (5, 0), (7, 2)]);
    assert_eq!(buckets, vec![(0, 2), (2, 2)]);
    let (table, buckets) = resort_file_hashes(&vec![], 3);
    assert!(table.is_empty());
    assert_eq!(buckets, vec![(0, 0), (0, 0), (0, 0)]);
}

#[test]
fn search_paths_are_sorted_with_their_links() {
    assert_eq!(resort_folder_paths(&vec![9, 3, 5]), vec![(3, 1), (5, 2), (9, 0)]);
    let table = resort_paths(&vec![0x30, 0x10, 0x20], &vec![2, 0xFFFF_FFFF, 0, 0xFF_FFFF]);
    assert_eq!(table, vec![(0x10, 0xFF_FFFF), (0x20, 0), (0x30, 2)]);
}

#[test]
fn directory_found_at_the_position_of_its_pair() {
    let mut t = tables();
    assert_eq!(t.get_dir_info_from_hash_ctx(DIR).map(|d| d.path_hash), Some(DIR));
    assert!(t.get_dir_info_from_hash_ctx(A).is_none());
    // the pair's position picks the directory, not the index it holds
    let mut second = t.dirs[0];
    second.path_hash = 0x77;
    t.dirs.push(second);
    t.dir_hash_to_index = vec![(0x77, 0), (DIR, 0)];
    assert_eq!(t.get_dir_info_from_hash_ctx(DIR).map(|d| d.path_hash), Some(0x77));
    assert_eq!(t.get_dir_info_from_hash_ctx(0x77).map(|d| d.path_hash), Some(DIR));
}

#[test]
fn directory_changed_in_place() {
    let mut t = tables();
    if let Some(d) = t.get_dir_info_from_hash_ctx_mut(DIR) {
        d.file_count = 9;
    }
    assert_eq!(t.dirs[0].file_count, 9);
    assert!(t.get_dir_info_from_hash_ctx_mut(A).is_none());
}

#[test]
fn context_tables_installed() {
    let mut ctx = tables();
    ctx.dirs.push(ctx.dirs[0]);
    ctx.loaded_filepaths = 4;
    ctx.dir_hash_to_index = vec![(9, 1), (DIR, 0), (4, 1)];
    ctx.files.datas.push(FileDataRec { offset_in_folder: 0, comp_size: 0, decomp_size: 0, flags: 0 });
    let mut t = FileTables {
        file_paths: Vec::new(),
        info_indices: Vec::new(),
        file_infos: Vec::new(),
        info_to_datas: Vec::new(),
        datas: Vec::new(),
        loaded_data_len: 0,
    };
    let mut d = DirTables { dirs: Vec::new(), child_hashes: vec![7], dir_hash_to_index: Vec::new(), group_dir_index: vec![1] };
    let mut hdr = FsHeaderCounts {
        folder_count: 0,
        file_info_path_count: 0,
        file_info_index_count: 0,
        file_info_count: 0,
        file_info_sub_index_count: 0,
        file_data_count: 0,
        file_data_count_2: 5,
        extra_count: 0,
        extra_count_2: 0,
        folder_offset_count_1: 0,
        folder_offset_count_2: 0,
    };
    let mut loaded_paths: u32 = 0;
    let (table, buckets) = apply_context(&mut t, &mut d, &mut hdr, &mut loaded_paths, ctx, 1);
    assert_eq!(loaded_paths, 4);
    assert_eq!(t.file_paths.len(), 3);
    assert_eq!(hdr.file_info_path_count, 3);
    assert_eq!(hdr.file_info_index_count, 1);
    assert_eq!(hdr.file_info_count, 3);
    assert_eq!(hdr.file_data_count, 2);
    assert_eq!(hdr.folder_count, 2);
    assert_eq!(hdr.file_data_count_2, 5);
    assert_eq!(d.dir_hash_to_index, vec![(4, 1), (9, 1), (DIR, 0)]);
    assert_eq!(d.child_hashes, vec![7]);
    assert_eq!(table, vec![(A, 0), (B, 1), (C, 2)]);
    assert_eq!(buckets, vec![(0, 3)]);
}
