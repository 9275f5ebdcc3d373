use arcropolis::remote::arc::Lookup;
use arcropolis::remote::table::{
    handle_get_broken_filepaths, handle_get_filepath_table_entry, handle_get_loaded_data_table_entry,
    handle_get_loaded_directory_table_entry, LoadedDataAnswer, LoadedDirectoryAnswer,
};
use arcropolis::replacement::extensions::FileInfoFlags;
use arcropolis::unsharing::{FileDataRec, FileInfoRec, FilePathRec, FileTables, InfoIndexRec, InfoToDataRec};
use arcropolis::remote::table::{
    check_directory, find_dir_by_hash, handle_check_directory, ArcDirs, CheckInfoType, CheckLine, CheckOutput,
    DirInfoEntry, FileStatus,
};
use arcropolis::resource::containers::CppVector;
use arcropolis::resource::types::{
    broken_filepaths, data_for, BrokenReason, FilesystemInfo, LoadState, LoadedData, LoadedDirectory, LoadedFilepath,
};
use arcropolis::hashing::Hash40;

fn data(state: LoadState, ref_count: u32, addr: usize) -> LoadedData {
    LoadedData { data: addr, ref_count, is_used: true, state, file_flags2: false, flags: 0, version: 0, unk: 0 }
}

fn dir(paths: &[u32], state: LoadState) -> LoadedDirectory {
    LoadedDirectory {
        file_group_index: 0,
        ref_count: 1,
        flags: 0,
        state,
        incoming_request_count: 0,
        child_path_indices: CppVector::from_slice(paths),
        child_folders: CppVector::new(),
        redirection_directory: 0,
    }
}

/// Two directories: 0 holds paths 0 and 1 and has child 1; 1 holds path 2.
fn sample() -> (FilesystemInfo, ArcDirs) {
    let fs = FilesystemInfo {
        loaded_filepaths: vec![
            LoadedFilepath { loaded_data_index: 0, is_loaded: 1 },
            LoadedFilepath { loaded_data_index: 7, is_loaded: 0 },
            LoadedFilepath { loaded_data_index: 1, is_loaded: 1 },
        ],
        loaded_datas: vec![data(LoadState::Loaded, 3, 0x1000), data(LoadState::Unloaded, 0, 0)],
        loaded_directories: vec![dir(&[0, 1], LoadState::Loaded), dir(&[2], LoadState::Unloaded)],
    };
    let arc = ArcDirs {
        dir_infos: vec![
            DirInfoEntry { path_hash: 0xAA, file_count: 2, child_dir_start: 0, child_dir_count: 1 },
            DirInfoEntry { path_hash: 0xBB, file_count: 1, child_dir_start: 1, child_dir_count: 0 },
        ],
        child_dir_index: vec![1],
        path_hashes: vec![0x10, 0x11, 0x12],
        dir_hash_to_index: vec![(0xBB, 1), (0xAA, 0)],
    };
    (fs, arc)
}

#[test]
fn check_lists_files_and_children() {
    let (fs, arc) = sample();
    let lines = check_directory(&fs, &arc, 0, false, false, CheckInfoType::State);
    assert_eq!(
        lines,
        vec![
            CheckLine::Named(0xAA),
            CheckLine::Files { level: 0, in_vector: 2, file_count: Some(2) },
            CheckLine::File { level: 0, hash: 0x10, status: FileStatus::State(LoadState::Loaded) },
            CheckLine::File { level: 0, hash: 0x11, status: FileStatus::Invalid },
            CheckLine::Child { level: 0, hash: 0xBB, state: LoadState::Unloaded },
            CheckLine::Files { level: 1, in_vector: 1, file_count: Some(1) },
            CheckLine::File { level: 1, hash: 0x12, status: FileStatus::State(LoadState::Unloaded) },
        ]
    );
}

#[test]
fn check_unloaded_only_with_ref_counts() {
    let (fs, arc) = sample();
    let lines = check_directory(&fs, &arc, 0, false, true, CheckInfoType::RefCount);
    assert_eq!(lines[2], CheckLine::File { level: 0, hash: 0x11, status: FileStatus::Invalid });
    assert_eq!(lines.len(), 6);
    assert_eq!(lines[5], CheckLine::File { level: 1, hash: 0x12, status: FileStatus::RefCount(0) });
}

#[test]
fn check_data_indices_and_pointers() {
    let (fs, arc) = sample();
    let lines = check_directory(&fs, &arc, 0, true, false, CheckInfoType::Pointer);
    assert_eq!(lines[2], CheckLine::File { level: 0, hash: 0x10, status: FileStatus::DataIndex(0) });
    assert_eq!(lines[3], CheckLine::File { level: 0, hash: 0x11, status: FileStatus::DataIndex(7) });
    let lines = check_directory(&fs, &arc, 0, false, false, CheckInfoType::Pointer);
    assert_eq!(lines[2], CheckLine::File { level: 0, hash: 0x10, status: FileStatus::Pointer(0x1000) });
}

#[test]
fn check_directory_the_archive_does_not_know() {
    let (mut fs, arc) = sample();
    fs.loaded_directories.push(dir(&[], LoadState::Unused));
    let lines = check_directory(&fs, &arc, 2, false, false, CheckInfoType::State);
    assert_eq!(lines, vec![CheckLine::Numbered(2), CheckLine::Files { level: 0, in_vector: 0, file_count: None }]);
}

#[test]
fn directory_found_by_first_matching_hash() {
    let (_, arc) = sample();
    assert_eq!(find_dir_by_hash(&arc, Hash40(0xAA)), Some(0));
    assert_eq!(find_dir_by_hash(&arc, Hash40(0xCC)), None);
}

fn args(list: &[&str]) -> Vec<String> {
    list.iter().map(|s| s.to_string()).collect()
}

#[test]
fn check_command_answers() {
    let (fs, arc) = sample();
    assert!(matches!(handle_check_directory(&fs, &arc, args(&["-p"])), CheckOutput::Usage));
    assert!(matches!(handle_check_directory(&fs, &arc, args(&["-h", "0xCC"])), CheckOutput::Missing));
    assert!(matches!(handle_check_directory(&fs, &arc, args(&["-i", "9"])), CheckOutput::OutOfBounds));
    match handle_check_directory(&fs, &arc, args(&["-p", "-h", "0xBB", "-u", "--pointer"])) {
        CheckOutput::Lines { pretty, lines } => {
            assert!(pretty);
            assert_eq!(
                lines,
                vec![
                    CheckLine::Named(0xBB),
                    CheckLine::Files { level: 0, in_vector: 1, file_count: Some(1) },
                    CheckLine::File { level: 0, hash: 0x12, status: FileStatus::Pointer(0) },
                ]
            );
        },
        _ => panic!("expected lines"),
    }
}

#[test]
fn broken_paths_are_reported_with_reason() {
    let t1 = vec![
        LoadedFilepath { loaded_data_index: 0xFF_FFFF, is_loaded: 1 },
        LoadedFilepath { loaded_data_index: 0, is_loaded: 1 },
        LoadedFilepath { loaded_data_index: 1, is_loaded: 1 },
        LoadedFilepath { loaded_data_index: 0xFF_FFFF, is_loaded: 0 },
    ];
    let t2 = vec![data(LoadState::Unloaded, 0, 0), data(LoadState::Loaded, 1, 4)];
    assert_eq!(broken_filepaths(&t1, &t2), vec![(0, BrokenReason::InvalidDataIdx), (1, BrokenReason::DataUnloaded)]);
    assert_eq!(*data_for(&t2, &t1[2]), t2[1]);
}

fn arc_files() -> FileTables {
    FileTables {
        file_paths: vec![
            FilePathRec { path_hash: 0x10, path_index: 0, ext_hash: 0 },
            FilePathRec { path_hash: 0x11, path_index: 1, ext_hash: 0 },
            FilePathRec { path_hash: 0x12, path_index: 5, ext_hash: 0 },
        ],
        info_indices: vec![
            InfoIndexRec { dir_offset_index: 0, file_info_index: 0 },
            InfoIndexRec { dir_offset_index: 0, file_info_index: 1 },
        ],
        file_infos: vec![
            FileInfoRec { file_path_index: 0, file_info_indice_index: 0, info_to_data_index: 0, flags: FileInfoFlags::from_bits(0) },
            FileInfoRec { file_path_index: 1, file_info_indice_index: 1, info_to_data_index: 0, flags: FileInfoFlags::from_bits(0) },
        ],
        info_to_datas: vec![InfoToDataRec { folder_offset_index: 0, file_data_index: 0, load_bits: 0 }],
        datas: vec![FileDataRec { offset_in_folder: 0, comp_size: 0x20, decomp_size: 0x55, flags: 0 }],
        loaded_data_len: 2,
    }
}

fn words(a: &[&str]) -> Vec<String> {
    a.iter().map(|s| s.to_string()).collect()
}

#[test]
fn filepath_table_entries() {
    let (fs, _) = sample();
    let a = arc_files();
    assert!(matches!(handle_get_filepath_table_entry(&fs, &a, words(&["-i", "2"])), Lookup::Found(e) if e.loaded_data_index == 1));
    assert!(matches!(handle_get_filepath_table_entry(&fs, &a, words(&["-h", "0x11"])), Lookup::Found(e) if e.loaded_data_index == 7));
    assert!(matches!(handle_get_filepath_table_entry(&fs, &a, words(&["-i", "9"])), Lookup::OutOfBounds));
    assert!(matches!(handle_get_filepath_table_entry(&fs, &a, words(&["-h", "0x99"])), Lookup::Missing));
    assert!(matches!(handle_get_filepath_table_entry(&fs, &a, words(&[])), Lookup::Usage));
}

#[test]
fn loaded_data_table_entries() {
    let (fs, _) = sample();
    let a = arc_files();
    assert!(matches!(handle_get_loaded_data_table_entry(&fs, &a, 0, words(&["-i", "1"])), LoadedDataAnswer::Found(e) if e.state == LoadState::Unloaded));
    assert!(matches!(handle_get_loaded_data_table_entry(&fs, &a, 0, words(&["-i", "2"])), LoadedDataAnswer::OutOfBounds));
    assert!(matches!(handle_get_loaded_data_table_entry(&fs, &a, 0, words(&["-h", "0x10"])), LoadedDataAnswer::Found(e) if e.ref_count == 3));
    assert!(matches!(
        handle_get_loaded_data_table_entry(&fs, &a, 0, words(&["-h", "0x10", "-d"])),
        LoadedDataAnswer::Bytes { address: 0x1000, len: 0x55 }
    ));
    // data that is not loaded is shown as the entry even with -d
    assert!(matches!(handle_get_loaded_data_table_entry(&fs, &a, 0, words(&["-d", "-h", "0x11"])), LoadedDataAnswer::Found(e) if e.data == 0));
    assert!(matches!(handle_get_loaded_data_table_entry(&fs, &a, 0, words(&["-h", "0x12"])), LoadedDataAnswer::PathOutOfBounds));
    assert!(matches!(handle_get_loaded_data_table_entry(&fs, &a, 0, words(&["-h", "0x13"])), LoadedDataAnswer::Missing));
}

#[test]
fn loaded_directory_table_entries() {
    let (fs, arc) = sample();
    assert_eq!(handle_get_loaded_directory_table_entry(&fs, &arc, words(&["-h", "0xaa"])), LoadedDirectoryAnswer::Found(0));
    assert_eq!(handle_get_loaded_directory_table_entry(&fs, &arc, words(&["-i", "1"])), LoadedDirectoryAnswer::Found(1));
    assert_eq!(handle_get_loaded_directory_table_entry(&fs, &arc, words(&["-i", "5"])), LoadedDirectoryAnswer::OutOfBounds);
    assert_eq!(handle_get_loaded_directory_table_entry(&fs, &arc, words(&["-h", "0xcc"])), LoadedDirectoryAnswer::Missing);
    let mut arc2 = arc;
    arc2.dir_hash_to_index.push((0xDD, 9));
    assert_eq!(handle_get_loaded_directory_table_entry(&fs, &arc2, words(&["-h", "0xdd"])), LoadedDirectoryAnswer::HashOutOfBounds);
}

#[test]
fn broken_filepaths_by_hash() {
    let (fs, arc) = sample();
    let report = handle_get_broken_filepaths(&fs, &arc, words(&["-f", "abc"]));
    assert_eq!(report.broken, vec![(0x12, BrokenReason::DataUnloaded)]);
    assert_eq!(report.filter, Some("abc".to_string()));
    let report = handle_get_broken_filepaths(&fs, &arc, words(&[]));
    assert_eq!(report.filter, None);
}
