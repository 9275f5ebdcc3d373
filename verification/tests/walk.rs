use arcropolis::remote::arc::{
    handle_get_directory, handle_get_directory_file_group, handle_get_directory_redirect, handle_get_file_data, handle_get_file_group,
    handle_get_file_info, handle_get_file_info_index, handle_get_file_info_to_data, handle_get_file_path, handle_get_shared_data_index,
    GroupAnswer, Lookup, RedirectAnswer,
    handle_get_shared_file, handle_is_file_shared, handle_walk_directory, shared_data_index, shared_file_of, walk_directory,
    IsSharedAnswer, SharedFileAnswer, SharedStatus, WalkLine, WalkOutput, WalkTables,
};
use arcropolis::replacement::extensions::FileInfoFlags;
use arcropolis::unsharing::{DirRec, GroupRec, FileDataRec, FileInfoRec, FilePathRec, FileTables, InfoIndexRec, InfoToDataRec};

fn dir(path_hash: u64, start: u32, count: u32, children: u32, redirected: bool) -> DirRec {
    DirRec {
        path_hash,
        group_index: 0,
        file_info_start: start,
        file_count: count,
        child_dir_start: 0,
        child_dir_count: children,
        redirected,
        is_symlink: false,
    }
}

/// Directory 0 holds file 0 and has directory 1 as its child; directory 1
/// holds file 1, which shares the data of file 0, and redirects to an
/// unnamed group holding both files.
fn tables() -> WalkTables {
    WalkTables {
        files: FileTables {
            file_paths: vec![
                FilePathRec { path_hash: 0xA0, path_index: 0, ext_hash: 1 },
                FilePathRec { path_hash: 0xA1, path_index: 0, ext_hash: 1 },
            ],
            info_indices: vec![InfoIndexRec { dir_offset_index: 0, file_info_index: 0 }],
            file_infos: vec![
                FileInfoRec { file_path_index: 0, file_info_indice_index: 0, info_to_data_index: 0, flags: FileInfoFlags::from_bits(0) },
                FileInfoRec { file_path_index: 1, file_info_indice_index: 0, info_to_data_index: 0, flags: FileInfoFlags::from_bits(0) },
            ],
            info_to_datas: vec![InfoToDataRec { folder_offset_index: 0, file_data_index: 0, load_bits: 0 }],
            datas: vec![FileDataRec { offset_in_folder: 0, comp_size: 1, decomp_size: 1, flags: 0 }],
            loaded_data_len: 1,
        },
        dirs: vec![dir(0xD0, 0, 1, 1, false), dir(0xD1, 1, 1, 0, true)],
        child_dir_index: vec![1],
        groups: vec![
            GroupRec { directory_index: 1, file_start: 0, file_count: 1 },
            GroupRec { directory_index: 0xFF_FFFF, file_start: 0, file_count: 2 },
        ],
        dir_hash_to_index: vec![(0xD0, 0), (0xD1, 1)],
    }
}

fn args(a: &[&str]) -> Vec<String> {
    a.iter().map(|s| s.to_string()).collect()
}

#[test]
fn walk_lists_files_only_without_recursion() {
    let t = tables();
    let lines = walk_directory(&t, 0, false, false);
    assert_eq!(lines, vec![
        WalkLine::Top(0xD0),
        WalkLine::File { depth: 1, hash: 0xA0, shared: SharedStatus::NotShown },
    ]);
}

#[test]
fn recursive_walk_follows_children_and_redirects() {
    let t = tables();
    let lines = walk_directory(&t, 0, true, true);
    assert_eq!(lines, vec![
        WalkLine::Top(0xD0),
        WalkLine::File { depth: 1, hash: 0xA0, shared: SharedStatus::Unshared },
        WalkLine::Child { depth: 1, hash: 0xD1 },
        WalkLine::File { depth: 2, hash: 0xA1, shared: SharedStatus::SharedWith(0xA0) },
        WalkLine::Unnamed { depth: 2 },
        WalkLine::File { depth: 3, hash: 0xA0, shared: SharedStatus::Unshared },
        WalkLine::File { depth: 3, hash: 0xA1, shared: SharedStatus::SharedWith(0xA0) },
    ]);
}

#[test]
fn walk_command_reads_its_flags() {
    let t = tables();
    match handle_walk_directory(&t, args(&["-r", "-i", "1", "-p"])) {
        WalkOutput::Lines { pretty, lines } => {
            assert!(pretty);
            assert_eq!(lines, vec![
                WalkLine::Top(0xD1),
                WalkLine::File { depth: 1, hash: 0xA1, shared: SharedStatus::NotShown },
                WalkLine::Unnamed { depth: 1 },
                WalkLine::File { depth: 2, hash: 0xA0, shared: SharedStatus::NotShown },
                WalkLine::File { depth: 2, hash: 0xA1, shared: SharedStatus::NotShown },
            ]);
        },
        _ => panic!("expected lines"),
    }
}

#[test]
fn walk_command_by_hash() {
    let t = tables();
    match handle_walk_directory(&t, args(&["-h", "0xd0"])) {
        WalkOutput::Lines { pretty, lines } => {
            assert!(!pretty);
            assert_eq!(lines.len(), 2);
            assert_eq!(lines[0], WalkLine::Top(0xD0));
        },
        _ => panic!("expected lines"),
    }
}

#[test]
fn walk_command_errors() {
    let t = tables();
    assert!(matches!(handle_walk_directory(&t, args(&["-i", "9"])), WalkOutput::OutOfBounds));
    assert!(matches!(handle_walk_directory(&t, args(&["-h", "0xee"])), WalkOutput::Missing));
    assert!(matches!(handle_walk_directory(&t, args(&["-r"])), WalkOutput::Usage));
    assert!(matches!(handle_walk_directory(&t, args(&["-i", "zz"])), WalkOutput::Usage));
}

#[test]
fn shared_data_starts_past_the_unnamed_groups() {
    let t = tables();
    assert_eq!(shared_data_index(&t), 1);
}

#[test]
fn is_file_shared_compares_with_the_shared_data_index() {
    let mut t = tables();
    assert_eq!(handle_is_file_shared(&t, args(&["-i", "0"])), IsSharedAnswer::Shared(false));
    assert_eq!(handle_is_file_shared(&t, args(&["-h", "0xa1"])), IsSharedAnswer::Shared(false));
    assert_eq!(handle_is_file_shared(&t, args(&["-i", "7"])), IsSharedAnswer::OutOfBounds);
    assert_eq!(handle_is_file_shared(&t, args(&["-h", "0xbb"])), IsSharedAnswer::Missing);
    assert_eq!(handle_is_file_shared(&t, args(&[])), IsSharedAnswer::Usage);
    t.files.info_to_datas[0].file_data_index = 3;
    assert_eq!(handle_is_file_shared(&t, args(&["-i", "0"])), IsSharedAnswer::Shared(true));
}

fn chain(paths: &[(u64, u32)], infos: &[u32]) -> FileTables {
    FileTables {
        file_paths: paths.iter().map(|&(h, i)| FilePathRec { path_hash: h, path_index: i, ext_hash: 0 }).collect(),
        info_indices: (0..infos.len() as u32).map(|i| InfoIndexRec { dir_offset_index: 0, file_info_index: i }).collect(),
        file_infos: infos
            .iter()
            .map(|&p| FileInfoRec { file_path_index: p, file_info_indice_index: 0, info_to_data_index: 0, flags: FileInfoFlags::from_bits(0) })
            .collect(),
        info_to_datas: vec![InfoToDataRec { folder_offset_index: 0, file_data_index: 0, load_bits: 0 }],
        datas: vec![FileDataRec { offset_in_folder: 0, comp_size: 1, decomp_size: 1, flags: 0 }],
        loaded_data_len: 1,
    }
}

#[test]
fn shared_file_follows_the_chain_with_recursion() {
    // path 2 uses path 1's data, which uses path 0's
    let t = chain(&[(0xA0, 0), (0xA1, 0), (0xA2, 1)], &[0, 1]);
    assert_eq!(shared_file_of(&t, 2, false), SharedFileAnswer::SharedWith(0xA1));
    assert_eq!(shared_file_of(&t, 2, true), SharedFileAnswer::SharedWith(0xA0));
    assert_eq!(shared_file_of(&t, 0, true), SharedFileAnswer::SourceFile);
    assert_eq!(handle_get_shared_file(&t, args(&["-h", "0xa2", "-r"])), SharedFileAnswer::SharedWith(0xA0));
    assert_eq!(handle_get_shared_file(&t, args(&["-i", "2"])), SharedFileAnswer::SharedWith(0xA1));
    assert_eq!(handle_get_shared_file(&t, args(&["-i", "3"])), SharedFileAnswer::OutOfBounds);
    assert_eq!(handle_get_shared_file(&t, args(&["-h", "0xff"])), SharedFileAnswer::Missing);
    assert_eq!(handle_get_shared_file(&t, args(&["-r"])), SharedFileAnswer::Usage);
}

#[test]
fn shared_file_reports_a_chain_that_never_settles() {
    // path 0 uses path 1's data and path 1 uses path 0's
    let t = chain(&[(0xA0, 1), (0xA1, 0)], &[0, 1]);
    assert_eq!(shared_file_of(&t, 0, false), SharedFileAnswer::SharedWith(0xA1));
    assert_eq!(shared_file_of(&t, 0, true), SharedFileAnswer::Unsettled);
}

#[test]
fn directory_lookups() {
    let t = tables();
    assert!(matches!(handle_get_directory(&t, args(&["-i", "1"])), Lookup::Found(d) if d.path_hash == 0xD1));
    assert!(matches!(handle_get_directory(&t, args(&["-h", "0xd0"])), Lookup::Found(d) if d.path_hash == 0xD0));
    assert!(matches!(handle_get_directory(&t, args(&["-i", "2"])), Lookup::OutOfBounds));
    assert!(matches!(handle_get_directory(&t, args(&["-h", "0x99"])), Lookup::Missing));
    assert!(matches!(handle_get_directory(&t, args(&[])), Lookup::Usage));
    assert!(matches!(handle_get_directory_file_group(&t, args(&["-i", "0"])), GroupAnswer::Found(g) if g.directory_index == 1));
    assert!(matches!(handle_get_directory_redirect(&t, args(&["-i", "0"])), RedirectAnswer::NotRedirected));
    assert!(matches!(handle_get_directory_redirect(&t, args(&["-i", "1"])), RedirectAnswer::Shared(g) if g.file_count == 2));
    assert!(matches!(handle_get_directory_redirect(&t, args(&["-h", "0xd1"])), RedirectAnswer::Group(GroupAnswer::Found(g)) if g.directory_index == 1));
    assert!(matches!(handle_get_file_group(&t, args(&["1"])), Lookup::Found(g) if g.file_count == 2));
    assert!(matches!(handle_get_file_group(&t, args(&["5"])), Lookup::OutOfBounds));
    assert!(matches!(handle_get_file_group(&t, args(&["x"])), Lookup::Usage));
    assert!(matches!(handle_get_file_group(&t, args(&[])), Lookup::Usage));
}

#[test]
fn directory_without_a_group() {
    let mut t = tables();
    t.dirs[0].group_index = 0xFF_FFFF;
    t.dirs[1].group_index = 7;
    assert!(matches!(handle_get_directory_file_group(&t, args(&["-i", "0"])), GroupAnswer::NoGroup));
    assert!(matches!(handle_get_directory_file_group(&t, args(&["-i", "1"])), GroupAnswer::GroupOutOfBounds));
}

#[test]
fn file_lookups() {
    let t = tables();
    assert!(matches!(handle_get_file_path(&t, args(&["-i", "1"])), Lookup::Found(p) if p.path_hash == 0xA1));
    assert!(matches!(handle_get_file_path(&t, args(&["-h", "0xa0"])), Lookup::Found(p) if p.path_hash == 0xA0));
    assert!(matches!(handle_get_file_path(&t, args(&["-h", "0xa9"])), Lookup::Missing));
    assert!(matches!(handle_get_file_info_index(&t, args(&["-h", "0xa1"])), Lookup::Found(i) if i.file_info_index == 0));
    assert!(matches!(handle_get_file_info_index(&t, args(&["-i", "3"])), Lookup::OutOfBounds));
    assert!(matches!(handle_get_file_info(&t, args(&["-i", "1"])), Lookup::Found(f) if f.file_path_index == 1));
    // by hash, path 1 leads to the file info of path 0
    assert!(matches!(handle_get_file_info(&t, args(&["-h", "0xa1"])), Lookup::Found(f) if f.file_path_index == 0));
    assert!(matches!(handle_get_file_info_to_data(&t, args(&["-h", "0xa1", "-r", "none"])), Lookup::Found(e) if e.file_data_index == 0));
    assert!(matches!(handle_get_file_data(&t, args(&["-h", "0xa0"])), Lookup::Found(d) if d.comp_size == 1));
    assert!(matches!(handle_get_file_data(&t, args(&["-i", "1"])), Lookup::OutOfBounds));
    assert_eq!(handle_get_shared_data_index(&t), 1);
}
