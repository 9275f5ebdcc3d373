use arcropolis::hashing::Hash40;
use arcropolis::region::Region;
use arcropolis::resource::containers::{CppVector, LoadInfo, LoadType, ResList};
use arcropolis::resource::types::InflateFile;
use arcropolis::runtime::{
    ArrayLengths, FileState, FsHeaderCounts, LoadError, LoadedTables, Table1Entry, Table2Entry,
};
use arcropolis::visit::{discover, entry_action, is_visible_name, marker_fits, split_mod_files, EntryAction, ModFile, Modpack};

#[test]
fn cpp_vector_grows_and_reads() {
    let mut v: CppVector<u32> = CppVector::with_capacity(2);
    v.push(1);
    v.reserve(10);
    v.extend_from_slice(&[2, 3]);
    assert_eq!(v.len(), 3);
    assert_eq!(v.as_slice(), &[1, 2, 3]);
    assert_eq!(v.get(2), Some(&3));
    assert_eq!(v.get(3), None);
    let mut it = v.iter();
    assert_eq!(it.next(), Some(&1));
    assert_eq!(it.next(), Some(&2));
    assert_eq!(it.next(), Some(&3));
    assert_eq!(it.next(), None);
    assert_eq!(CppVector::from_slice(&[4u8, 5]).as_slice(), &[4, 5]);
    assert_eq!(CppVector::<u8>::new().len(), 0);
}

fn req(p: u32) -> LoadInfo {
    LoadInfo { ty: LoadType::File, filepath_index: p, directory_index: 0, files_to_load: 0 }
}

#[test]
fn res_list_front_first() {
    let mut l = ResList::from_infos(&vec![req(1), req(2)]);
    l.insert(req(0));
    assert_eq!(l.len(), 3);
    assert_eq!(l.get(0), Some(&req(0)));
    assert_eq!(l.get_node(2).map(|n| n.data), Some(req(2)));
    assert_eq!(l.get(3), None);
    let mut it = l.iter();
    assert_eq!(it.next(), Some(&req(0)));
    assert_eq!(it.next(), Some(&req(1)));
    assert_eq!(it.next(), Some(&req(2)));
    assert_eq!(it.next(), None);
    let mut nodes = l.node_iter();
    assert_eq!(nodes.next().map(|n| n.data), Some(req(0)));
}

#[test]
fn inflate_file_length() {
    let f = InflateFile { content: vec![1, 2, 3] };
    assert_eq!(f.len(), 3);
    assert_eq!(f.as_slice(), &[1, 2, 3]);
}

fn t2(state: FileState) -> Table2Entry {
    Table2Entry { data: 0, ref_count: 0, is_used: false, state, file_flags2: false, flags: 0, version: 0, unk: 0 }
}

#[test]
fn table_two_through_table_one() {
    let tables = LoadedTables {
        table1: vec![Table1Entry { table2_index: 1, in_table_2: 1 }, Table1Entry { table2_index: 5, in_table_2: 1 }],
        table2: vec![t2(FileState::Unused), t2(FileState::Loaded)],
    };
    assert_eq!(tables.get_t2(0).map(|e| e.state), Ok(FileState::Loaded));
    assert_eq!(tables.get_t2(1).map(|e| e.state), Err(LoadError::NoTable2));
    assert_eq!(tables.get_t2(2).map(|e| e.state), Err(LoadError::NoTable1));
    assert_eq!(tables.table_1().len(), 2);
    assert_eq!(tables.table_2().len(), 2);
}

#[test]
fn table_lengths_from_header() {
    let fs = FsHeaderCounts {
        folder_count: 1,
        file_info_path_count: 2,
        file_info_index_count: 3,
        file_info_count: 4,
        file_info_sub_index_count: 5,
        file_data_count: 6,
        file_data_count_2: 7,
        extra_count: 8,
        extra_count_2: 9,
        folder_offset_count_1: 10,
        folder_offset_count_2: 11,
    };
    let l = ArrayLengths::new(&fs);
    assert_eq!(l.dir_infos, 1);
    assert_eq!(l.file_paths, 2);
    assert_eq!(l.file_info_indices, 3);
    assert_eq!(l.file_infos, 4 + 7 + 8);
    assert_eq!(l.file_info_to_datas, 5 + 7 + 9);
    assert_eq!(l.file_datas, 6 + 7 + 8);
    assert_eq!(l.folder_offsets, 21);
}

#[test]
fn smash_paths_of_mod_files() {
    let f = ModFile::with_size("fighter/mario/model/body/c00/model+us_en.numdlb".to_string(), 10);
    assert_eq!(f.as_smash_path(), "fighter/mario/model/body/c00/model.numdlb");
    assert_eq!(f.hash40(), Ok(Hash40(0x29_1190785f)));
    assert_eq!(f.len(), 10);
    assert_eq!(f.get_region(), Some(Region::UsEnglish));
    assert_eq!(f.extension(), Hash40::from_str("numdlb"));
    let m = ModFile::with_size("movie/Intro.mp4".to_string(), 1);
    assert_eq!(m.as_smash_path(), "movie/intro.webm");
    let c = ModFile::with_size("ui/a;b.BIN".to_string(), 1);
    assert_eq!(c.as_smash_path(), "ui/a:b.bin");
    assert!(ModFile::with_size("stream;/sound/x.nus3audio".to_string(), 1).is_stream());
    assert!(!c.is_stream());
    assert_eq!(c.get_region(), None);
    assert_eq!(ModFile::with_size("ui/a+zz_zz.bin".to_string(), 1).get_region(), Some(Region::Japanese));
}

#[test]
fn mod_file_paths_change() {
    let mut f = ModFile::new();
    assert_eq!(f.path(), "");
    assert_eq!(f.len(), 0);
    f.set_path("a/b.c");
    assert_eq!(f.path(), "a/b.c");
}

#[test]
fn modpack_flattens_with_full_paths() {
    let pack = Modpack {
        path: "sd:/ultimate/mods/pack".to_string(),
        mods: vec![ModFile::with_size("ui/message/msg_menu+us_en.msbt".to_string(), 7)],
    };
    let flat = pack.flatten();
    assert_eq!(flat.len(), 1);
    assert_eq!(flat[0].0, Hash40(0x18_b6c20a49));
    assert_eq!(flat[0].1.path(), "sd:/ultimate/mods/pack/ui/message/msg_menu+us_en.msbt");
    assert_eq!(flat[0].1.len(), 7);
}

#[test]
fn discovered_paths_are_made_relative() {
    let found = vec![
        ModFile::with_size("sd:/mods/pack/a/b.bin".to_string(), 1),
        ModFile::with_size("sd:/mods/pack".to_string(), 2),
    ];
    let pack = discover("sd:/mods/pack", found);
    assert_eq!(pack.path, "sd:/mods/pack");
    assert_eq!(pack.mods[0].path(), "a/b.bin");
    assert_eq!(pack.mods[1].path(), "");
    assert_eq!(pack.mods[1].len(), 2);
}

#[test]
fn discovery_accepts_files_with_extensions() {
    assert_eq!(arcropolis::visit::file("a/b.bin", false), Ok("a/b.bin".to_string()));
    assert_eq!(arcropolis::visit::file("a/b", true), Err("[ARC::Discovery] Not a file".to_string()));
    assert_eq!(arcropolis::visit::file("a/b", false), Err("[ARC::Discovery] File 'a/b' does not have an extension, skipping".to_string()));
}

#[test]
fn walk_entries_are_sorted_out_by_name() {
    assert_eq!(entry_action(".git", true), EntryAction::Skip);
    assert_eq!(entry_action(".hidden.prc", false), EntryAction::Skip);
    assert_eq!(entry_action("model.nutexb", true), EntryAction::FolderAsFile);
    assert_eq!(entry_action("fighter", true), EntryAction::Descend);
    assert_eq!(entry_action("param.prc", false), EntryAction::CheckFile);
    assert!(is_visible_name("mymod"));
    assert!(!is_visible_name(".disabled"));
}

#[test]
fn elements_changed_in_place() {
    let mut v: CppVector<u32> = CppVector::from_slice(&[1, 2]);
    if let Some(x) = v.get_mut(1) {
        *x = 9;
    }
    assert_eq!(v.as_slice(), &[1, 9]);
    assert!(v.get_mut(2).is_none());
    let mut l = ResList::from_infos(&vec![req(1), req(2)]);
    if let Some(x) = l.get_mut(0) {
        x.filepath_index = 7;
    }
    assert_eq!(l.get(0), Some(&req(7)));
    assert!(l.get_mut(2).is_none());
}

#[test]
fn mod_files_split_into_archive_and_stream() {
    assert!(marker_fits("a/b+us_en.bin"));
    assert!(marker_fits("a/b.bin"));
    assert!(!marker_fits("x+\u{e9}\u{e9}\u{e9}.bin"));
    let pack = Modpack {
        path: "sd:/mods/m".to_string(),
        mods: vec![ModFile::with_size("fighter/a.bin".to_string(), 3), ModFile::with_size("stream;/sound/b.nus3audio".to_string(), 4)],
    };
    let bad = Modpack { path: "sd:/mods/n".to_string(), mods: vec![ModFile::with_size("x+\u{e9}\u{e9}\u{e9}.bin".to_string(), 1)] };
    let (regular, stream) = split_mod_files(&vec![pack, bad]);
    assert_eq!(regular.len(), 1);
    assert_eq!(regular[0].1.path(), "sd:/mods/m/fighter/a.bin");
    assert_eq!(regular[0].0, Hash40::from_str("fighter/a.bin"));
    assert_eq!(stream.len(), 1);
    assert_eq!(stream[0].0, Hash40::from_str("stream:/sound/b.nus3audio"));
}
