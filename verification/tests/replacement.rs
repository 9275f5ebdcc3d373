use arcropolis::hashing::Hash40;
use arcropolis::replacement::extensions::{FileInfoFlags, FileInfoFlagsExt};
use arcropolis::replacement::threads::{
    fix_nutexb_footer, handle_file_replace, res_loop_common, FileInfoEntry, ReplaceOutcome, NO_DIRECTORY,
};
use arcropolis::replacement_files::{
    get_region_id, patch_filedata, patch_sizes, process_mods, recursive_file_backing_load, restore_sizes,
    CallbackEntry, CallbackKind, FileBacking, FileCtx, FileIndex, LoadStep, ModCandidate,
};
use arcropolis::resource::containers::{LoadInfo, LoadType, ResList};
use arcropolis::visit::ModFile;

#[test]
fn region_ids_by_code() {
    assert_eq!(get_region_id("jp_ja"), Some(0));
    assert_eq!(get_region_id("us_en"), Some(1));
    assert_eq!(get_region_id("zh_tw"), Some(13));
    assert_eq!(get_region_id("xx_yy"), None);
}

fn find<'a>(files: &'a [(FileIndex, FileCtx<u32>)], k: FileIndex) -> Option<&'a FileCtx<u32>> {
    files.iter().find(|(i, _)| *i == k).map(|(_, c)| c)
}

#[test]
fn mods_known_to_the_archive_are_kept() {
    let files = process_mods::<u32>(
        vec![
            ModCandidate { hash: Hash40(1), file: ModFile::with_size("a.bin".to_string(), 10), info_index: Some(4) },
            ModCandidate { hash: Hash40(2), file: ModFile::with_size("b.bin".to_string(), 20), info_index: None },
            ModCandidate { hash: Hash40(3), file: ModFile::with_size("c.bin".to_string(), 30), info_index: Some(4) },
        ],
        vec![(Hash40(9), ModFile::with_size("stream/s.bin".to_string(), 5))],
        Vec::new(),
    );
    assert_eq!(files.len(), 2);
    let ctx = find(&files, FileIndex::Regular(4)).unwrap();
    assert_eq!(ctx.hash, Hash40(3));
    assert_eq!(ctx.index, 4);
    assert_eq!(ctx.len(0), 30);
    assert_eq!(ctx.path(), Some("c.bin".to_string()));
    let s = find(&files, FileIndex::Stream(Hash40(9))).unwrap();
    assert_eq!(s.len(0), 5);
    assert_eq!(s.index, 0);
}

#[test]
fn callbacks_are_laid_over_files() {
    let files = process_mods::<u32>(
        vec![ModCandidate { hash: Hash40(1), file: ModFile::with_size("a.bin".to_string(), 10), info_index: Some(4) }],
        Vec::new(),
        vec![
            CallbackEntry { hash: Hash40(1), kind: CallbackKind::Regular { callback: 100, len: 64 }, previous: None, info_index: Some(4) },
            CallbackEntry { hash: Hash40(5), kind: CallbackKind::Regular { callback: 200, len: 8 }, previous: Some(CallbackKind::Regular { callback: 150, len: 4 }), info_index: Some(6) },
            CallbackEntry { hash: Hash40(7), kind: CallbackKind::Regular { callback: 300, len: 8 }, previous: None, info_index: None },
            CallbackEntry { hash: Hash40(8), kind: CallbackKind::Stream { callback: 400 }, previous: None, info_index: None },
        ],
    );
    assert_eq!(files.len(), 3);
    let over_mod = find(&files, FileIndex::Regular(4)).unwrap();
    assert_eq!(over_mod.len(0), 64);
    assert_eq!(over_mod.path(), Some("Callback".to_string()));
    match recursive_file_backing_load(&over_mod.file) {
        LoadStep::Call { callback, len, fallback } => {
            assert_eq!((*callback, len), (100, 64));
            assert!(matches!(fallback, FileBacking::ModFile(_)));
        },
        _ => panic!("expected a call"),
    }
    let alone = find(&files, FileIndex::Regular(6)).unwrap();
    assert_eq!(alone.hash, Hash40(5));
    assert!(matches!(recursive_file_backing_load(&alone.file), LoadStep::Call { callback: &200, len: 8, fallback: &FileBacking::LoadFromArc }));
    let stream = find(&files, FileIndex::Stream(Hash40(8))).unwrap();
    assert_eq!(stream.len(0), 0);
    assert!(matches!(recursive_file_backing_load(&stream.file), LoadStep::ReadArc));
}

#[test]
fn earlier_callback_is_kept_behind_a_new_one() {
    let files = process_mods::<u32>(
        vec![ModCandidate { hash: Hash40(1), file: ModFile::with_size("a.bin".to_string(), 10), info_index: Some(4) }],
        Vec::new(),
        vec![CallbackEntry {
            hash: Hash40(1),
            kind: CallbackKind::Regular { callback: 2, len: 9 },
            previous: Some(CallbackKind::Regular { callback: 1, len: 7 }),
            info_index: Some(4),
        }],
    );
    match &find(&files, FileIndex::Regular(4)).unwrap().file {
        FileBacking::Callback { callback: CallbackKind::Regular { callback: 2, len: 9 }, original } => match &**original {
            FileBacking::Callback { callback: CallbackKind::Regular { callback: 1, len: 7 }, original } => {
                assert!(matches!(&**original, FileBacking::ModFile(_)))
            },
            _ => panic!("expected the earlier callback"),
        },
        _ => panic!("expected the new callback"),
    }
}

#[test]
fn file_read_from_archive_has_archive_size() {
    let ctx: FileCtx<u32> = FileCtx::new();
    assert_eq!(ctx.len(123), 123);
    assert_eq!(ctx.path(), None);
    assert_eq!(ctx.extension(Hash40(5)), Hash40(5));
}

#[test]
fn patching_grows_and_restoring_undoes() {
    let mut sizes = vec![10, 50, 7];
    assert_eq!(patch_filedata(&mut sizes, 0, 20), 10);
    assert_eq!(sizes, vec![20, 50, 7]);
    assert_eq!(patch_filedata(&mut sizes, 1, 20), 50);
    assert_eq!(sizes, vec![20, 50, 7]);
    let mut sizes = vec![10, 50, 7];
    let backups = patch_sizes(&mut sizes, &vec![30, 5], &vec![(0, 0), (2, 2)]);
    assert_eq!(sizes, vec![30, 50, 7]);
    assert_eq!(backups, vec![(0, 10), (2, 7)]);
    restore_sizes(&mut sizes, &backups);
    assert_eq!(sizes, vec![10, 50, 7]);
}

#[test]
fn texture_footer_moves_to_the_end() {
    let mut buf: Vec<u8> = (0..0x200u32).map(|i| (i % 251) as u8).collect();
    let before = buf.clone();
    fix_nutexb_footer(&mut buf, 0x100);
    assert_eq!(&buf[..0x150], &before[..0x150]);
    assert_eq!(&buf[0x150..], &before[0x50..0x100]);
}

#[test]
fn replacement_outcomes() {
    let nutexb = Hash40::from_str("nutexb");
    let mut buf = vec![0u8; 0x200];
    buf[0x60] = 9;
    assert_eq!(handle_file_replace(&mut buf, None, nutexb), ReplaceOutcome::LoadFailed);
    assert_eq!(handle_file_replace(&mut buf, Some(0x110), nutexb), ReplaceOutcome::Replaced(0x110));
    assert_eq!(buf[0x150], 9);
    let mut small = vec![1u8; 0x200];
    assert_eq!(handle_file_replace(&mut small, Some(0x10), nutexb), ReplaceOutcome::FooterLeft(0x10));
    assert_eq!(small, vec![1u8; 0x200]);
    let mut other = vec![0u8; 0x200];
    other[0x60] = 9;
    assert_eq!(handle_file_replace(&mut other, Some(0x110), Hash40::from_str("bntx")), ReplaceOutcome::Replaced(0x110));
    assert_eq!(other[0x150], 0);
}

fn info(p: u32, standalone: bool) -> FileInfoEntry {
    let mut flags = FileInfoFlags::from_bits(0);
    flags.set_standalone_file(standalone);
    FileInfoEntry { file_path_index: p, flags }
}

fn req(ty: LoadType, p: u32, d: u32) -> LoadInfo {
    LoadInfo { ty, filepath_index: p, directory_index: d, files_to_load: 0 }
}

#[test]
fn standalone_files_go_to_the_front() {
    let dirs = vec![(0u32, 3u32), (3, 1)];
    let infos = vec![info(10, true), info(11, false), info(12, true), info(13, true)];
    let mut lists = vec![
        ResList::from_infos(&vec![req(LoadType::Directory, 0, 0), req(LoadType::File, 99, 0), req(LoadType::Directory, 0, 1)]),
        ResList::from_infos(&vec![req(LoadType::File, 5, 0)]),
    ];
    res_loop_common(&mut lists, &dirs, &infos);
    assert_eq!(lists[0].len(), 6);
    assert_eq!(*lists[0].get(0).unwrap(), req(LoadType::File, 13, NO_DIRECTORY));
    assert_eq!(*lists[0].get(1).unwrap(), req(LoadType::File, 12, NO_DIRECTORY));
    assert_eq!(*lists[0].get(2).unwrap(), req(LoadType::File, 10, NO_DIRECTORY));
    assert_eq!(*lists[0].get(3).unwrap(), req(LoadType::Directory, 0, 0));
    assert_eq!(lists[1].len(), 1);
}

#[test]
fn flags_set_and_read_back() {
    let mut f = FileInfoFlags::from_bits(0x0012_3456);
    f.set_unshared_nus3bank(true);
    assert!(f.unshared_nus3bank());
    assert!(!f.standalone_file());
    assert!(!f.new_shared_file());
    f.set_new_shared_file(true);
    f.set_unshared_nus3bank(false);
    assert!(f.new_shared_file());
    assert!(!f.unshared_nus3bank());
    assert_eq!(f.bits() & 0x003F_FFFF, 0x0012_3456);
    assert_eq!(f.unused4(), 4);
    let mut g = FileInfoFlags::from_bits(0);
    g.set_unused4(1023);
    assert_eq!(g.bits(), 0xFFC0_0000);
    assert!(g.standalone_file());
    let mut r = FileInfoFlags::from_bits(0x8000);
    assert!(r.is_regional());
    r.set_is_regional(false);
    assert_eq!(r.bits(), 0);
    assert!(FileInfoFlags::from_bits(0x1_0000).is_localized());
}
