use arcropolis::hashing::Hash40;
use arcropolis::modfs::handlers::register_builtins;
use arcropolis::modfs::patch::{Conflict, FileEntry, PatchLayer};
use arcropolis::modfs::registry::{DefaultApplier, HandlerId, HandlerInfo, HandlerRegistry};
use arcropolis::modfs::virt::{VirtualChain, VirtualEntry, VirtualLayer};
use arcropolis::modfs::{copy_into, BuiltinDiscoverer, ConflictMode, EntryType, ModFs, ModFsError};
use arcropolis::modfs::handlers::builtin_discover;
use arcropolis::update::{
    choose_release, compare_tags, format_release_date, release_version_text, version_difference, ReleaseChoice, VersionDifference,
    VersionError,
};

fn kind(d: Result<Option<VersionDifference>, VersionError>) -> Option<(u8, String)> {
    match d.unwrap() {
        Some(VersionDifference::ChangeToStable(v)) => Some((0, v)),
        Some(VersionDifference::ChangeToBeta(v)) => Some((1, v)),
        Some(VersionDifference::Regular(v)) => Some((2, v)),
        None => None,
    }
}

#[test]
fn update_kinds() {
    assert_eq!(kind(compare_tags("1.0.0", "1.1.0")), Some((2, "1.1.0".to_string())));
    assert_eq!(kind(compare_tags("1.0.0", "1.1.0-beta.1")), Some((1, "1.1.0-beta.1".to_string())));
    assert_eq!(kind(compare_tags("1.1.0-beta.1", "1.1.0")), Some((0, "1.1.0".to_string())));
    assert_eq!(kind(compare_tags("1.1.0-beta.1", "1.1.0-beta.2")), Some((2, "1.1.0-beta.2".to_string())));
    assert_eq!(kind(compare_tags("1.1.0", "1.0.0")), None);
    assert_eq!(kind(compare_tags("1.1.0", "1.1.0")), None);
    assert_eq!(kind(compare_tags("2.0.0-beta", "1.0.0")), None);
}

#[test]
fn unreadable_versions() {
    assert!(matches!(compare_tags("x", "1.0.0"), Err(VersionError::InvalidCurrent)));
    assert!(matches!(compare_tags("1.0.0", "v1"), Err(VersionError::InvalidTarget)));
}

#[test]
fn update_messages() {
    assert_eq!(VersionDifference::Regular("1.1.0".to_string()).message(), "A new update for ARCropolis (1.1.0)");
    assert_eq!(VersionDifference::ChangeToBeta("2.0.0-b".to_string()).message(), "A new beta version of ARCropolis (2.0.0-b)");
    assert_eq!(
        VersionDifference::ChangeToStable("2.0.0".to_string()).message(),
        "An uninstalled stable version of ARCropolis (2.0.0)"
    );
}

#[test]
fn release_tags_and_choice() {
    assert_eq!(release_version_text("v3.0.1"), "3.0.1");
    assert_eq!(release_version_text("vv3"), "3");
    assert_eq!(release_version_text("3.0.1"), "3.0.1");
    assert_eq!(choose_release(Some("3.1.0-beta"), Some("3.0.0")), Some(ReleaseChoice::Prerelease));
    assert_eq!(choose_release(Some("3.0.0-beta"), Some("3.0.0")), Some(ReleaseChoice::Release));
    assert_eq!(choose_release(Some("3.0.0"), Some("3.0.0")), Some(ReleaseChoice::Release));
    assert_eq!(choose_release(None, Some("3.0.0")), Some(ReleaseChoice::Release));
    assert_eq!(choose_release(Some("3.0.0"), None), Some(ReleaseChoice::Prerelease));
    assert_eq!(choose_release(None, None), Some(ReleaseChoice::NoRelease));
    assert_eq!(choose_release(Some("bad"), None), None);
}

#[test]
fn release_date_shown_month_first() {
    assert_eq!(format_release_date("\"2021-05-01T12:00:00Z\""), "05/01/2021");
}

#[test]
fn copy_fits_or_reports() {
    let mut buf = [0u8; 4];
    assert!(matches!(copy_into(&[1, 2, 3], &mut buf), Ok(3)));
    assert_eq!(buf, [1, 2, 3, 0]);
    match copy_into(&[1, 2, 3, 4, 5], &mut buf) {
        Err(ModFsError::BufferTooSmall { needed, available }) => assert_eq!((needed, available), (5, 4)),
        _ => panic!("expected the buffer to be too small"),
    }
}

#[test]
fn default_conflict_mode() {
    assert!(matches!(ConflictMode::default(), ConflictMode::NoRoot));
}

#[test]
fn virtual_chain_hands_out_newest_first() {
    let mut c: VirtualChain<u32> = VirtualChain::new();
    assert!(c.is_empty());
    c.push(VirtualEntry { callback: 1, max_size: 10 });
    c.push(VirtualEntry { callback: 2, max_size: 30 });
    assert_eq!(c.len(), 2);
    assert_eq!(c.max_size(), 30);
    assert_eq!(c.take_next().map(|e| e.callback), Some(2));
    assert_eq!(c.take_next().map(|e| e.callback), Some(1));
    assert!(c.take_next().is_none());
    c.release();
    assert_eq!(c.take_next().map(|e| e.callback), Some(1));
    assert_eq!(c.entries().len(), 2);
}

#[test]
fn virtual_layer_by_hash() {
    let mut layer: VirtualLayer<u32> = VirtualLayer::new();
    assert!(!layer.contains(Hash40(5)));
    assert_eq!(layer.max_size(Hash40(5)), None);
    layer.register(Hash40(5), VirtualEntry { callback: 1, max_size: 8 });
    layer.register(Hash40(5), VirtualEntry { callback: 2, max_size: 4 });
    assert!(layer.contains(Hash40(5)));
    assert_eq!(layer.max_size(Hash40(5)), Some(8));
    assert_eq!(layer.chain(Hash40(5)).unwrap().entries()[0].callback, 2);
    assert!(layer.chain(Hash40(6)).is_none());
}

fn info(name: &str, exts: &[&str], files: &[&str], mult: u32, load: bool) -> HandlerInfo {
    HandlerInfo {
        name: name.to_string(),
        patches_load: load,
        extensions: exts.iter().map(|s| s.to_string()).collect(),
        filenames: files.iter().map(|s| s.to_string()).collect(),
        size_multiplier: mult,
    }
}

#[test]
fn registry_lookup_prefers_names_and_later_handlers() {
    let mut r = HandlerRegistry::new();
    let a = r.register(info("a", &["prcx"], &[], 10, true));
    let b = r.register(info("b", &["prcx"], &["special.prcx"], 20, false));
    assert_eq!((a, b), (HandlerId(0), HandlerId(1)));
    assert_eq!(r.lookup("fighter/x.prcx"), Some(HandlerId(1)));
    assert_eq!(r.lookup("fighter/special.prcx"), Some(HandlerId(1)));
    assert_eq!(r.lookup("fighter/x.bin"), None);
    assert_eq!(r.handler_name(a), "a");
    r.bind_hash(Hash40(9), a);
    r.bind_hash(Hash40(9), b);
    assert_eq!(r.handlers_for_hash(Hash40(9)), vec![a, b]);
    assert!(r.has_load_patchers(Hash40(9)));
    assert_eq!(r.size_multiplier_for_hash(Hash40(9)), 20);
    assert_eq!(r.size_multiplier_for_hash(Hash40(8)), 0);
    assert!(!r.has_load_patchers(Hash40(8)));
}

#[test]
fn builtin_handlers() {
    let mut r = HandlerRegistry::new();
    register_builtins(&mut r);
    assert_eq!(r.len(), 6);
    assert_eq!(r.handler_name(HandlerId(0)), "config");
    assert_eq!(r.handler_name(HandlerId(5)), "bgm");
    assert_eq!(r.lookup("ui/param/config.json"), Some(HandlerId(0)));
    assert_eq!(r.lookup("fighter/param/vl.prcxml"), Some(HandlerId(1)));
    assert_eq!(r.lookup("ui/message/msg.xmsbt"), Some(HandlerId(2)));
    assert_eq!(r.lookup("sound/bgm/bgm_property.bin"), Some(HandlerId(5)));
    assert_eq!(r.lookup("fighter/motion/motion_list.yml"), Some(HandlerId(4)));
}

#[test]
fn patch_layer_reads_back_what_was_inserted() {
    let mut p = PatchLayer::new();
    p.insert("fighter/a.bin".to_string(), FileEntry { root: "sd:/mods/one".to_string(), size: 10 }, None);
    assert!(p.contains("fighter/a.bin"));
    assert!(!p.contains("fighter/b.bin"));
    let e = p.get("fighter/a.bin").unwrap();
    assert_eq!(e.size, 10);
    assert_eq!(e.full_path("fighter/a.bin"), "sd:/mods/one/fighter/a.bin");
    p.insert("fighter/a.bin".to_string(), FileEntry { root: "sd:/mods/two".to_string(), size: 20 }, None);
    assert_eq!(p.get("fighter/a.bin").unwrap().size, 20);
    assert_eq!(p.num_entries(), 1);
    assert_eq!(p.num_roots(), 2);
    let hash = Hash40::from_str("fighter/a.bin");
    let (local, entry) = p.entry_for_hash(hash).unwrap();
    assert_eq!(local, "fighter/a.bin");
    assert_eq!(entry.size, 20);
    p.record_conflict(Conflict { local: "fighter/a.bin".to_string(), winning_root: "two".to_string(), losing_root: "one".to_string() });
    assert_eq!(p.conflicts().len(), 1);
    assert_eq!(FileEntry { root: "r".to_string(), size: 1 }.full_path("/abs"), "/abs");
}

fn modfs_with(files: &[&str]) -> ModFs<u8> {
    let mut fs: ModFs<u8> = ModFs::new();
    for f in files {
        fs.patch_mut().insert(f.to_string(), FileEntry { root: "sd:/mods/m".to_string(), size: 1 }, None);
    }
    fs
}

#[test]
fn directory_listing_in_order_met() {
    let fs = modfs_with(&["fighter/mario/a.bin", "fighter/luigi/b.bin", "fighter/mario/c.bin", "top.bin"]);
    assert_eq!(fs.read_dir(""), vec!["fighter".to_string(), "top.bin".to_string()]);
    assert_eq!(fs.read_dir("fighter"), vec!["fighter/mario".to_string(), "fighter/luigi".to_string()]);
    assert_eq!(
        fs.read_dir("fighter/mario"),
        vec!["fighter/mario/a.bin".to_string(), "fighter/mario/c.bin".to_string()]
    );
    assert!(fs.read_dir("fighter/mario/a.bin").is_empty());
    assert!(fs.read_dir("nowhere").is_empty());
}

#[test]
fn entry_types_of_files_and_directories() {
    let fs = modfs_with(&["fighter/mario/a.bin"]);
    assert_eq!(fs.entry_type("fighter/mario/a.bin"), Some(EntryType::File));
    assert_eq!(fs.entry_type("fighter/mario"), Some(EntryType::Directory));
    assert_eq!(fs.entry_type("fighter"), Some(EntryType::Directory));
    assert_eq!(fs.entry_type(""), Some(EntryType::Directory));
    assert_eq!(fs.entry_type("fighter/luigi"), None);
    assert!(fs.path_exists("fighter"));
    assert!(!fs.path_exists("fight"));
    // every listed path exists
    for c in fs.read_dir("fighter") {
        assert!(fs.path_exists(&c));
    }
}

#[test]
fn modfs_settings() {
    let mut fs: ModFs<u8> = ModFs::new();
    assert_eq!(fs.conflict_mode(), ConflictMode::NoRoot);
    fs.set_conflict_mode(ConflictMode::KeepAll);
    assert_eq!(fs.conflict_mode(), ConflictMode::KeepAll);
    assert_eq!(fs.handlers().len(), 6);
    let id = fs.register_handler(info("extra", &["ext"], &[], 2, false));
    assert_eq!(id, HandlerId(6));
    assert_eq!(fs.handlers().lookup("a/b.ext"), Some(HandlerId(6)));
    assert_eq!(fs.patch().num_entries(), 0);
    fs.virt_mut().register(Hash40(5), VirtualEntry { callback: 1u8, max_size: 9 });
    assert_eq!(fs.virt().max_size(Hash40(5)), Some(9));
    fs.handlers_mut().bind_hash(Hash40(5), HandlerId(0));
    assert_eq!(fs.handlers().handlers_for_hash(Hash40(5)), vec![HandlerId(0)]);
}

#[test]
fn stats_count_patched_files() {
    let fs = modfs_with(&["a/b.bin", "a/c.bin", "a/b.bin"]);
    let stats = fs.populate_stats();
    assert_eq!(stats.patch_files, 2);
    assert_eq!(stats.virtual_files, 0);
}

#[test]
fn populating_records_counts_and_binds() {
    let mut fs: ModFs<u8> = ModFs::new();
    let entries = vec![
        ("sd:/mods/a".to_string(), "fighter/x.prcx".to_string(), 5usize),
        ("sd:/mods/a".to_string(), "config.json".to_string(), 3usize),
        ("sd:/mods/b".to_string(), "foo.bin".to_string(), 1usize),
    ];
    let counts = fs.populate_from(&entries, &BuiltinDiscoverer);
    assert_eq!(counts.len(), 6);
    assert_eq!(counts[0], ("config".to_string(), 1));
    assert_eq!(counts[1], ("prc".to_string(), 1));
    assert_eq!(counts[5], ("bgm".to_string(), 0));
    assert!(fs.patch().contains("foo.bin"));
    assert_eq!(fs.patch().get("fighter/x.prcx").unwrap().size, 5);
    assert_eq!(fs.patch().get("foo.bin").unwrap().root, "sd:/mods/b");
    assert_eq!(fs.handlers().handlers_for_hash(Hash40::from_str("fighter/x.prc")), vec![HandlerId(1)]);
    assert_eq!(fs.populate_stats().patch_files, 3);
}

#[test]
fn version_difference_by_findings() {
    let t = || "1.2.0".to_string();
    assert!(matches!(version_difference(true, false, false, t()), Some(VersionDifference::ChangeToBeta(v)) if v == "1.2.0"));
    assert!(matches!(version_difference(false, true, true, t()), Some(VersionDifference::ChangeToStable(_))));
    assert!(matches!(version_difference(false, true, false, t()), None));
    assert!(matches!(version_difference(true, true, true, t()), Some(VersionDifference::Regular(_))));
    assert!(version_difference(true, true, false, t()).is_none());
}

#[test]
fn handler_chain_in_binding_order() {
    let mut r = HandlerRegistry::new();
    register_builtins(&mut r);
    assert_eq!(r.apply_chain(Hash40(1), vec![9], &DefaultApplier).unwrap(), vec![9]);
    r.bind_hash(Hash40(1), HandlerId(2));
    r.bind_hash(Hash40(1), HandlerId(0));
    assert_eq!(r.apply_chain(Hash40(1), vec![9, 8], &DefaultApplier).unwrap(), vec![9, 8]);
}

#[test]
fn base_source_of_patched_and_archive_files() {
    let mut fs = modfs_with(&["a/b.bin"]);
    let h = Hash40::from_str("a/b.bin");
    assert_eq!(fs.base_source(h), (Some(("sd:/mods/m/a/b.bin".to_string(), 1)), false));
    fs.handlers_mut().bind_hash(h, HandlerId(1));
    assert_eq!(fs.base_source(h).1, true);
    assert_eq!(fs.base_source(Hash40(3)), (None, false));
}

#[test]
fn builtin_handlers_bind_the_patched_files() {
    let mut fs: ModFs<u8> = ModFs::new();
    let entries = vec![
        ("sd:/mods/A".to_string(), "fighter/mario/param/x.prcx".to_string(), 100usize),
        ("sd:/mods/A".to_string(), "config.json".to_string(), 10usize),
        ("sd:/mods/B".to_string(), "fighter/mario/model/body/c00/model.numdlb".to_string(), 200usize),
    ];
    let counts = fs.populate_from(&entries, &BuiltinDiscoverer);
    assert_eq!(counts[0], ("config".to_string(), 1));
    assert_eq!(counts[1], ("prc".to_string(), 1));
    assert_eq!(fs.patch().num_entries(), 3);
    assert_eq!(fs.patch().num_roots(), 2);
    assert_eq!(fs.handlers().handlers_for_hash(Hash40::from_str("fighter/mario/param/x.prc")), vec![HandlerId(1)]);
}

#[test]
fn builtin_discovery_by_handler() {
    let h = |s: &str| Some(Hash40::from_str(s));
    assert_eq!(builtin_discover(HandlerId(0), "config.json"), None);
    assert_eq!(builtin_discover(HandlerId(1), "a/b.stdatxml"), h("a/b.stdat"));
    assert_eq!(builtin_discover(HandlerId(1), "a/b.stprmx"), h("a/b.stprm"));
    assert_eq!(builtin_discover(HandlerId(1), "a/b.bin"), None);
    assert_eq!(builtin_discover(HandlerId(2), "ui/msg+us_en.xmsbt"), h("ui/msg.msbt"));
    assert_eq!(builtin_discover(HandlerId(3), "snd/se.patch3audio"), h("snd/se.nus3audio"));
    assert_eq!(builtin_discover(HandlerId(4), "f/motion/motion_list.motdiff"), h("f/motion/motion_list.bin"));
    assert_eq!(builtin_discover(HandlerId(4), "f/motion/other.motdiff"), None);
    assert_eq!(builtin_discover(HandlerId(5), "sound/bgm_property+jp_ja.bin"), h("sound/bgm_property.bin"));
    assert_eq!(builtin_discover(HandlerId(6), "a.bin"), None);
}

#[test]
fn build_metadata_with_hyphen_is_no_prerelease() {
    assert!(matches!(compare_tags("1.0.0", "1.1.0+b-1"), Ok(Some(VersionDifference::Regular(v))) if v == "1.1.0+b-1"));
    assert!(matches!(compare_tags("1.0.0", "1.1.0-rc.1+b"), Ok(Some(VersionDifference::ChangeToBeta(v))) if v == "1.1.0-rc.1+b"));
}
