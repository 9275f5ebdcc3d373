use arcropolis::offsets::{
    eshop_show, filesystem_info, find_subsequence, inflate, inflate_dir_file, initial_loading, lookup_stream_hash,
    memcpy_1, memcpy_2, memcpy_3, res_load_loop_refresh, res_load_loop_start, res_service, title_screen_version,
    Offsets, ESHOPMANAGER_SHOW_SEARCH_CODE, FILESYSTEM_INFO_ADRP_SEARCH_CODE, INFLATE_DIR_FILE_SEARCH_CODE,
    INFLATE_SEARCH_CODE, INITIAL_LOADING_SEARCH_CODE, LOOKUP_STREAM_HASH_SEARCH_CODE, MANUAL_OPEN_SEARCH_CODE,
    MEMCPY_1_SEARCH_CODE, MEMCPY_2_SEARCH_CODE, MEMCPY_3_SEARCH_CODE, PROCESS_RESOURCE_NODE_SEARCH_CODE,
    RES_LOAD_LOOP_REFRESH_SEARCH_CODE, RES_LOAD_LOOP_START_SEARCH_CODE, RES_SERVICE_ADRP_SEARCH_CODE,
    TITLE_SCREEN_VERSION_SEARCH_CODE,
};
use arcropolis::region::Region;
use arcropolis::util::env::{get_running_env, is_emulator, is_ryujinx, RunEnvironment, RYUJINX_TEXT_ADDRESS};
use arcropolis::utils::paths::{cache, config, logs, mods};
use arcropolis::utils::save::{get_system_region_from_language_id, language_from_save_byte, SaveLanguageId};
use arcropolis::selector::{get_arguments_from_url, selected_workspace, workspace_config, Workspace, Workspaces};

fn first(hay: &[u8], needle: &[u8]) -> usize {
    hay.windows(needle.len()).position(|w| w == needle).unwrap()
}

#[test]
fn subsequence_first_place() {
    assert_eq!(find_subsequence(&[1, 2, 3, 2, 3], &[2, 3]), Some(1));
    assert_eq!(find_subsequence(&[1, 2, 3], &[3, 4]), None);
    assert_eq!(find_subsequence(&[1], &[1, 1]), None);
    assert_eq!(find_subsequence(&[7, 7], &[7]), Some(0));
}

fn code_section() -> Vec<u8> {
    let mut text = vec![0u8; 32];
    let codes: Vec<&[u8]> = vec![
        &LOOKUP_STREAM_HASH_SEARCH_CODE,
        &INFLATE_SEARCH_CODE,
        &MEMCPY_1_SEARCH_CODE,
        &MEMCPY_2_SEARCH_CODE,
        &MEMCPY_3_SEARCH_CODE,
        &INFLATE_DIR_FILE_SEARCH_CODE,
        &MANUAL_OPEN_SEARCH_CODE,
        &INITIAL_LOADING_SEARCH_CODE,
        &PROCESS_RESOURCE_NODE_SEARCH_CODE,
        &RES_LOAD_LOOP_START_SEARCH_CODE,
        &RES_LOAD_LOOP_REFRESH_SEARCH_CODE,
        &TITLE_SCREEN_VERSION_SEARCH_CODE,
        &ESHOPMANAGER_SHOW_SEARCH_CODE,
        &RES_SERVICE_ADRP_SEARCH_CODE,
    ];
    for c in codes {
        text.extend_from_slice(c);
        text.extend_from_slice(&[0u8; 16]);
    }
    text.extend_from_slice(&FILESYSTEM_INFO_ADRP_SEARCH_CODE);
    // ADRP x0, +4 pages; LDR x0, [x0, #16]
    text.extend_from_slice(&0x9000_0020u32.to_le_bytes());
    text.extend_from_slice(&0xF940_0800u32.to_le_bytes());
    text.extend_from_slice(&[0u8; 16]);
    text
}

#[test]
fn offsets_found_in_the_code_section() {
    let text = code_section();
    let o = Offsets::new(&text);
    assert_eq!(lookup_stream_hash(&o), first(&text, &LOOKUP_STREAM_HASH_SEARCH_CODE));
    assert_eq!(inflate(&o), first(&text, &INFLATE_SEARCH_CODE));
    assert_eq!(memcpy_1(&o), first(&text, &MEMCPY_1_SEARCH_CODE) - 4);
    assert_eq!(memcpy_2(&o), first(&text, &MEMCPY_2_SEARCH_CODE) - 4);
    assert_eq!(memcpy_3(&o), first(&text, &MEMCPY_3_SEARCH_CODE) - 4);
    assert_eq!(inflate_dir_file(&o), first(&text, &INFLATE_DIR_FILE_SEARCH_CODE));
    assert_eq!(initial_loading(&o), first(&text, &INITIAL_LOADING_SEARCH_CODE));
    assert_eq!(o.process_resource_node, first(&text, &PROCESS_RESOURCE_NODE_SEARCH_CODE) + 0xC);
    assert_eq!(res_load_loop_start(&o), first(&text, &RES_LOAD_LOOP_START_SEARCH_CODE));
    assert_eq!(res_load_loop_refresh(&o), first(&text, &RES_LOAD_LOOP_REFRESH_SEARCH_CODE));
    assert_eq!(title_screen_version(&o), first(&text, &TITLE_SCREEN_VERSION_SEARCH_CODE));
    assert_eq!(eshop_show(&o), first(&text, &ESHOPMANAGER_SHOW_SEARCH_CODE) - 16);
    assert_eq!(filesystem_info(&o), 0x4000 + 16);
    assert_eq!(res_service(&o), 0);
}

#[test]
fn emulator_told_by_text_address() {
    assert_eq!(get_running_env(RYUJINX_TEXT_ADDRESS), RunEnvironment::Ryujinx);
    assert_eq!(get_running_env(0x8500_0000), RunEnvironment::Switch);
    assert!(is_ryujinx(0x800_4000));
    assert!(!is_ryujinx(0));
    assert!(is_emulator(0));
    assert!(!is_emulator(0x800_4000));
}

#[test]
fn regions_by_number_and_code() {
    assert_eq!(Region::from_index(1), Region::Japanese);
    assert_eq!(Region::from_index(14), Region::TaiwanChinese);
    assert_eq!(Region::from_index(15), Region::NoRegion);
    assert_eq!(Region::from_index(0), Region::NoRegion);
    assert_eq!(Region::UsEnglish.index(), 2);
    assert_eq!(Region::UsEnglish.code(), "us_en");
    assert_eq!(Region::EuGerman.code(), "eu_de");
}

#[test]
fn languages_pick_regions() {
    assert_eq!(language_from_save_byte(0), SaveLanguageId::Japanese);
    assert_eq!(language_from_save_byte(10), SaveLanguageId::Korean);
    assert_eq!(language_from_save_byte(200), SaveLanguageId::English);
    assert_eq!(get_system_region_from_language_id(SaveLanguageId::English, 1), Region::UsEnglish);
    assert_eq!(get_system_region_from_language_id(SaveLanguageId::English, 2), Region::EuEnglish);
    assert_eq!(get_system_region_from_language_id(SaveLanguageId::Spanish, 1), Region::UsSpanish);
    assert_eq!(get_system_region_from_language_id(SaveLanguageId::German, 1), Region::EuGerman);
    assert_eq!(get_system_region_from_language_id(SaveLanguageId::Taiwanese, 0), Region::TaiwanChinese);
}

#[test]
fn folders_on_the_card() {
    assert_eq!(mods(), "sd:/ultimate/mods");
    assert_eq!(config(), "sd:/ultimate/arcropolis/config");
    assert_eq!(logs(), "sd:/ultimate/arcropolis/logs");
    assert_eq!(cache("13.0.1"), "sd:/ultimate/arcropolis/cache/13.0.1");
}

#[test]
fn url_arguments_after_the_host() {
    assert_eq!(get_arguments_from_url("http://localhost/3"), "3");
    assert_eq!(get_arguments_from_url("http://localhost/"), "");
    assert_eq!(get_arguments_from_url("http://localhost/é1"), "é1");
}

fn workspaces(names: &[&str]) -> Workspaces {
    Workspaces {
        workspace: names.iter().enumerate().map(|(i, n)| Workspace { index: i as u8, name: n.to_string(), in_use: false }).collect(),
    }
}

#[test]
fn selector_picks_the_workspace_by_place() {
    let w = workspaces(&["first", "second"]);
    assert_eq!(selected_workspace("http://localhost/1", &w), Some("rom:/arcropolis/workspaces/second".to_string()));
    assert_eq!(selected_workspace("http://localhost/+0", &w), Some("rom:/arcropolis/workspaces/first".to_string()));
    assert_eq!(selected_workspace("http://localhost/2", &w), None);
    assert_eq!(selected_workspace("http://localhost/x", &w), None);
    assert_eq!(selected_workspace("http://localhost/300", &w), None);
}

#[test]
fn workspace_config_uses_the_folders_it_has() {
    let c = workspace_config("rom:/ws/a", true, false);
    assert_eq!(c.arc, Some("rom:/ws/a/arc".to_string()));
    assert_eq!(c.umm, None);
    assert!(c.changed());
    let c = workspace_config("rom:/ws/a", false, false);
    assert!(!c.changed());
}
