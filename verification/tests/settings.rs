use sdvx_b50::settings::app_base_dir_from_exe;

#[test]
fn macos_app_base_dir_points_next_to_bundle() {
    let exe = "/Users/test/Desktop/SDVX B50 Tool.app/Contents/MacOS/sdvx-b50-tool";

    assert_eq!(app_base_dir_from_exe(exe, true).unwrap(), "/Users/test/Desktop");
}

#[test]
fn non_bundle_base_dir_points_to_executable_parent() {
    let exe = "/Users/test/project/target/release/sdvx-b50-tool";

    assert_eq!(
        app_base_dir_from_exe(exe, false).unwrap(),
        "/Users/test/project/target/release"
    );
}

use sdvx_b50::settings::{
    complete_settings, data_dir_candidates, default_output_path, discover_default_paths,
    first_existing_dir, savedata_dir_candidates, settings_path, AppSettings,
};

fn settings(data_dir: &str, savedata_dir: &str, qq: &str) -> AppSettings {
    AppSettings {
        data_dir: data_dir.to_string(),
        savedata_dir: savedata_dir.to_string(),
        background_image: "bg.png".to_string(),
        upload_server_url: String::new(),
        upload_qq: qq.to_string(),
        score_source: String::new(),
        cloud_server_url: String::new(),
        cloud_card_id: String::new(),
        cloud_password: String::new(),
        cloud_pcbid: String::new(),
    }
}

#[test]
fn the_first_bundle_on_the_way_up_is_used() {
    assert_eq!(app_base_dir_from_exe("/A.app/B.app/Contents/MacOS/tool", true).unwrap(), "/A.app");
    assert_eq!(app_base_dir_from_exe("/opt/tool/bin/tool", true).unwrap(), "/opt/tool/bin");
}

#[test]
fn an_executable_without_a_folder_has_no_base() {
    assert_eq!(
        app_base_dir_from_exe("/", false),
        Err("Failed to resolve executable directory.".to_string())
    );
    assert_eq!(app_base_dir_from_exe("tool", false), Ok(String::new()));
}

#[test]
fn files_go_into_the_application_folder() {
    assert_eq!(settings_path("/apps/b50"), "/apps/b50/sdvx-b50-tool.settings.json");
    assert_eq!(default_output_path("/apps/b50", "b50.png"), "/apps/b50/b50.png");
    assert_eq!(default_output_path("/apps/b50", "/tmp/x.png"), "/tmp/x.png");
}

#[test]
fn default_folders_are_looked_for_in_order() {
    assert_eq!(data_dir_candidates("/base"), vec!["/base/data", "/base/contents/data"]);
    assert_eq!(savedata_dir_candidates("/base"), vec!["/base/savedata", "/base/asphyxia/savedata"]);
}

#[test]
fn the_first_existing_folder_is_taken() {
    let candidates = vec![("/a".to_string(), false), ("/b".to_string(), true), ("/c".to_string(), true)];
    assert_eq!(first_existing_dir(&candidates), "/b");
    assert_eq!(first_existing_dir(&vec![("/a".to_string(), false)]), "");
    let found = discover_default_paths(
        &vec![("/d".to_string(), true), ("/e".to_string(), true)],
        &vec![("/s".to_string(), false)],
    );
    assert_eq!(found.data_dir, "/d");
    assert_eq!(found.savedata_dir, "");
    assert_eq!(found.background_image, "");
}

#[test]
fn saved_settings_are_completed_with_discovered_folders() {
    let done = complete_settings(settings("", "/saved", "12345"), settings("/found", "/found-save", ""));
    assert_eq!(done.data_dir, "/found");
    assert_eq!(done.savedata_dir, "/saved");
    assert_eq!(done.upload_qq, "12345");
    assert_eq!(done.background_image, "bg.png");
}

fn flagged(candidates: Vec<String>, exists: [bool; 2]) -> Vec<(String, bool)> {
    candidates.into_iter().zip(exists).collect()
}

#[test]
fn discovers_direct_data_and_savedata_first() {
    let base = "/tmp/sdvx-b50-settings-direct";
    let settings = discover_default_paths(
        &flagged(data_dir_candidates(base), [true, true]),
        &flagged(savedata_dir_candidates(base), [true, true]),
    );

    assert_eq!(settings.data_dir, format!("{base}/data"));
    assert_eq!(settings.savedata_dir, format!("{base}/savedata"));
}

#[test]
fn discovers_nested_fallback_paths() {
    let base = "/tmp/sdvx-b50-settings-nested";
    let settings = discover_default_paths(
        &flagged(data_dir_candidates(base), [false, true]),
        &flagged(savedata_dir_candidates(base), [false, true]),
    );

    assert_eq!(settings.data_dir, format!("{base}/contents/data"));
    assert_eq!(settings.savedata_dir, format!("{base}/asphyxia/savedata"));
}
