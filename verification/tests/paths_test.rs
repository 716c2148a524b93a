use zed_core::paths::{
    config_dir, crashes_dir, crashes_retired_dir, data_dir, database_dir, default_prettier_dir,
    extensions_dir, global_settings_file, keymap_backup_file, keymap_file, languages_dir,
    local_debug_file_relative_path, local_settings_file_relative_path,
    local_settings_folder_relative_path, log_file, logs_dir, old_log_file, remote_extensions_dir,
    remote_extensions_uploads_dir, remote_servers_dir, set_custom_data_dir, settings_backup_file,
    settings_file, snippets_dir, temp_dir, themes_dir, Locations, EDITORCONFIG_NAME,
};
use zed_core::path::RelPath;

fn rel(parts: &[&str]) -> RelPath {
    RelPath {
        components: parts.iter().map(|part| part.to_string()).collect(),
    }
}

#[test]
fn joined_paths_strip_again() {
    let dir = rel(&["home", "me"]);
    let path = rel(&["src", "lib.rs"]);
    let joined = dir.join(&path);
    assert_eq!(joined.components, vec!["home", "me", "src", "lib.rs"]);
    let back = joined.strip_prefix(&dir).unwrap();
    assert!(back.same(&path));
    assert!(path.strip_prefix(&dir).is_none());
}

#[test]
fn locations_below_the_home_directory() {
    let mut locations = Locations::new("/Users/me".to_string(), Some("/cache".to_string()));
    assert!(!locations.is_known());
    assert_eq!(temp_dir(&locations), "/cache/ZedMin");
    assert_eq!(logs_dir(&mut locations), "/Users/me/Library/Logs/ZedMin");
    assert_eq!(log_file(&mut locations), "/Users/me/Library/Logs/ZedMin/ZedMin.log");
    assert_eq!(old_log_file(&mut locations), "/Users/me/Library/Logs/ZedMin/ZedMin.log.old");
    assert_eq!(
        crashes_retired_dir(&locations),
        Some("/Users/me/Library/Logs/DiagnosticReports/Retired".to_string())
    );
    assert_eq!(config_dir(&mut locations), "/Users/me/.config/zed");
    assert!(locations.is_known());
    assert_eq!(data_dir(&mut locations), "/Users/me/Library/Application Support/Zed");
    assert_eq!(settings_file(&mut locations), "/Users/me/.config/zed/settings.json");
    assert_eq!(global_settings_file(&mut locations), "/Users/me/.config/zed/global_settings.json");
    assert_eq!(settings_backup_file(&mut locations), "/Users/me/.config/zed/settings_backup.json");
    assert_eq!(keymap_file(&mut locations), "/Users/me/.config/zed/keymap.json");
    assert_eq!(keymap_backup_file(&mut locations), "/Users/me/.config/zed/keymap_backup.json");
    assert_eq!(themes_dir(&mut locations), "/Users/me/.config/zed/themes");
    assert_eq!(snippets_dir(&mut locations), "/Users/me/.config/zed/snippets");
    let data = "/Users/me/Library/Application Support/Zed";
    assert_eq!(database_dir(&mut locations), format!("{}/db", data));
    assert_eq!(extensions_dir(&mut locations), format!("{}/extensions", data));
    assert_eq!(remote_extensions_dir(&mut locations), format!("{}/remote_extensions", data));
    assert_eq!(
        remote_extensions_uploads_dir(&mut locations),
        format!("{}/remote_extensions/uploads", data)
    );
    assert_eq!(languages_dir(&mut locations), format!("{}/languages", data));
    assert_eq!(default_prettier_dir(&mut locations), format!("{}/prettier", data));
    assert_eq!(remote_servers_dir(&mut locations), format!("{}/remote_servers", data));
    assert_eq!(local_settings_folder_relative_path(), ".zed");
    assert_eq!(local_settings_file_relative_path(), ".zed-min/settings.json");
    assert_eq!(local_debug_file_relative_path(), ".zed/debug.json");
    assert_eq!(EDITORCONFIG_NAME, ".editorconfig");
}

#[test]
fn custom_directory_holds_all() {
    let mut locations = Locations::new("/home/me".to_string(), None);
    assert_eq!(set_custom_data_dir(&mut locations, "/data/zed"), "/data/zed");
    // The first directory that was set stays.
    assert_eq!(set_custom_data_dir(&mut locations, "/other"), "/data/zed");
    assert_eq!(locations.custom_data_dir(), Some(&"/data/zed".to_string()));
    assert_eq!(data_dir(&mut locations), "/data/zed");
    assert_eq!(config_dir(&mut locations), "/data/zed/config");
    assert_eq!(database_dir(&mut locations), "/data/zed/db");
    assert_eq!(data_dir(&mut locations), "/data/zed");
    assert_eq!(logs_dir(&mut locations), "/data/zed/logs");
    assert_eq!(log_file(&mut locations), "/data/zed/logs/ZedMin.log");
    assert_eq!(crashes_dir(&locations), Some("/home/me/Library/Logs/DiagnosticReports".to_string()));
}

#[test]
fn logs_stay_where_they_were_first_asked_for() {
    let mut locations = Locations::new("/home/me".to_string(), None);
    assert_eq!(logs_dir(&mut locations), "/home/me/Library/Logs/ZedMin");
    assert_eq!(set_custom_data_dir(&mut locations, "/data/zed"), "/data/zed");
    assert_eq!(logs_dir(&mut locations), "/home/me/Library/Logs/ZedMin");
    assert_eq!(data_dir(&mut locations), "/data/zed");
}
