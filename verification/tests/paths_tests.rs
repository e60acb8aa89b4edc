use codex_tools::pathparts::{path_file_name, relative_path, same_components};
use codex_tools::paths::{
    app_config_dir, auth_json_path, bridge_qr_image_path, cc_connect_config_path, cc_connect_dir,
    codex_dir, config_toml_path, expand_home, get_home_dir, join_path, managed_cc_connect_bin_dir,
    managed_cc_connect_binary_path, managed_cc_connect_bridge_log_path,
    managed_cc_connect_bridge_pid_path, managed_cc_connect_dir, managed_cc_connect_setup_log_path,
    managed_cc_connect_setup_pid_path, providers_config_path, webdav_config_path, PathEnv,
};

fn env(codex_home: Option<&str>, home: Option<&str>, config: Option<&str>) -> PathEnv {
    PathEnv {
        codex_home: codex_home.map(|s| s.to_string()),
        home_dir: home.map(|s| s.to_string()),
        user_profile: None,
        home_drive: None,
        home_path: None,
        config_dir: config.map(|s| s.to_string()),
        windows: false,
    }
}

#[test]
fn join_adds_one_separator() {
    assert_eq!(join_path("/home/u", ".codex", false), "/home/u/.codex");
    assert_eq!(join_path("/home/u/", ".codex", false), "/home/u/.codex");
    assert_eq!(join_path("/home/u", "/etc", false), "/etc");
    assert_eq!(join_path("", "a", false), "a");
    assert_eq!(join_path("C:\\Users\\u", ".codex", true), "C:\\Users\\u\\.codex");
}

#[test]
fn codex_dir_defaults_to_dot_codex_in_home() {
    let e = env(None, Some("/home/u"), None);
    assert_eq!(codex_dir(&e), "/home/u/.codex");
    assert_eq!(config_toml_path(&e), "/home/u/.codex/config.toml");
    assert_eq!(auth_json_path(&e), "/home/u/.codex/auth.json");
    assert_eq!(webdav_config_path(&e), "/home/u/.codex/webdav_sync_config.json");
}

#[test]
fn codex_home_wins_and_expands_tilde() {
    assert_eq!(codex_dir(&env(Some("/data/codex"), Some("/home/u"), None)), "/data/codex");
    assert_eq!(codex_dir(&env(Some("~"), Some("/home/u"), None)), "/home/u");
    assert_eq!(codex_dir(&env(Some("~/x/.codex"), Some("/home/u"), None)), "/home/u/x/.codex");
    assert_eq!(codex_dir(&env(Some("~/x"), None, None)), "~/x");
    assert_eq!(codex_dir(&env(Some(""), Some("/home/u"), None)), "/home/u/.codex");
}

#[test]
fn expand_home_leaves_other_paths() {
    let home = Some("/h".to_string());
    assert_eq!(expand_home("~user/x", &home, false), "~user/x");
    assert_eq!(expand_home("~\\x", &home, false), "/h/x");
}

#[test]
fn home_falls_back_through_the_environment() {
    let mut e = env(None, None, None);
    assert_eq!(get_home_dir(&e), ".");
    e.home_drive = Some("/drive".to_string());
    e.home_path = Some("users/u".to_string());
    assert_eq!(get_home_dir(&e), "/drive/users/u");
    e.user_profile = Some(String::new());
    assert_eq!(get_home_dir(&e), "/drive/users/u");
    e.user_profile = Some("/profiles/me".to_string());
    assert_eq!(get_home_dir(&e), "/profiles/me");
    e.home_dir = Some("/home/u".to_string());
    assert_eq!(get_home_dir(&e), "/home/u");
}

#[test]
fn tool_directories_live_under_the_config_dir() {
    let e = env(None, Some("/home/u"), Some("/home/u/.config"));
    assert_eq!(app_config_dir(&e), Some("/home/u/.config/codex-tools".to_string()));
    assert_eq!(
        providers_config_path(&e),
        Some("/home/u/.config/codex-tools/providers.json".to_string())
    );
    assert_eq!(cc_connect_dir(&e), Some("/home/u/.config/codex-tools/wechatbot".to_string()));
    assert_eq!(
        cc_connect_config_path(&e),
        Some("/home/u/.config/codex-tools/wechatbot/config.toml".to_string())
    );
    assert_eq!(
        bridge_qr_image_path(&e),
        Some("/home/u/.config/codex-tools/wechatbot/qr/weixin-qr.png".to_string())
    );
    let rt = "/home/u/.config/codex-tools/wechatbot/runtime";
    assert_eq!(managed_cc_connect_dir(&e), Some(rt.to_string()));
    assert_eq!(managed_cc_connect_bin_dir(&e), Some(format!("{rt}/bin")));
    assert_eq!(managed_cc_connect_binary_path(&e), Some(format!("{rt}/bin/cc-connect")));
    assert_eq!(managed_cc_connect_bridge_pid_path(&e), Some(format!("{rt}/bridge.pid")));
    assert_eq!(managed_cc_connect_setup_pid_path(&e), Some(format!("{rt}/setup.pid")));
    assert_eq!(managed_cc_connect_bridge_log_path(&e), Some(format!("{rt}/bridge.log")));
    assert_eq!(managed_cc_connect_setup_log_path(&e), Some(format!("{rt}/setup.log")));
}

#[test]
fn windows_binary_has_exe_suffix_and_no_dirs_means_none() {
    let mut e = env(None, Some("C:\\Users\\u"), None);
    e.windows = true;
    assert_eq!(
        managed_cc_connect_binary_path(&e),
        Some("C:\\Users\\u\\codex-tools\\wechatbot\\runtime\\bin\\cc-connect.exe".to_string())
    );
    let none = env(None, None, None);
    assert_eq!(app_config_dir(&none), None);
    assert_eq!(providers_config_path(&none), None);
}

#[test]
fn file_name_follows_path_rules() {
    assert_eq!(path_file_name("/a/b/rollout-1.jsonl", false), Some("rollout-1.jsonl".to_string()));
    assert_eq!(path_file_name("foo.txt/.//", false), Some("foo.txt".to_string()));
    assert_eq!(path_file_name("/a/..", false), None);
    assert_eq!(path_file_name("/", false), None);
    assert_eq!(path_file_name(".", false), None);
    assert_eq!(path_file_name("C:\\p\\proj", true), Some("proj".to_string()));
}

#[test]
fn relative_path_strips_the_root_components() {
    assert_eq!(
        relative_path("/home/u/.codex", "/home/u/.codex/sessions/2025/rollout-a.jsonl", false),
        Some("sessions/2025/rollout-a.jsonl".to_string())
    );
    assert_eq!(
        relative_path("/home/u/.codex/", "/home/u/.codex//archived_sessions/./x.jsonl", false),
        Some("archived_sessions/x.jsonl".to_string())
    );
    assert_eq!(relative_path("/home/u/.codex", "/home/v/x.jsonl", false), None);
    assert_eq!(relative_path("/a", "/a", false), Some(String::new()));
}

#[test]
fn paths_compare_by_components() {
    assert!(same_components("/usr/bin/", "/usr/bin", false));
    assert!(same_components("/usr//bin", "/usr/bin", false));
    assert!(!same_components("/usr/bin", "usr/bin", false));
}

#[test]
fn runtime_files_are_four_different_files_of_one_directory() {
    let e = PathEnv { windows: true, ..env(None, Some("C:\\Users\\u"), None) };
    let dir = managed_cc_connect_dir(&e).unwrap();
    let files = [
        managed_cc_connect_bridge_pid_path(&e).unwrap(),
        managed_cc_connect_setup_pid_path(&e).unwrap(),
        managed_cc_connect_bridge_log_path(&e).unwrap(),
        managed_cc_connect_setup_log_path(&e).unwrap(),
    ];
    for (i, a) in files.iter().enumerate() {
        assert!(a.starts_with(&dir));
        for b in files.iter().skip(i + 1) {
            assert_ne!(a, b);
        }
    }
    assert_eq!(files[0], format!("{dir}\\bridge.pid"));
}
