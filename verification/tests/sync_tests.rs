use codex_tools::dav::RemoteEntry;
use codex_tools::json::JsonValue;
use codex_tools::manifest::{
    manifest_from_entries, merge_local_threads_into_manifest, merge_threads, thread_id_from_relative,
    ManifestThread, SyncManifest,
};
use codex_tools::sync_plan::{
    backup_path, check_local_threads, collect_remote_files, count_merged, get_ok, local_file_path,
    mkcol_ok, mkcol_paths, plan_directory, plan_pull, plan_push, propfind_failure, propfind_ok,
    pull_message, pull_should_skip, push_message, put_ok, sync_roots, RemoteTreeWalk,
};
use codex_tools::webdav::{
    check_webdav_config, identity_key, index_lines, is_rollout_file, local_threads,
    normalized_base_url, project_names, project_names_of_index, slashed_path, store_path_of, thread_id_from_filename, LocalFile, SyncError,
    ThreadRecord, WebDavConfig,
};

fn config(base: &str, user: &str) -> WebDavConfig {
    WebDavConfig {
        base_url: base.to_string(),
        username: user.to_string(),
        password: String::new(),
        verify_tls: true,
    }
}

fn thread(project: &str, id: &str, rel: &str, modified: Option<i64>, size: Option<u64>) -> ThreadRecord {
    ThreadRecord {
        project_name: project.to_string(),
        thread_id: id.to_string(),
        relative_path: rel.to_string(),
        local_path: format!("/c/{rel}"),
        archived: rel.starts_with("archived_sessions/"),
        updated_at: None,
        modified_at: modified,
        size,
    }
}

fn mthread(project: &str, id: &str, rel: &str) -> ManifestThread {
    ManifestThread {
        project_name: project.to_string(),
        thread_id: id.to_string(),
        relative_path: rel.to_string(),
        archived: false,
        updated_at: None,
        size: None,
    }
}

fn entry(rel: &str, dir: bool, modified: Option<i64>, size: Option<u64>) -> RemoteEntry {
    RemoteEntry { relative_path: rel.to_string(), is_directory: dir, last_modified: modified, size }
}

const ID: &str = "0199a1b2-c3d4-7e5f-8a9b-0c1d2e3f4a5b";

#[test]
fn default_config_checks_tls() {
    let c = WebDavConfig::default();
    assert!(c.verify_tls);
    assert!(c.base_url.is_empty() && c.username.is_empty() && c.password.is_empty());
}

#[test]
fn config_needs_address_and_user() {
    assert!(matches!(check_webdav_config(&config("  ", "u")), Err(SyncError::MissingBaseUrl)));
    assert!(matches!(check_webdav_config(&config("https://h/", " ")), Err(SyncError::MissingUsername)));
    assert!(check_webdav_config(&config("https://h/", "u")).is_ok());
}

#[test]
fn base_url_gets_a_trailing_slash() {
    assert_eq!(normalized_base_url(&config(" https://h/dav ", "u")).unwrap(), "https://h/dav/");
    assert_eq!(normalized_base_url(&config("https://h", "u")).unwrap(), "https://h/");
}

#[test]
fn base_url_naming_a_sync_root_is_taken_to_its_parent() {
    assert_eq!(
        normalized_base_url(&config("https://h/dav/codex/sessions", "u")).unwrap(),
        "https://h/dav/codex/"
    );
    assert_eq!(
        normalized_base_url(&config("https://h/archived_sessions/", "u")).unwrap(),
        "https://h/"
    );
}

#[test]
fn base_url_errors() {
    assert!(matches!(normalized_base_url(&config("   ", "u")), Err(SyncError::EmptyBaseUrl)));
    assert!(matches!(
        normalized_base_url(&config("no scheme", "u")),
        Err(SyncError::InvalidBaseUrl(t)) if t == "no scheme"
    ));
}

#[test]
fn identity_trims_both_parts() {
    assert_eq!(identity_key(" proj ", " id "), "proj::id");
    assert_eq!(identity_key("", "id"), "::id");
}

#[test]
fn thread_ids_come_from_file_names() {
    let name = format!("rollout-2025-07-01T10-00-00-{ID}.jsonl");
    assert_eq!(thread_id_from_filename(&name), Some(ID.to_string()));
    assert_eq!(thread_id_from_filename("rollout-short.jsonl"), Some("short".to_string()));
    assert_eq!(thread_id_from_filename("rollout-.jsonl"), Some(String::new()));
    assert_eq!(thread_id_from_filename("session.jsonl"), None);
    assert_eq!(thread_id_from_filename("rollout-x.json"), None);
    assert!(is_rollout_file("/c/sessions/rollout-x.jsonl", false));
    assert!(is_rollout_file("/c/sessions/rollout-x.jsonl/", false));
    assert!(!is_rollout_file("/c/session_index.jsonl", false));
    assert_eq!(thread_id_from_relative(&format!("sessions/2025/rollout-{ID}.jsonl")), Some(ID.to_string()));
}

#[test]
fn index_lines_skip_blank_ones() {
    let lines = index_lines("{\"id\":\"a\"}\r\n\n  \n{\"id\":\"b\"}");
    assert_eq!(lines, vec!["{\"id\":\"a\"}".to_string(), "{\"id\":\"b\"}".to_string()]);
}

fn obj(members: Vec<(&str, &str)>) -> JsonValue {
    JsonValue::Object(
        members.into_iter().map(|(k, v)| (k.to_string(), JsonValue::Str(v.to_string()))).collect(),
    )
}

#[test]
fn project_names_prefer_the_name_then_the_directory() {
    let values = vec![
        Some(obj(vec![("id", "a"), ("project_name", "Alpha")])),
        Some(obj(vec![("id", "b"), ("cwd", "/work/beta")])),
        None,
        Some(obj(vec![("cwd", "/work/none")])),
        Some(obj(vec![("id", "c")])),
        Some(obj(vec![("id", "a"), ("project_name", "Again")])),
    ];
    let names = project_names(&values, false);
    assert_eq!(
        names,
        vec![
            ("a".to_string(), "Again".to_string()),
            ("b".to_string(), "beta".to_string()),
            ("c".to_string(), String::new()),
        ]
    );
}

#[test]
fn local_threads_are_found_and_keyed_by_identity() {
    let files = vec![
        LocalFile { path: format!("/c/sessions/2025/rollout-a-{ID}.jsonl"), modified_at: Some(5), size: Some(10) },
        LocalFile { path: "/c/sessions/notes.txt".to_string(), modified_at: None, size: None },
        LocalFile { path: format!("/c/archived_sessions/rollout-b-{ID}.jsonl"), modified_at: Some(6), size: Some(11) },
    ];
    let names = vec![(ID.to_string(), "proj".to_string())];
    let threads = local_threads("/c", &files, &names, false).unwrap();
    assert_eq!(threads.len(), 1);
    assert_eq!(threads[0].relative_path, format!("archived_sessions/rollout-b-{ID}.jsonl"));
    assert!(threads[0].archived);
    assert_eq!(threads[0].project_name, "proj");
    assert_eq!(threads[0].size, Some(11));
}

#[test]
fn a_file_outside_the_codex_dir_is_an_error() {
    let files = vec![LocalFile { path: "/elsewhere/rollout-x.jsonl".to_string(), modified_at: None, size: None }];
    assert!(matches!(
        local_threads("/c", &files, &Vec::new(), false),
        Err(SyncError::OutsideCodexDir(p)) if p == "/elsewhere/rollout-x.jsonl"
    ));
    assert!(matches!(
        check_local_threads(&Vec::new(), "/c"),
        Err(SyncError::NoLocalThreads(d)) if d == "/c"
    ));
}

#[test]
fn merge_replaces_records_of_local_threads_and_sorts() {
    let manifest = vec![
        mthread("zeta", "t1", "sessions/old-t1.jsonl"),
        mthread("", "t2", "sessions/t2.jsonl"),
        mthread("alpha", "t3", "sessions/t3.jsonl"),
        mthread("alpha", "t3", "sessions/t3-later.jsonl"),
    ];
    let local = vec![thread("beta", "t1", "sessions/t1.jsonl", None, Some(3))];
    let merged = merge_threads(&manifest, &local);
    let listed: Vec<(String, String, String)> =
        merged.iter().map(|t| (t.project_name.clone(), t.thread_id.clone(), t.relative_path.clone())).collect();
    assert_eq!(
        listed,
        vec![
            (String::new(), "t2".to_string(), "sessions/t2.jsonl".to_string()),
            ("alpha".to_string(), "t3".to_string(), "sessions/t3-later.jsonl".to_string()),
            ("beta".to_string(), "t1".to_string(), "sessions/t1.jsonl".to_string()),
        ]
    );
    assert_eq!(merged[2].size, Some(3));
}

#[test]
fn merging_into_the_manifest_sets_version_one() {
    let mut m = SyncManifest::default();
    assert_eq!(m.version, 0);
    merge_local_threads_into_manifest(&mut m, &vec![thread("p", "t", "sessions/t.jsonl", None, None)]);
    assert_eq!(m.version, 1);
    assert_eq!(m.threads.len(), 1);
    assert!(!m.updated_at.is_empty());
}

#[test]
fn manifest_from_store_files_sorts_by_thread_id() {
    let entries = vec![
        entry(&format!("archived_sessions/rollout-{}.jsonl", "b"), false, Some(9), Some(2)),
        entry("sessions", true, None, None),
        entry("session_index.jsonl", false, None, None),
        entry(&format!("sessions/rollout-{}.jsonl", "a"), false, None, None),
    ];
    let m = manifest_from_entries(&entries);
    assert_eq!(m.version, 1);
    assert_eq!(m.threads.len(), 2);
    assert_eq!(m.threads[0].thread_id, "a");
    assert_eq!(m.threads[1].thread_id, "b");
    assert!(m.threads[1].archived);
    assert_eq!(m.threads[1].updated_at, Some(9));
    assert_eq!(m.threads[1].project_name, "");
}

#[test]
fn push_skips_up_to_date_files_and_counts_moves() {
    let local = vec![
        thread("p", "t1", "sessions/2025/07/t1.jsonl", Some(100), Some(10)),
        thread("p", "t2", "sessions/2025/07/t2.jsonl", Some(100), Some(10)),
        thread("p", "t3", "archived_sessions/t3.jsonl", Some(100), Some(10)),
    ];
    let manifest = vec![mthread("p", "t2", "sessions/old/t2.jsonl")];
    let remote = vec![
        entry("sessions/2025/07/t1.jsonl", false, Some(100), Some(10)),
        entry("sessions/old/t2.jsonl", false, Some(50), Some(10)),
    ];
    let plan = plan_push(&local, &manifest, &remote);
    assert_eq!(plan.skipped, 1);
    assert_eq!(plan.relocated, 1);
    assert_eq!(plan.uploads.len(), 2);
    assert_eq!(plan.uploads[0].relative_path, "sessions/2025/07/t2.jsonl");
    assert!(plan.uploads[0].directories.is_empty());
    assert_eq!(plan.uploads[0].local_path, "/c/sessions/2025/07/t2.jsonl");
    assert_eq!(plan.uploads[1].directories, vec!["archived_sessions/".to_string()]);
}

#[test]
fn push_sends_a_newer_or_resized_file() {
    let local = vec![thread("p", "t1", "sessions/t1.jsonl", Some(200), Some(10))];
    let remote = vec![entry("sessions/t1.jsonl", false, Some(100), Some(10))];
    assert_eq!(plan_push(&local, &Vec::new(), &remote).uploads.len(), 1);
    let local = vec![thread("p", "t1", "sessions/t1.jsonl", Some(100), Some(11))];
    assert_eq!(plan_push(&local, &Vec::new(), &remote).uploads.len(), 1);
    let local = vec![thread("p", "t1", "sessions/t1.jsonl", None, Some(10))];
    assert_eq!(plan_push(&local, &Vec::new(), &remote).uploads.len(), 1);
}

#[test]
fn directories_are_created_once_per_prefix() {
    assert_eq!(mkcol_paths("/a/b/"), vec!["a/".to_string(), "a/b/".to_string()]);
    assert!(mkcol_paths(".").is_empty());
    assert!(mkcol_paths("//").is_empty());
    let mut ensured = vec!["a".to_string()];
    let reqs = plan_directory("a/b/c", &mut ensured);
    assert_eq!(reqs, vec!["a/b/".to_string(), "a/b/c/".to_string()]);
    assert!(ensured.contains(&"a/b/c".to_string()));
    assert!(plan_directory("a/b", &mut ensured).is_empty());
    assert_eq!(plan_directory("/a/b/d/", &mut ensured), vec!["a/b/d/".to_string()]);
    let mut fresh: Vec<String> = Vec::new();
    assert_eq!(plan_directory("x/y", &mut fresh), vec!["x/".to_string(), "x/y/".to_string()]);
    assert!(plan_directory("x", &mut fresh).is_empty());
    assert!(plan_directory(".", &mut fresh).is_empty());
}

#[test]
fn pull_targets_follow_local_threads() {
    let local = vec![
        thread("p", "t1", "sessions/mine/t1.jsonl", None, None),
        thread("q", "t2", "sessions/t2-local.jsonl", None, None),
    ];
    let manifest = vec![
        mthread("p", "t1", "sessions/theirs/t1.jsonl"),
        mthread("other", "t2", "sessions/t2.jsonl"),
        mthread("p", "t9", "sessions/t9.jsonl"),
    ];
    let plan = plan_pull(&local, &manifest);
    assert_eq!(plan.len(), 3);
    assert_eq!(plan[0].target_relative, "sessions/mine/t1.jsonl");
    assert_eq!(plan[1].target_relative, "sessions/t2-local.jsonl");
    assert_eq!(plan[2].target_relative, "sessions/t9.jsonl");
    assert_eq!(count_merged(&plan), 2);
}

#[test]
fn pull_skips_local_files_that_are_newer() {
    let remote = vec![entry("sessions/t.jsonl", false, Some(100), None)];
    assert!(pull_should_skip(true, Some(100), &remote, "sessions/t.jsonl"));
    assert!(!pull_should_skip(true, Some(99), &remote, "sessions/t.jsonl"));
    assert!(!pull_should_skip(false, Some(200), &remote, "sessions/t.jsonl"));
    assert!(!pull_should_skip(true, None, &remote, "sessions/t.jsonl"));
    assert!(!pull_should_skip(true, Some(200), &remote, "sessions/other.jsonl"));
}

#[test]
fn local_and_backup_paths() {
    assert_eq!(local_file_path("/c", "sessions/2025/t.jsonl", false), "/c/sessions/2025/t.jsonl");
    assert_eq!(
        backup_path("/c", "/c/sessions/t.jsonl", "20250701-100000", false),
        Some("/c/sync_backups/pull-overwrite/20250701-100000/sessions/t.jsonl".to_string())
    );
    assert_eq!(backup_path("/c", "/d/t.jsonl", "s", false), None);
}

#[test]
fn listings_skip_missing_roots_but_not_other_failures() {
    let ok = collect_remote_files(
        vec![
            Ok(vec![entry("sessions/a", false, None, Some(1)), entry("sessions/d", true, None, None)]),
            Err(propfind_failure(404)),
        ],
        Some(entry("session_index.jsonl", false, None, None)),
    )
    .unwrap();
    assert_eq!(ok.len(), 2);
    assert_eq!(ok[1].relative_path, "session_index.jsonl");
    let failed = collect_remote_files(vec![Err(propfind_failure(500))], None);
    assert_eq!(failed.unwrap_err(), "WebDAV PROPFIND 失败：HTTP 500");
}

#[test]
fn tree_walk_lists_directories_depth_first() {
    let mut walk = RemoteTreeWalk::new("sessions");
    assert_eq!(walk.next_directory(), Some("sessions".to_string()));
    walk.absorb(vec![entry("sessions/a", true, None, None), entry("sessions/x.jsonl", false, None, None)]);
    assert_eq!(walk.next_directory(), Some("sessions/a".to_string()));
    walk.absorb(vec![entry("sessions/a/y.jsonl", false, None, None)]);
    assert_eq!(walk.next_directory(), None);
    assert_eq!(walk.found.len(), 3);
}

#[test]
fn answers_and_reports() {
    assert!(propfind_ok(207) && propfind_ok(200) && !propfind_ok(404));
    assert!(mkcol_ok(201) && mkcol_ok(405) && mkcol_ok(301) && !mkcol_ok(409));
    assert!(put_ok(204) && !put_ok(500));
    assert!(get_ok(200) && !get_ok(206));
    assert_eq!(push_message(2, 1, 0, 7), "推送完成：上传 2 个，跳过 1 个，路径归并 0 个，线程索引 7 条");
    assert_eq!(pull_message(0, 3, 1, 4), "拉取完成：下载 0 个，跳过 3 个，按线程 ID 合并 1 个，远端线程 4 条");
    assert_eq!(sync_roots(), vec!["sessions".to_string(), "archived_sessions".to_string()]);
}

#[test]
fn store_paths_leave_the_sync_roots() {
    assert_eq!(store_path_of("/dav/codex/sessions/"), Some("/dav/codex/".to_string()));
    assert_eq!(store_path_of("/archived_sessions"), Some("/".to_string()));
    assert_eq!(store_path_of("/dav/codex/"), None);
    assert_eq!(slashed_path("/dav"), Some("/dav/".to_string()));
    assert_eq!(slashed_path("/dav/"), None);
}

#[test]
fn project_names_come_from_the_index_text() {
    let index = "{\"id\":\"a\",\"project_name\":\"Alpha\"}\n\n  \nbroken\n{\"id\":\"b\",\"cwd\":\"/w/beta\"}\r\n";
    assert_eq!(
        project_names_of_index(index, false),
        vec![("a".to_string(), "Alpha".to_string()), ("b".to_string(), "beta".to_string())]
    );
    assert!(project_names_of_index("", false).is_empty());
}
