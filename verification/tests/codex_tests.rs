use codex_tools::codex_threads::{
    get_summary_impl, index_entry, index_line, join_jsonl, replace_provider_in_jsonl, rewrite_line, rewrite_lines,
    select_rollouts,
    unify_message, LineOut, ThreadRow,
};
use codex_tools::json::{JsonNumber, JsonValue};
use codex_tools::models::{models_from_payload, models_request, parse_models_response, ModelsError};
use codex_tools::providers::ProviderConfig;
use codex_tools::toml::TomlItem;
use codex_tools::tray::{tray_action, tray_menu, TrayAction, TrayEntry};

fn text(s: &str) -> JsonValue {
    JsonValue::Str(s.to_string())
}

fn obj(members: Vec<(&str, JsonValue)>) -> JsonValue {
    JsonValue::Object(members.into_iter().map(|(k, v)| (k.to_string(), v)).collect())
}

fn member<'a>(v: &'a JsonValue, key: &str) -> Option<&'a JsonValue> {
    match v {
        JsonValue::Object(m) => m.iter().find(|(k, _)| k == key).map(|(_, v)| v),
        _ => None,
    }
}

fn as_text(v: Option<&JsonValue>) -> Option<&str> {
    match v {
        Some(JsonValue::Str(s)) => Some(s.as_str()),
        _ => None,
    }
}

fn provider(id: &str, base: Option<&str>, key: Option<&str>) -> ProviderConfig {
    ProviderConfig {
        id: id.to_string(),
        name: None,
        auth_type: None,
        base_url: base.map(|s| s.to_string()),
        api_key: key.map(|s| s.to_string()),
        wire_api: None,
        model: None,
        model_reasoning_effort: None,
        requires_openai_auth: None,
        auth_json: None,
        config_toml: None,
    }
}

#[test]
fn summary_counts_thread_files() {
    let config = vec![("model_provider".to_string(), TomlItem::Str("custom".to_string()))];
    let active = vec!["/c/sessions/2025/rollout-a.jsonl".to_string(), "/c/sessions/2025".to_string()];
    let archived = vec!["/c/archived_sessions/rollout-b.jsonl".to_string(), "/c/archived_sessions/x.txt".to_string()];
    let s = get_summary_impl("/c", Some(&config), &active, &archived, false);
    assert_eq!(s.provider, "custom");
    assert_eq!((s.active_sessions, s.archived_sessions), (1, 1));
    assert_eq!(s.codex_dir, "/c");
    let none = get_summary_impl("/c", None, &vec![], &vec![], false);
    assert_eq!(none.provider, "openai");
    assert_eq!(select_rollouts(&active, false), vec!["/c/sessions/2025/rollout-a.jsonl".to_string()]);
}

fn meta(provider: Option<&str>) -> JsonValue {
    let mut payload = vec![("id", text("t"))];
    if let Some(p) = provider {
        payload.push(("model_provider", text(p)));
    }
    obj(vec![("type", text("session_meta")), ("payload", obj(payload))])
}

#[test]
fn metadata_lines_are_moved_onto_the_provider() {
    let (line, changed) = rewrite_line("raw", Some(meta(Some("old"))), "new");
    assert!(changed);
    match line {
        LineOut::Write(v) => {
            let payload = member(&v, "payload").unwrap();
            assert_eq!(as_text(member(payload, "model_provider")), Some("new"));
            assert_eq!(as_text(member(payload, "id")), Some("t"));
        },
        LineOut::Keep(_) => panic!("expected a rewrite"),
    }
    let (line, changed) = rewrite_line("raw", Some(meta(None)), "new");
    assert!(changed);
    assert!(matches!(line, LineOut::Write(_)));
}

#[test]
fn other_lines_are_kept_as_they_are() {
    let (line, changed) = rewrite_line("not json", None, "new");
    assert!(!changed);
    assert!(matches!(line, LineOut::Keep(t) if t == "not json"));
    let msg = obj(vec![("type", text("response_item"))]);
    let (line, changed) = rewrite_line("{..}", Some(msg), "new");
    assert!(!changed);
    assert!(matches!(line, LineOut::Keep(t) if t == "{..}"));
    let (line, changed) = rewrite_line("{..}", Some(meta(Some("new"))), "new");
    assert!(!changed);
    assert!(matches!(line, LineOut::Write(_)));
}

#[test]
fn rewriting_twice_changes_nothing_the_second_time() {
    let (first, changed) = rewrite_line("raw", Some(meta(Some("old"))), "new");
    assert!(changed);
    let value = match first {
        LineOut::Write(v) => v,
        LineOut::Keep(_) => panic!("expected a rewrite"),
    };
    let (_, again) = rewrite_line("raw", Some(value), "new");
    assert!(!again);
}

#[test]
fn a_file_reports_whether_anything_changed() {
    let lines = vec![
        ("a".to_string(), None),
        ("b".to_string(), Some(meta(Some("old")))),
    ];
    let (out, changed) = rewrite_lines(&lines, "new");
    assert!(changed);
    assert_eq!(out.len(), 2);
    let (_, unchanged) = rewrite_lines(&vec![("a".to_string(), None)], "new");
    assert!(!unchanged);
    assert_eq!(join_jsonl(&vec!["x".to_string(), "y".to_string()]), "x\ny\n");
    assert_eq!(join_jsonl(&vec![]), "\n");
}

#[test]
fn index_entries_describe_thread_rows() {
    let row = ThreadRow {
        id: "t1".to_string(),
        title: Some("Title".to_string()),
        updated_at: 1700,
        updated_at_ms: None,
        cwd: Some("/Work/Proj".to_string()),
        git_origin_url: None,
        git_branch: Some("main".to_string()),
    };
    let e = index_entry(&row, "custom", false);
    assert_eq!(as_text(member(&e, "id")), Some("t1"));
    assert_eq!(as_text(member(&e, "thread_name")), Some("Title"));
    match member(&e, "updated_at") {
        Some(JsonValue::Number(JsonNumber { text, as_i64 })) => {
            assert_eq!(text, "1700000");
            assert_eq!(*as_i64, Some(1700000));
        },
        _ => panic!("expected a number"),
    }
    assert!(matches!(member(&e, "git_origin_url"), Some(JsonValue::Null)));
    assert_eq!(as_text(member(&e, "model_provider")), Some("custom"));
    assert_eq!(as_text(member(&e, "project_root")), Some("/work/proj"));
    assert_eq!(as_text(member(&e, "project_key")), Some("/work/proj"));
    assert_eq!(as_text(member(&e, "project_name")), Some("Proj"));
    let ms = ThreadRow { updated_at_ms: Some(5), cwd: None, ..row };
    let e = index_entry(&ms, "p", false);
    assert!(matches!(member(&e, "updated_at"), Some(JsonValue::Number(n)) if n.text == "5"));
    assert_eq!(as_text(member(&e, "project_name")), Some(""));
    assert_eq!(
        unify_message(3, 1, 2, 4),
        "合并完成：扫描 3 个，修改 1 个，更新线程行 2 条，索引 4 条"
    );
}

#[test]
fn models_request_uses_the_base_url_and_key() {
    let r = models_request(&provider("p", Some(" https://h/v1// "), Some(" sk "))).unwrap();
    assert_eq!(r.endpoint, "https://h/v1/models");
    assert_eq!(r.bearer, Some("sk".to_string()));
    let r = models_request(&provider("p", Some("https://h"), Some("  "))).unwrap();
    assert_eq!(r.bearer, None);
    assert!(matches!(models_request(&provider("p", Some("  "), None)), Err(ModelsError::EmptyBaseUrl)));
    assert!(matches!(models_request(&provider("p", None, None)), Err(ModelsError::EmptyBaseUrl)));
}

#[test]
fn models_come_sorted_and_once() {
    let data = JsonValue::Array(vec![
        obj(vec![("id", text("gpt-b"))]),
        obj(vec![("id", text("gpt-a"))]),
        obj(vec![("id", text("gpt-b"))]),
        obj(vec![("id", text("  "))]),
        obj(vec![("name", text("x"))]),
    ]);
    let models = models_from_payload(true, 200, "", Ok(obj(vec![("data", data)]))).unwrap();
    let ids: Vec<&str> = models.iter().map(|m| m.id.as_str()).collect();
    assert_eq!(ids, vec!["gpt-a", "gpt-b"]);
}

#[test]
fn model_answer_errors() {
    assert!(matches!(
        models_from_payload(false, 401, "denied", Err("x".to_string())),
        Err(ModelsError::Http(401, t)) if t == "denied"
    ));
    assert!(matches!(
        models_from_payload(true, 200, "{", Err("eof".to_string())),
        Err(ModelsError::InvalidJson(m)) if m == "eof"
    ));
    assert!(matches!(
        models_from_payload(true, 200, "{}", Ok(obj(vec![]))),
        Err(ModelsError::NoData)
    ));
}

#[test]
fn tray_menu_marks_the_current_provider() {
    let providers = vec![provider("openai", None, None), provider("custom", None, None)];
    let menu = tray_menu("custom", &providers);
    assert_eq!(menu.len(), 9);
    match &menu[0] {
        TrayEntry::Item(id, label) => {
            assert_eq!(id, "tray:title");
            assert_eq!(label, "当前 Provider：custom");
        },
        _ => panic!("expected an item"),
    }
    assert!(matches!(&menu[2], TrayEntry::Item(id, label) if id == "tray:provider:openai" && label == "  openai"));
    assert!(matches!(&menu[3], TrayEntry::Item(id, label) if id == "tray:provider:custom" && label == "✓ custom"));
    assert!(matches!(&menu[8], TrayEntry::Item(id, _) if id == "tray:quit"));
}

#[test]
fn tray_clicks() {
    assert!(matches!(tray_action("tray:open"), TrayAction::Open));
    assert!(matches!(tray_action("tray:refresh"), TrayAction::Refresh));
    assert!(matches!(tray_action("tray:quit"), TrayAction::Quit));
    assert!(matches!(tray_action("tray:provider:custom"), TrayAction::SwitchProvider(p) if p == "custom"));
    assert!(matches!(tray_action("tray:title"), TrayAction::Ignore));
    let menu = tray_menu("x", &vec![provider("abc", None, None)]);
    match &menu[2] {
        TrayEntry::Item(id, _) => assert!(matches!(tray_action(id), TrayAction::SwitchProvider(p) if p == "abc")),
        _ => panic!("expected an item"),
    }
}

#[test]
fn a_thread_file_is_moved_onto_the_provider_once() {
    let content = "not json\n{\"type\":\"session_meta\",\"payload\":{\"x\":1,\"id\":\"t\"}}\r\n{\"type\":\"m\"}";
    let (once, changed) = replace_provider_in_jsonl(content, "new");
    assert!(changed);
    assert_eq!(
        once,
        "not json\n{\"payload\":{\"id\":\"t\",\"model_provider\":\"new\",\"x\":1},\"type\":\"session_meta\"}\n{\"type\":\"m\"}\n"
    );
    let (twice, changed_again) = replace_provider_in_jsonl(&once, "new");
    assert!(!changed_again);
    assert_eq!(twice, once);
    assert_eq!(replace_provider_in_jsonl("", "new"), ("\n".to_string(), false));
    assert_eq!(replace_provider_in_jsonl("\n", "new"), ("\n".to_string(), false));
}

#[test]
fn model_answers_are_read_as_json() {
    let models = parse_models_response(true, 200, r#"{"data":[{"id":"b"},{"id":"a"},{"id":"b"}]}"#).unwrap();
    let ids: Vec<&str> = models.iter().map(|m| m.id.as_str()).collect();
    assert_eq!(ids, vec!["a", "b"]);
    assert!(matches!(parse_models_response(true, 200, "{"), Err(ModelsError::InvalidJson(m)) if m.contains("EOF")));
    assert!(matches!(parse_models_response(false, 500, "{"), Err(ModelsError::Http(500, t)) if t == "{"));
    assert!(matches!(parse_models_response(true, 200, "[]"), Err(ModelsError::NoData)));
}

#[test]
fn index_lines_are_json_text() {
    let row = ThreadRow {
        id: "t1".to_string(),
        title: None,
        updated_at: 2,
        updated_at_ms: None,
        cwd: Some("/w/Proj".to_string()),
        git_origin_url: None,
        git_branch: None,
    };
    let line = index_line(&row, "acme", false);
    assert!(line.starts_with("{\"cwd\":\"/w/Proj\","));
    assert!(line.contains("\"updated_at\":2000"));
    assert!(line.contains("\"model_provider\":\"acme\""));
    assert!(!line.contains('\n'));
}
