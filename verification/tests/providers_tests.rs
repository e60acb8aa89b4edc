use codex_tools::json::JsonValue;
use codex_tools::providers::{
    apply_provider_to_codex, build_api_key_config, current_provider, default_official_config,
    delete_provider_impl, get_provider_impl, is_chatgpt_auth_json, list_providers_impl,
    read_provider_store, render_official_config, sanitize_provider, save_provider_impl,
    switch_provider_impl, toml_escape, validate_provider_id, with_live_files, LiveFiles,
    OfficialConfigPlan, ProviderConfig, ProviderError,
};
use codex_tools::toml::TomlItem;

fn blank(id: &str) -> ProviderConfig {
    ProviderConfig {
        id: id.to_string(),
        name: None,
        auth_type: None,
        base_url: None,
        api_key: None,
        wire_api: None,
        model: None,
        model_reasoning_effort: None,
        requires_openai_auth: None,
        auth_json: None,
        config_toml: None,
    }
}

fn text(s: &str) -> JsonValue {
    JsonValue::Str(s.to_string())
}

fn object(entries: Vec<(&str, JsonValue)>) -> JsonValue {
    JsonValue::Object(entries.into_iter().map(|(k, v)| (k.to_string(), v)).collect())
}

fn no_live() -> LiveFiles {
    LiveFiles { config_text: None, config: None, auth: None }
}

fn live_using(provider: &str) -> LiveFiles {
    LiveFiles {
        config_text: Some(format!("model_provider = \"{}\"\n", provider)),
        config: Some(vec![("model_provider".to_string(), TomlItem::Str(provider.to_string()))]),
        auth: None,
    }
}

fn ids(list: &[ProviderConfig]) -> Vec<String> {
    list.iter().map(|p| p.id.clone()).collect()
}

fn with_snapshots(id: &str) -> ProviderConfig {
    let mut p = blank(id);
    p.auth_type = Some("api_key".to_string());
    p.api_key = Some("sk-test".to_string());
    p.config_toml = Some("model_provider = \"x\"\n".to_string());
    p.auth_json = Some(object(vec![("OPENAI_API_KEY", text("sk-test"))]));
    p
}

#[test]
fn provider_ids_are_checked() {
    assert!(matches!(validate_provider_id(""), Err(ProviderError::EmptyId)));
    assert!(matches!(validate_provider_id("   "), Err(ProviderError::EmptyId)));
    assert!(matches!(validate_provider_id("bad id"), Err(ProviderError::InvalidId)));
    assert!(matches!(validate_provider_id("ü-provider"), Err(ProviderError::InvalidId)));
    assert!(validate_provider_id("my-provider_1.0").is_ok());
    assert!(validate_provider_id("  trimmed  ").is_ok());
}

#[test]
fn sanitize_makes_openai_builtin() {
    let mut p = blank("openai");
    p.model = Some("gpt-5.5".to_string());
    p.api_key = Some("ignored".to_string());
    let s = sanitize_provider(p);
    assert_eq!(s.name.as_deref(), Some("Codex 默认 Provider"));
    assert_eq!(s.auth_type.as_deref(), Some("chatgpt"));
    assert_eq!(s.base_url.as_deref(), Some("https://api.openai.com/v1"));
    assert_eq!(s.api_key, None);
    assert_eq!(s.model.as_deref(), Some("gpt-5.5"));
    assert_eq!(s.model_reasoning_effort.as_deref(), Some("medium"));
    assert_eq!(s.requires_openai_auth, Some(false));
}

#[test]
fn sanitize_makes_others_api_key_providers() {
    let mut p = blank("acme");
    p.auth_type = Some("chatgpt".to_string());
    p.requires_openai_auth = Some(false);
    let s = sanitize_provider(p);
    assert_eq!(s.name.as_deref(), Some(""));
    assert_eq!(s.auth_type.as_deref(), Some("api_key"));
    assert_eq!(s.wire_api.as_deref(), Some("responses"));
    assert_eq!(s.requires_openai_auth, Some(true));
}

#[test]
fn store_starts_with_builtin_and_is_sorted() {
    let none = read_provider_store(None);
    assert_eq!(ids(&none), vec!["openai".to_string()]);
    let some = read_provider_store(Some(vec![blank("zeta"), blank("Alpha")]));
    assert_eq!(ids(&some), vec!["openai".to_string(), "Alpha".to_string(), "zeta".to_string()]);
    let mut stored_openai = blank("openai");
    stored_openai.model = Some("gpt-5.4-mini".to_string());
    let moved = read_provider_store(Some(vec![blank("beta"), stored_openai]));
    assert_eq!(ids(&moved), vec!["openai".to_string(), "beta".to_string()]);
    assert_eq!(moved[0].model.as_deref(), Some("gpt-5.4-mini"));
    assert_eq!(moved[0].auth_type.as_deref(), Some("chatgpt"));
}

#[test]
fn toml_strings_are_escaped() {
    assert_eq!(toml_escape("a\"b\\c"), "a\\\"b\\\\c");
    assert_eq!(toml_escape("plain"), "plain");
}

#[test]
fn api_key_config_text() {
    let mut p = blank(" acme ");
    p.base_url = Some(" https://x.example/v1 ".to_string());
    p.model = Some("  ".to_string());
    let expected = "model_provider = \"acme\"\n\
model = \"gpt-5.4\"\n\
model_reasoning_effort = \"high\"\n\
disable_response_storage = true\n\n\
[model_providers]\n\
[model_providers.acme]\n\
name = \"acme\"\n\
wire_api = \"responses\"\n\
requires_openai_auth = true\n\
base_url = \"https://x.example/v1\"\n\
\n[features]\nmulti_agent = true\n\n\
[plugins]\n\
[plugins.\"github@openai-curated\"]\nenabled = true\n";
    assert_eq!(build_api_key_config(&p), expected);
    let mut q = blank("q");
    q.wire_api = Some("chat".to_string());
    q.model_reasoning_effort = Some("low".to_string());
    let out = build_api_key_config(&q);
    assert!(out.contains("wire_api = \"chat\"\n"));
    assert!(out.contains("model_reasoning_effort = \"low\"\n"));
    assert!(!out.contains("base_url"));
}

#[test]
fn chatgpt_auth_is_recognised() {
    let yes = object(vec![("auth_mode", text("chatgpt")), ("tokens", object(vec![]))]);
    let no_tokens = object(vec![("auth_mode", text("chatgpt"))]);
    let api = object(vec![("OPENAI_API_KEY", text("sk"))]);
    assert!(is_chatgpt_auth_json(&yes));
    assert!(!is_chatgpt_auth_json(&no_tokens));
    assert!(!is_chatgpt_auth_json(&api));
}

#[test]
fn current_provider_reads_model_provider() {
    assert_eq!(current_provider(&live_using("acme")).as_deref(), Some("acme"));
    assert_eq!(current_provider(&no_live()), None);
}

#[test]
fn official_config_is_rewritten_through_toml_edit() {
    let plan = OfficialConfigPlan {
        source: "model = \"old\"\nmodel_provider = \"acme\"\n\n[model_providers.acme]\nname = \"acme\"\n"
            .to_string(),
        model: Some("gpt-5.5".to_string()),
        model_reasoning_effort: None,
    };
    let out = render_official_config(&plan).unwrap();
    assert!(out.contains("model_provider = \"openai\""));
    assert!(out.contains("model = \"gpt-5.5\""));
    assert!(!out.contains("model_providers"));
    assert!(!out.contains("acme"));
}

#[test]
fn official_config_falls_back_to_default() {
    let plan = OfficialConfigPlan {
        source: "this is [not toml".to_string(),
        model: None,
        model_reasoning_effort: Some("high".to_string()),
    };
    let out = render_official_config(&plan).unwrap();
    assert!(out.contains("model_provider = \"openai\""));
    assert!(out.contains("model_reasoning_effort = \"high\""));
    assert!(out.contains("multi_agent = true"));
    assert!(default_official_config().starts_with("model_provider = \"openai\"\n"));
}

#[test]
fn api_key_provider_snapshots_are_filled() {
    let mut p = blank("acme");
    p.auth_type = Some("api_key".to_string());
    p.api_key = Some("sk-1".to_string());
    let filled = with_live_files(p, &no_live()).unwrap();
    match filled.auth_json {
        Some(JsonValue::Object(entries)) => {
            assert_eq!(entries.len(), 1);
            assert_eq!(entries[0].0, "OPENAI_API_KEY");
            assert!(matches!(&entries[0].1, JsonValue::Str(k) if k == "sk-1"));
        },
        _ => panic!("missing auth snapshot"),
    }
    assert!(filled.config_toml.unwrap().starts_with("model_provider = \"acme\"\n"));
}

#[test]
fn chatgpt_provider_gets_placeholder_auth() {
    let mut p = blank("openai");
    p.auth_type = Some("chatgpt".to_string());
    let filled = with_live_files(p, &no_live()).unwrap();
    match filled.auth_json {
        Some(JsonValue::Object(entries)) => {
            assert_eq!(entries.len(), 2);
            assert_eq!(entries[0].0, "OPENAI_API_KEY");
            assert!(matches!(entries[0].1, JsonValue::Null));
            assert_eq!(entries[1].0, "auth_mode");
        },
        _ => panic!("missing auth snapshot"),
    }
    assert!(filled.config_toml.unwrap().contains("model_provider = \"openai\""));
}

#[test]
fn apply_uses_existing_snapshots() {
    let p = with_snapshots("acme");
    let files = apply_provider_to_codex(&p, &no_live()).unwrap();
    assert_eq!(files.config_toml, "model_provider = \"x\"\n");
}

#[test]
fn delete_refusals_and_success() {
    let stored = || Some(vec![blank("acme"), blank("beta")]);
    assert!(matches!(
        delete_provider_impl("openai", stored(), &no_live()),
        Err(ProviderError::DeleteBuiltin)
    ));
    match delete_provider_impl("acme", stored(), &live_using("acme")) {
        Err(ProviderError::DeleteCurrent(id)) => assert_eq!(id, "acme"),
        other => panic!("unexpected {:?}", other),
    }
    assert!(matches!(
        delete_provider_impl("bad id", stored(), &no_live()),
        Err(ProviderError::InvalidId)
    ));
    let kept = delete_provider_impl("acme", stored(), &no_live()).unwrap();
    assert_eq!(ids(&kept), vec!["openai".to_string(), "beta".to_string()]);
}

#[test]
fn switch_to_unknown_provider_fails() {
    match switch_provider_impl("ghost", Some(vec![blank("acme")]), &no_live()) {
        Err(ProviderError::NotFound(id)) => assert_eq!(id, "ghost"),
        other => panic!("unexpected {:?}", other),
    }
}

#[test]
fn switch_gives_the_providers_files() {
    let sw = switch_provider_impl("acme", Some(vec![with_snapshots("acme")]), &no_live()).unwrap();
    assert_eq!(ids(&sw.store), vec!["openai".to_string(), "acme".to_string()]);
    assert_eq!(sw.codex_files.config_toml, "model_provider = \"x\"\n");
}

#[test]
fn get_unknown_provider_fails() {
    match get_provider_impl("ghost", None, &no_live()) {
        Err(ProviderError::NotFound(id)) => assert_eq!(id, "ghost"),
        other => panic!("unexpected {:?}", other.map(|f| f.provider.id)),
    }
    assert!(matches!(get_provider_impl("", None, &no_live()), Err(ProviderError::EmptyId)));
}

#[test]
fn get_provider_hides_snapshots() {
    let fetched = get_provider_impl("acme", Some(vec![with_snapshots("acme")]), &no_live()).unwrap();
    assert_eq!(fetched.provider.id, "acme");
    assert!(fetched.provider.config_toml.is_none());
    assert!(fetched.provider.auth_json.is_none());
    let stored = fetched.store.iter().find(|p| p.id == "acme").unwrap();
    assert!(stored.config_toml.is_some());
}

#[test]
fn list_adds_provider_in_use() {
    let listing = list_providers_impl(None, &live_using("acme")).unwrap();
    assert_eq!(ids(&listing.store), vec!["openai".to_string(), "acme".to_string()]);
    assert!(listing.visible.iter().all(|p| p.config_toml.is_none() && p.auth_json.is_none()));
    assert!(listing.store.iter().all(|p| p.config_toml.is_some() && p.auth_json.is_some()));
    let acme = listing.store.iter().find(|p| p.id == "acme").unwrap();
    assert!(acme.config_toml.as_deref().unwrap().starts_with("model_provider = \"acme\"\nmodel = \"gpt-5.4\"\n"));
    assert_eq!(acme.auth_type.as_deref(), Some("api_key"));
}

#[test]
fn save_sanitizes_and_stores() {
    let mut p = blank("acme");
    p.base_url = Some("https://x.example/v1".to_string());
    p.api_key = Some("sk-2".to_string());
    let saved = save_provider_impl(p, None, &no_live()).unwrap();
    assert_eq!(ids(&saved.store), vec!["openai".to_string(), "acme".to_string()]);
    assert!(saved.codex_files.is_none());
    let acme = saved.store.iter().find(|p| p.id == "acme").unwrap();
    assert_eq!(acme.auth_type.as_deref(), Some("api_key"));
    assert!(acme.config_toml.as_deref().unwrap().contains("base_url = \"https://x.example/v1\""));
    let in_use = save_provider_impl(blank("acme"), None, &live_using("acme")).unwrap();
    assert!(in_use.codex_files.is_some());
    assert!(matches!(
        save_provider_impl(blank(" "), None, &no_live()),
        Err(ProviderError::EmptyId)
    ));
}

#[test]
fn builtin_config_never_has_a_provider_table() {
    let mut p = blank("openai");
    p.config_toml = Some("model_provider = \"x\"\n[model_providers.openai]\nname = \"x\"\n".to_string());
    let saved = save_provider_impl(p, None, &no_live()).unwrap();
    let openai = saved.store.iter().find(|p| p.id == "openai").unwrap();
    let config = openai.config_toml.as_deref().unwrap();
    assert!(!config.contains("model_providers"));
    assert!(config.contains("model_provider = \"openai\""));
}

#[test]
fn switch_keeps_snapshot_of_provider_in_use() {
    let mut live = live_using("acme");
    live.auth = Some(object(vec![("OPENAI_API_KEY", text("sk-live"))]));
    let sw = switch_provider_impl("beta", Some(vec![with_snapshots("acme"), with_snapshots("beta")]), &live)
        .unwrap();
    let acme = sw.store.iter().find(|p| p.id == "acme").unwrap();
    assert_eq!(acme.config_toml.as_deref(), Some("model_provider = \"acme\"\n"));
    assert_eq!(acme.api_key.as_deref(), Some("sk-live"));
    let beta = sw.store.iter().find(|p| p.id == "beta").unwrap();
    assert_eq!(beta.api_key.as_deref(), Some("sk-test"));
}
