use codex_tools::bridge::{
    bridge_config_text, config_with_data_dir, default_bridge_config, read_projects,
    BridgeError, BridgeProjectDraft,
};
use codex_tools::providers::{current_provider, live_files};
use codex_tools::toml::TomlItem;
use codex_tools::toml_doc::parse_toml;

fn draft(name: &str, work_dir: &str) -> BridgeProjectDraft {
    BridgeProjectDraft {
        name: name.to_string(),
        work_dir: work_dir.to_string(),
        allow_from: String::new(),
        admin_from: String::new(),
        model: String::new(),
        permission_mode: "yolo".to_string(),
    }
}

#[test]
fn toml_documents_are_read_into_the_model() {
    let text = "a = \"x\"\nb = true\nn = 3\ninline = { k = \"v\" }\n\n[t]\nc = \"y\"\n\n[[arr]]\nd = \"1\"\n\n[[arr]]\nd = \"2\"\n";
    let es = parse_toml(text).unwrap();
    let keys: Vec<&str> = es.iter().map(|(k, _)| k.as_str()).collect();
    assert_eq!(keys, vec!["a", "b", "n", "inline", "t", "arr"]);
    assert!(matches!(&es[0].1, TomlItem::Str(s) if s == "x"));
    assert!(matches!(&es[1].1, TomlItem::Bool(true)));
    assert!(matches!(&es[2].1, TomlItem::Other));
    match &es[3].1 {
        TomlItem::InlineSection(inner) => {
            assert_eq!(inner.len(), 1);
            assert!(matches!(&inner[0].1, TomlItem::Str(s) if s == "v"));
        },
        other => panic!("unexpected {:?}", other),
    }
    assert!(matches!(&es[4].1, TomlItem::Section(inner) if inner.len() == 1));
    match &es[5].1 {
        TomlItem::SectionArray(ts) => {
            assert_eq!(ts.len(), 2);
            assert!(matches!(&ts[1][0].1, TomlItem::Str(s) if s == "2"));
        },
        other => panic!("unexpected {:?}", other),
    }
    assert!(parse_toml("a = ").is_none());
    assert!(parse_toml("").unwrap().is_empty());
}

#[test]
fn live_files_parse_the_config() {
    let live = live_files(Some("model_provider = \"acme\"\n".to_string()), None);
    assert_eq!(current_provider(&live).as_deref(), Some("acme"));
    let broken = live_files(Some("model_provider = ".to_string()), None);
    assert!(broken.config.is_none());
    assert!(broken.config_text.is_some());
    assert!(live_files(None, None).config.is_none());
    let with_auth = live_files(None, Some("{\"OPENAI_API_KEY\":\"k\"}".to_string()));
    assert!(with_auth.auth.is_some());
    assert!(live_files(None, Some("{".to_string())).auth.is_none());
}

#[test]
fn saving_a_project_writes_one_project() {
    let source = "data_dir = \"/old\"\n\n[[projects]]\nname = \"old\"\n\n[projects.agent]\ntype = \"codex\"\n\n[[projects.platforms]]\ntype = \"weixin\"\n\n[projects.platforms.options]\ntoken = \"t\"\naccount_id = \"acc\"\nbase_url = \"https://b\"\n";
    let (text, message) = bridge_config_text(source, draft(" new ", " /work "), "/data").unwrap();
    assert_eq!(message, "已切换微信连接项目：new");
    let es = parse_toml(&text).unwrap();
    assert!(matches!(&es[0].1, TomlItem::Str(s) if s == "/data"));
    let projects = read_projects(&es);
    assert_eq!(projects.len(), 1);
    assert_eq!(projects[0].name, "new");
    assert_eq!(projects[0].work_dir, "/work");
    assert_eq!(projects[0].permission_mode, "bypassPermissions");
    assert!(projects[0].has_weixin_session);
    assert_eq!(projects[0].allow_from, "*");
    assert!(text.contains("account_id = \"acc\""));
}

#[test]
fn saving_into_the_default_config() {
    let (text, _) = bridge_config_text(&default_bridge_config(), draft("p", "/w"), "/d").unwrap();
    assert!(text.contains("[log]"));
    assert!(text.contains("data_dir = \"/d\""));
    let es = parse_toml(&text).unwrap();
    assert_eq!(read_projects(&es).len(), 1);
}

#[test]
fn saving_is_refused_for_bad_drafts_and_configs() {
    assert!(matches!(bridge_config_text("x = ", draft(" ", "/w"), "/d"), Err(BridgeError::EmptyProjectName)));
    assert!(matches!(bridge_config_text("x = 1", draft("p", " "), "/d"), Err(BridgeError::EmptyWorkDir)));
    assert!(matches!(bridge_config_text("x = ", draft("p", "/w"), "/d"), Err(BridgeError::UnreadableConfig)));
}

#[test]
fn data_dir_is_set_once() {
    assert_eq!(config_with_data_dir("data_dir = \"/d\"\n", "/d").unwrap(), None);
    let text = config_with_data_dir("a = 1\n", "/d").unwrap().unwrap();
    assert!(text.contains("a = 1"));
    assert!(text.contains("data_dir = \"/d\""));
    assert!(matches!(config_with_data_dir("a = ", "/d"), Err(BridgeError::UnreadableConfig)));
}
