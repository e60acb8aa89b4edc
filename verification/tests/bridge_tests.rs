use codex_tools::bridge::{stop_first_step, stop_next_step, StopStep, STOP_POLLS};
use codex_tools::bridge::{
    bridge_status_text, build_project_snippet, clear_setup_pid, communication_state,
    data_dir_is_current, default_bridge_config, find_any_weixin_session, find_session_for_project,
    get_bridge_status_impl, install_cc_connect_impl, log_tail, nonempty_or_default,
    normalize_permission_mode, normalize_project_draft, parse_daemon_action, parse_pid,
    png_data_url, project_display_name, read_codex_projects, read_project_account_id,
    read_projects, read_weixin_fields, save_bridge_project_impl, service_args,
    service_running_message, service_started_message, session_project_name, setup_args,
    setup_project_name, setup_started_message, shell_quote, start_command, stop_message,
    suggest_project_name, tool_path_entries, version_line, weixin_setup_command, BridgeError,
    BridgeFacts, BridgeProjectDraft, CommunicationStage, DaemonAction,
};
use codex_tools::json::JsonValue;
use codex_tools::toml::TomlItem;

type Entries = Vec<(String, TomlItem)>;

fn s(v: &str) -> TomlItem {
    TomlItem::Str(v.to_string())
}

fn t(entries: Vec<(&str, TomlItem)>) -> Entries {
    entries.into_iter().map(|(k, v)| (k.to_string(), v)).collect()
}

fn weixin_platform(with_session: bool, account: &str) -> Entries {
    let mut options = vec![("allow_from", s("*")), ("admin_from", s("boss"))];
    if with_session {
        options.push(("token", s("tok")));
        options.push(("account_id", s(account)));
        options.push(("base_url", s("https://wx")));
    }
    t(vec![("type", s("weixin")), ("options", TomlItem::Section(t(options)))])
}

fn project(name: &str, with_session: bool, account: &str) -> Entries {
    t(vec![
        ("name", s(name)),
        (
            "agent",
            TomlItem::Section(t(vec![
                ("type", s("codex")),
                ("model", s(" gpt-5 ")),
                ("options", TomlItem::Section(t(vec![("work_dir", s("/w/p")), ("mode", s("yolo"))]))),
            ])),
        ),
        ("platforms", TomlItem::SectionArray(vec![weixin_platform(with_session, account)])),
    ])
}

fn document(projects: Vec<Entries>) -> Entries {
    t(vec![("data_dir", s("/d")), ("projects", TomlItem::SectionArray(projects))])
}

fn draft(name: &str, work_dir: &str) -> BridgeProjectDraft {
    BridgeProjectDraft {
        name: name.to_string(),
        work_dir: work_dir.to_string(),
        allow_from: " ".to_string(),
        admin_from: " admin ".to_string(),
        model: String::new(),
        permission_mode: "accept-edits".to_string(),
    }
}

#[test]
fn projects_are_read_from_the_configuration() {
    let doc = document(vec![project("alpha", true, "acc"), t(vec![("work_dir", s(" /w/q "))])]);
    let ps = read_projects(&doc);
    assert_eq!(ps.len(), 2);
    assert_eq!(ps[0].name, "alpha");
    assert_eq!(ps[0].work_dir, "/w/p");
    assert_eq!(ps[0].agent_type, "codex");
    assert!(ps[0].has_codex && ps[0].has_weixin && ps[0].has_weixin_session);
    assert_eq!(ps[0].allow_from, "*");
    assert_eq!(ps[0].admin_from, "boss");
    assert_eq!(ps[0].model, "gpt-5");
    assert_eq!(ps[0].permission_mode, "bypassPermissions");
    assert_eq!(ps[1].name, "(未命名项目)");
    assert_eq!(ps[1].work_dir, "/w/q");
    assert_eq!(ps[1].permission_mode, "plan");
    assert!(!ps[1].has_weixin && !ps[1].has_codex);
    assert!(read_projects(&t(vec![])).is_empty());
}

#[test]
fn weixin_fields_fall_back_to_the_options() {
    let p = project("a", false, "");
    assert_eq!(read_weixin_fields(&p), ("*".to_string(), "boss".to_string(), false));
    assert_eq!(read_weixin_fields(&t(vec![])), (String::new(), String::new(), false));
}

#[test]
fn sessions_are_found_by_project_or_anywhere() {
    let doc = document(vec![project("a", false, ""), project("b", true, "acc-b")]);
    assert!(find_session_for_project(&doc, "a").is_none());
    let any = find_any_weixin_session(&doc).unwrap();
    assert_eq!(any.account_id, "acc-b");
    assert_eq!(any.token, "tok");
    assert_eq!(read_project_account_id(&doc, "b"), Some("acc-b".to_string()));
    assert_eq!(read_project_account_id(&doc, "a"), None);
}

#[test]
fn saving_keeps_the_stored_session() {
    let doc = document(vec![project("other", true, "acc-o")]);
    let update = save_bridge_project_impl(draft(" new ", " /w/n "), &doc, "/data").unwrap();
    assert_eq!(update.data_dir, "/data");
    assert_eq!(update.message, "已切换微信连接项目：new");
    let expected = t(vec![
        ("name", s("new")),
        (
            "agent",
            TomlItem::Section(t(vec![
                ("type", s("codex")),
                ("options", TomlItem::Section(t(vec![("work_dir", s("/w/n")), ("mode", s("acceptEdits"))]))),
            ])),
        ),
        (
            "platforms",
            TomlItem::SectionArray(vec![t(vec![
                ("type", s("weixin")),
                (
                    "options",
                    TomlItem::Section(t(vec![
                        ("allow_from", s("*")),
                        ("admin_from", s("admin")),
                        ("token", s("tok")),
                        ("account_id", s("acc-o")),
                        ("base_url", s("https://wx")),
                    ])),
                ),
            ])]),
        ),
    ]);
    assert_eq!(format!("{:?}", update.project), format!("{:?}", expected));
}

#[test]
fn saving_prefers_the_session_of_the_same_project() {
    let doc = document(vec![project("x", true, "acc-x"), project("new", true, "acc-new")]);
    let update = save_bridge_project_impl(draft("new", "/w"), &doc, "/data").unwrap();
    assert!(format!("{:?}", update.project).contains("acc-new"));
    let none = save_bridge_project_impl(draft("new", "/w"), &t(vec![]), "/data").unwrap();
    assert!(!format!("{:?}", none.project).contains("token"));
}

#[test]
fn drafts_need_a_name_and_a_directory() {
    assert!(matches!(save_bridge_project_impl(draft(" ", "/w"), &t(vec![]), "/d"), Err(BridgeError::EmptyProjectName)));
    assert!(matches!(normalize_project_draft(draft("n", "  ")), Err(BridgeError::EmptyWorkDir)));
    let d = normalize_project_draft(draft(" n ", " /w ")).unwrap();
    assert_eq!((d.name.as_str(), d.work_dir.as_str(), d.allow_from.as_str()), ("n", "/w", "*"));
    assert_eq!(d.admin_from, "admin");
    assert_eq!(d.permission_mode, "acceptEdits");
}

#[test]
fn permission_modes_are_normalized() {
    assert_eq!(normalize_permission_mode(" plan "), "plan");
    assert_eq!(normalize_permission_mode("acceptEdits"), "acceptEdits");
    assert_eq!(normalize_permission_mode("edit"), "acceptEdits");
    assert_eq!(normalize_permission_mode("accept_edits"), "acceptEdits");
    assert_eq!(normalize_permission_mode("yolo"), "bypassPermissions");
    assert_eq!(normalize_permission_mode("bypass-permissions"), "bypassPermissions");
    assert_eq!(normalize_permission_mode("anything"), "plan");
    assert_eq!(nonempty_or_default("  ".to_string(), "*"), "*");
    assert_eq!(nonempty_or_default(" a ".to_string(), "*"), "a");
}

#[test]
fn default_config_and_data_dir() {
    assert_eq!(
        default_bridge_config(),
        "[log]\nlevel = \"info\"\n\n[display]\nmode = \"yolo\"\nthinking_messages = true\ntool_messages = false\n"
    );
    let doc = document(vec![]);
    assert!(data_dir_is_current(&doc, "/d"));
    assert!(!data_dir_is_current(&doc, "/e"));
}

#[test]
fn codex_projects_come_once_in_order() {
    let global = JsonValue::Object(vec![
        (
            "project-order".to_string(),
            JsonValue::Array(vec![
                JsonValue::Str(" /w/a ".to_string()),
                JsonValue::Str("  ".to_string()),
                JsonValue::Bool(true),
                JsonValue::Str("/w/b".to_string()),
            ]),
        ),
        (
            "electron-saved-workspace-roots".to_string(),
            JsonValue::Array(vec![JsonValue::Str("/w/a".to_string())]),
        ),
    ]);
    let config = t(vec![(
        "projects",
        TomlItem::Section(t(vec![(" /w/c ", TomlItem::Section(vec![])), ("/w/b", TomlItem::Section(vec![]))])),
    )]);
    let ps = read_codex_projects(Some(&global), Some(&config), false);
    let listed: Vec<(String, String)> = ps.into_iter().map(|p| (p.name, p.work_dir)).collect();
    assert_eq!(
        listed,
        vec![
            ("a".to_string(), "/w/a".to_string()),
            ("b".to_string(), "/w/b".to_string()),
            ("c".to_string(), "/w/c".to_string()),
        ]
    );
    assert!(read_codex_projects(None, None, false).is_empty());
}

#[test]
fn display_names_use_the_last_name() {
    assert_eq!(project_display_name("/w/proj", false), "proj");
    assert_eq!(project_display_name("/", false), "/");
    assert_eq!(project_display_name("C:\\w\\p", true), "p");
}

#[test]
fn words_are_quoted_for_the_shell() {
    assert_eq!(shell_quote("a b"), "'a b'");
    assert_eq!(shell_quote("it's"), "'it'\"'\"'s'");
    assert_eq!(
        weixin_setup_command("/bin/cc", "p", "/q.png", "/c.toml"),
        "'/bin/cc' weixin setup --project 'p' --qr-image '/q.png' --config '/c.toml'"
    );
    assert_eq!(start_command("/bin/cc", "/c.toml"), "'/bin/cc' --config '/c.toml'");
    assert_eq!(service_args("/c.toml"), vec!["--force", "--config", "/c.toml"]);
    assert_eq!(
        setup_args("p", "/q.png", "/c.toml"),
        vec!["weixin", "setup", "--project", "p", "--qr-image", "/q.png", "--config", "/c.toml"]
    );
}

#[test]
fn snippet_names_the_project() {
    assert_eq!(suggest_project_name(), "codex-tools-wechat");
    let snip = build_project_snippet("demo");
    assert!(snip.starts_with("[[projects]]\nname = \"demo\"\n"));
    assert!(snip.ends_with("# model = \"gpt-5.5\"\n"));
}

#[test]
fn daemon_actions() {
    assert_eq!(parse_daemon_action(" install ").unwrap(), DaemonAction::Start);
    assert_eq!(parse_daemon_action("start").unwrap(), DaemonAction::Start);
    assert_eq!(parse_daemon_action("uninstall").unwrap(), DaemonAction::Stop);
    assert_eq!(parse_daemon_action("restart").unwrap(), DaemonAction::Restart);
    assert_eq!(parse_daemon_action("status").unwrap(), DaemonAction::Status);
    assert_eq!(parse_daemon_action("logs").unwrap(), DaemonAction::Logs);
    assert!(matches!(parse_daemon_action(" fly "), Err(BridgeError::UnsupportedAction(a)) if a == " fly "));
    assert_eq!(stop_message(true), "已停止微信服务");
    assert_eq!(stop_message(false), "微信服务当前未运行");
}

#[test]
fn log_tail_keeps_the_last_forty_lines() {
    let content: String = (1..=45).map(|i| format!("line {i}\n")).collect();
    let tail = log_tail(&content);
    assert!(tail.starts_with("line 6\n"));
    assert!(tail.ends_with("line 45"));
    assert_eq!(tail.lines().count(), 40);
    assert_eq!(log_tail("a\r\nb"), "a\nb");
    assert_eq!(log_tail(""), "");
}

#[test]
fn pid_and_version_are_read() {
    assert_eq!(parse_pid(" 4242\n"), Some(4242));
    assert_eq!(parse_pid("4294967296"), None);
    assert_eq!(parse_pid("-1"), None);
    assert_eq!(parse_pid(""), None);
    assert_eq!(version_line(true, " cc-connect 1.3.2 \nbuild x"), Some("cc-connect 1.3.2".to_string()));
    assert_eq!(version_line(false, "1.0"), None);
    assert_eq!(version_line(true, "  \n1.0"), None);
}

#[test]
fn status_text_in_words() {
    assert_eq!(bridge_status_text(None, true, true, None, true, None), "未安装微信连接服务");
    assert_eq!(
        bridge_status_text(Some("/bin/cc"), true, false, None, false, Some("/l.log")),
        "服务程序：/bin/cc\n版本：unknown\n微信服务：运行中\n登录流程：未运行\n二维码：未生成\n服务日志：/l.log"
    );
    assert!(bridge_status_text(Some("/bin/cc"), false, true, Some("1.0"), true, None)
        .ends_with("版本：1.0\n微信服务：未运行\n登录流程：运行中\n二维码：已生成\n服务日志：尚未生成"));
}

#[test]
fn communication_stages() {
    assert_eq!(communication_state(&CommunicationStage::NoSession), (false, "等待微信扫码登录".to_string()));
    assert_eq!(communication_state(&CommunicationStage::NoAccount), (false, "等待微信登录凭据写入".to_string()));
    assert_eq!(
        communication_state(&CommunicationStage::NoContext),
        (false, "等待你在微信里发送第一条消息".to_string())
    );
    assert_eq!(
        communication_state(&CommunicationStage::Context("{\"k\":null}".to_string())),
        (true, "已建立微信通信会话".to_string())
    );
    assert!(!communication_state(&CommunicationStage::Context("{}".to_string())).0);
    assert!(!communication_state(&CommunicationStage::Context("[1]".to_string())).0);
    assert!(!communication_state(&CommunicationStage::Context("not json".to_string())).0);
}

#[test]
fn status_is_assembled_from_what_was_found() {
    let doc = document(vec![project("a", false, ""), project("b", true, "acc")]);
    let projects = read_projects(&doc);
    assert_eq!(session_project_name(&projects), Some("b".to_string()));
    let facts = BridgeFacts {
        cc_connect_path: None,
        managed_binary_path: Some("/rt/bin/cc-connect".to_string()),
        version: Some("ignored".to_string()),
        daemon_status: "ignored".to_string(),
        config_path: "/c.toml".to_string(),
        config_exists: true,
        qr_image_path: "/q.png".to_string(),
        qr_image_exists: false,
        qr_image_data_url: None,
        service_running: false,
        setup_running: true,
        projects,
        communication_ready: false,
        communication_hint: "h".to_string(),
        codex_projects: vec![],
    };
    let st = get_bridge_status_impl(facts);
    assert!(!st.installed);
    assert_eq!(st.version, None);
    assert_eq!(st.daemon_status, "未检测到微信连接服务");
    assert!(st.login_running);
    assert!(st.has_logged_in_wechat_session);
    assert_eq!(
        st.weixin_setup_command,
        "'/rt/bin/cc-connect' weixin setup --project 'codex-tools-wechat' --qr-image '/q.png' --config '/c.toml'"
    );
    assert_eq!(st.start_command, "'/rt/bin/cc-connect' --config '/c.toml'");
    assert!(clear_setup_pid(true, true));
    assert!(!clear_setup_pid(true, false));
}

#[test]
fn messages_name_their_paths() {
    assert_eq!(setup_started_message("/q.png"), "已开始微信登录流程，二维码会保存到 /q.png");
    assert_eq!(service_running_message("/l"), "微信服务已在运行中，日志输出到 /l");
    assert_eq!(service_started_message("/l"), "已启动微信服务，日志输出到 /l");
    assert_eq!(install_cc_connect_impl("/bin/cc"), "已初始化微信连接引擎：/bin/cc");
    assert!(matches!(setup_project_name("  "), Err(BridgeError::EmptyProjectName)));
    assert_eq!(setup_project_name(" p ").unwrap(), "p");
}

#[test]
fn tool_paths_drop_duplicates() {
    let current = vec!["/usr/bin".to_string(), "/x/bin/".to_string(), "/x/bin".to_string()];
    let nvm = vec!["/h/.nvm/versions/node/v20".to_string()];
    let paths = tool_path_entries(&current, Some("/h"), &nvm, false);
    assert_eq!(
        paths,
        vec![
            "/usr/bin",
            "/x/bin/",
            "/h/.local/bin",
            "/h/.npm-global/bin",
            "/h/.cargo/bin",
            "/h/.nvm/versions/node/v20/bin",
            "/opt/homebrew/bin",
            "/usr/local/bin",
            "/bin",
            "/usr/sbin",
            "/sbin",
        ]
    );
}

#[test]
fn qr_code_becomes_a_data_url() {
    assert_eq!(png_data_url(b""), "data:image/png;base64,");
    assert_eq!(png_data_url(b"f"), "data:image/png;base64,Zg==");
    assert_eq!(png_data_url(b"fo"), "data:image/png;base64,Zm8=");
    assert_eq!(png_data_url(b"foobar"), "data:image/png;base64,Zm9vYmFy");
    assert_eq!(png_data_url(&[0xff, 0xfe]), "data:image/png;base64,//4=");
}

#[test]
fn stopping_terminates_then_waits_then_kills() {
    assert_eq!(stop_first_step(false, false, false), None);
    assert_eq!(stop_first_step(true, false, false), Some(StopStep::NotRunning));
    assert_eq!(stop_first_step(true, true, true), Some(StopStep::ForceStop));
    assert_eq!(stop_first_step(true, true, false), Some(StopStep::Terminate));
    assert_eq!(STOP_POLLS, 20);
    assert_eq!(stop_next_step(0, false), StopStep::Finish);
    assert_eq!(stop_next_step(0, true), StopStep::Wait);
    assert_eq!(stop_next_step(19, true), StopStep::Wait);
    assert_eq!(stop_next_step(20, true), StopStep::Kill);
    assert_eq!(stop_next_step(20, false), StopStep::Finish);
}
