use codex_tools::dav::{
    collect_responses, find_entry, join_url, parse_multistatus, remote_entry_from_response,
    json_of_events, xml_to_json, DavError, RemoteEntry, XmlEvent,
};
use codex_tools::json::JsonValue;

const MULTISTATUS: &str = r#"<?xml version="1.0" encoding="utf-8"?>
<d:multistatus xmlns:d="DAV:">
  <d:response>
    <d:href>/dav/codex/sessions/</d:href>
    <d:propstat><d:prop><d:resourcetype><d:collection/></d:resourcetype></d:prop></d:propstat>
  </d:response>
  <d:response>
    <d:href>/dav/codex/sessions/2025/</d:href>
    <d:propstat><d:prop><d:resourcetype><d:collection/></d:resourcetype></d:prop></d:propstat>
  </d:response>
  <d:response>
    <d:href>/dav/codex/sessions/rollout-%E4%B8%AD.jsonl</d:href>
    <d:propstat>
      <d:prop>
        <d:resourcetype/>
        <d:getcontentlength>1234</d:getcontentlength>
        <d:getlastmodified>Tue, 01 Jul 2025 10:00:00 GMT</d:getlastmodified>
      </d:prop>
    </d:propstat>
  </d:response>
</d:multistatus>"#;

fn obj(members: Vec<(&str, JsonValue)>) -> JsonValue {
    JsonValue::Object(members.into_iter().map(|(k, v)| (k.to_string(), v)).collect())
}

fn text(s: &str) -> JsonValue {
    JsonValue::Str(s.to_string())
}

#[test]
fn multistatus_lists_files_and_directories() {
    let entries = parse_multistatus("https://host/dav/codex/", MULTISTATUS, "sessions").unwrap();
    assert_eq!(entries.len(), 2);
    assert_eq!(entries[0].relative_path, "sessions/2025");
    assert!(entries[0].is_directory);
    assert_eq!(entries[0].size, None);
    assert_eq!(entries[1].relative_path, "sessions/rollout-中.jsonl");
    assert!(!entries[1].is_directory);
    assert_eq!(entries[1].size, Some(1234));
    assert_eq!(entries[1].last_modified, Some(1751364000));
}

#[test]
fn multistatus_keeps_the_target_for_a_stat() {
    let entries = parse_multistatus("https://host/dav/codex/", MULTISTATUS, "").unwrap();
    assert_eq!(entries.len(), 3);
    let found = find_entry(&entries, "sessions/rollout-中.jsonl").unwrap();
    assert_eq!(found.size, Some(1234));
    assert!(find_entry(&entries, "missing").is_none());
}

#[test]
fn broken_xml_is_an_xml_error() {
    match parse_multistatus("https://host/", "<a><b></a>", "") {
        Err(DavError::Xml(m)) => assert!(!m.is_empty()),
        other => panic!("unexpected {:?}", other),
    }
}

#[test]
fn bad_base_url_is_an_url_error() {
    match parse_multistatus("not a url", "<a/>", "") {
        Err(DavError::InvalidUrl(u)) => assert_eq!(u, "not a url"),
        other => panic!("unexpected {:?}", other),
    }
}

#[test]
fn xml_becomes_a_tree_of_local_names() {
    let v = xml_to_json("<d:a><d:b>x</d:b><d:b>y</d:b><d:c/></d:a>").unwrap();
    match v {
        JsonValue::Object(m) => {
            assert_eq!(m.len(), 2);
            assert_eq!(m[0].0, "b");
            match &m[0].1 {
                JsonValue::Array(items) => {
                    assert_eq!(items.len(), 2);
                    assert!(matches!(&items[0], JsonValue::Str(s) if s == "x"));
                    assert!(matches!(&items[1], JsonValue::Str(s) if s == "y"));
                },
                _ => panic!("expected an array"),
            }
            assert_eq!(m[1].0, "c");
            assert!(matches!(&m[1].1, JsonValue::Str(s) if s.is_empty()));
        },
        _ => panic!("expected an object"),
    }
}

#[test]
fn xml_without_elements_is_null() {
    assert!(matches!(xml_to_json("").unwrap(), JsonValue::Null));
}

#[test]
fn responses_are_found_at_any_depth() {
    let inner = obj(vec![("response", JsonValue::Array(vec![text("a"), text("b")]))]);
    let v = obj(vec![("response", text("top")), ("x", inner)]);
    let mut out = Vec::new();
    collect_responses(&v, &mut out);
    assert_eq!(out.len(), 3);
    assert!(matches!(&out[0], JsonValue::Str(s) if s == "top"));
}

#[test]
fn a_response_without_prop_describes_nothing() {
    let r = obj(vec![("href", text("/x/y"))]);
    assert!(remote_entry_from_response(&r, "x", "").is_none());
    let root = obj(vec![
        ("href", text("/x/")),
        ("propstat", obj(vec![("prop", obj(vec![]))])),
    ]);
    assert!(remote_entry_from_response(&root, "x", "").is_none());
}

#[test]
fn first_propstat_is_read() {
    let r = obj(vec![
        ("href", text("https://h/x/a.txt")),
        (
            "propstat",
            JsonValue::Array(vec![
                obj(vec![("prop", obj(vec![("getcontentlength", text("+7"))]))]),
                obj(vec![("prop", obj(vec![("getcontentlength", text("9"))]))]),
            ]),
        ),
    ]);
    let e: RemoteEntry = remote_entry_from_response(&r, "x", "").unwrap();
    assert_eq!(e.relative_path, "a.txt");
    assert_eq!(e.size, Some(7));
    assert!(!e.is_directory);
}

#[test]
fn join_url_encodes_each_piece() {
    assert_eq!(
        join_url("https://host/dav/", "sessions/a b/中.jsonl").unwrap(),
        "https://host/dav/sessions/a%20b/%E4%B8%AD.jsonl"
    );
    assert_eq!(join_url("https://host/dav/", "sessions//x/").unwrap(), "https://host/dav/sessions/x/");
    assert!(matches!(join_url("::", "x"), Err(DavError::InvalidUrl(_))));
}

#[test]
fn declarations_and_comments_are_left_out() {
    let xml = "<?xml version=\"1.0\"?>\n<!-- note -->\n<d:a xmlns:d=\"DAV:\"><!-- inner --><d:b> x </d:b></d:a>";
    match xml_to_json(xml).unwrap() {
        JsonValue::Object(m) => {
            assert_eq!(m.len(), 1);
            assert_eq!(m[0].0, "b");
            assert!(matches!(&m[0].1, JsonValue::Str(s) if s == "x"));
        },
        other => panic!("unexpected {:?}", other),
    }
    assert!(xml_to_json("<a></b>").is_err());
}

#[test]
fn resource_type_is_searched_in_its_json_text() {
    let entry = |resource: JsonValue| {
        let r = obj(vec![
            ("href", text("https://h/x/d")),
            ("propstat", obj(vec![("prop", obj(vec![("resourcetype", resource)]))])),
        ]);
        remote_entry_from_response(&r, "x", "").unwrap().is_directory
    };
    assert!(entry(obj(vec![("collection", JsonValue::Null)])));
    assert!(entry(text("a collection")));
    assert!(entry(text("\u{1c}ollection")));
    assert!(!entry(text("\u{1b}ollection")));
    assert!(!entry(text("col\"lection")));
    assert!(!entry(JsonValue::Array(vec![text("coll"), text("ection")])));
    assert!(!entry(JsonValue::Null));
}

#[test]
fn events_fold_into_a_tree() {
    let evs = vec![
        XmlEvent::Start("d:a".to_string()),
        XmlEvent::Start("d:b".to_string()),
        XmlEvent::Text("x".to_string()),
        XmlEvent::End,
        XmlEvent::Empty("d:c".to_string()),
        XmlEvent::End,
        XmlEvent::Eof,
    ];
    match json_of_events(&evs).unwrap() {
        JsonValue::Object(es) => {
            assert_eq!(es.len(), 2);
            assert_eq!(es[0].0, "b");
            assert!(matches!(&es[0].1, JsonValue::Str(t) if t == "x"));
            assert_eq!(es[1].0, "c");
            assert!(matches!(&es[1].1, JsonValue::Str(t) if t.is_empty()));
        },
        _ => panic!("expected an object"),
    }
    assert_eq!(json_of_events(&vec![XmlEvent::Start("a".to_string()), XmlEvent::Error("bad".to_string())]).unwrap_err(), "bad");
    assert!(matches!(json_of_events(&vec![XmlEvent::Eof]).unwrap(), JsonValue::Null));
    assert!(matches!(json_of_events(&vec![]).unwrap(), JsonValue::Null));
}
