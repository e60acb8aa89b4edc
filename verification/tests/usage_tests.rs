use codex_tools::json::{JsonNumber, JsonValue};
use codex_tools::usage::{
    estimate_usage_cost, model_from_value, pricing_for_model, timestamp_date, usage_event_key,
    usage_from_value, value_string, TokenUsage,
};
use codex_tools::usage_tally::{
    get_usage_summary_impl, summarize_parsed_logs, summarize_usage, usage_log_dir, UsageLine,
};

fn num(n: i64) -> JsonValue {
    JsonValue::Number(JsonNumber { text: n.to_string(), as_i64: Some(n) })
}

fn text(s: &str) -> JsonValue {
    JsonValue::Str(s.to_string())
}

fn object(entries: Vec<(&str, JsonValue)>) -> JsonValue {
    JsonValue::Object(entries.into_iter().map(|(k, v)| (k.to_string(), v)).collect())
}

fn counts(input: i64, cached: i64, output: i64, reasoning: i64, total: i64) -> JsonValue {
    object(vec![
        ("input_tokens", num(input)),
        ("cached_input_tokens", num(cached)),
        ("output_tokens", num(output)),
        ("reasoning_output_tokens", num(reasoning)),
        ("total_tokens", num(total)),
    ])
}

fn usage(input: i64, cached: i64, output: i64, reasoning: i64, total: i64) -> TokenUsage {
    TokenUsage {
        input_tokens: input,
        cached_input_tokens: cached,
        output_tokens: output,
        reasoning_output_tokens: reasoning,
        total_tokens: total,
    }
}

fn meta(provider: &str) -> JsonValue {
    object(vec![
        ("type", text("session_meta")),
        ("payload", object(vec![("model_provider", text(provider))])),
    ])
}

fn token_count(ts: &str, key: &str, c: JsonValue, model: Option<&str>) -> JsonValue {
    let mut info = vec![(key, c)];
    if let Some(m) = model {
        info.push(("model", text(m)));
    }
    object(vec![
        ("timestamp", text(ts)),
        ("payload", object(vec![("type", text("token_count")), ("info", object(info))])),
    ])
}

fn line(value: JsonValue, date: Option<&str>) -> UsageLine {
    UsageLine { value: Some(value), local_date: date.map(|d| d.to_string()) }
}

#[test]
fn token_usage_arithmetic() {
    let mut a = usage(1, 2, 3, 4, 5);
    a.add(&usage(10, 20, 30, 40, 50));
    assert_eq!(
        (a.input_tokens, a.cached_input_tokens, a.output_tokens, a.reasoning_output_tokens, a.total_tokens),
        (11, 22, 33, 44, 55)
    );
    let d = usage(10, 5, 3, 0, 18).saturating_delta(&usage(4, 9, 3, 1, 8));
    assert_eq!(
        (d.input_tokens, d.cached_input_tokens, d.output_tokens, d.reasoning_output_tokens, d.total_tokens),
        (6, 0, 0, 0, 10)
    );
    let n = usage(10, 25, -3, 2, 0).normalized();
    assert_eq!(
        (n.input_tokens, n.cached_input_tokens, n.output_tokens, n.reasoning_output_tokens, n.total_tokens),
        (10, 10, 0, 2, 9)
    );
}

#[test]
fn usage_counts_are_read() {
    let v = object(vec![
        ("input_tokens", num(7)),
        ("cache_read_input_tokens", num(3)),
        ("output_tokens", text("x")),
    ]);
    let u = usage_from_value(Some(&v)).unwrap();
    assert_eq!(
        (u.input_tokens, u.cached_input_tokens, u.output_tokens, u.reasoning_output_tokens, u.total_tokens),
        (7, 3, 0, 0, 0)
    );
    assert!(usage_from_value(None).is_none());
}

#[test]
fn models_are_found() {
    assert_eq!(value_string(Some(&text("  gpt-5  "))).as_deref(), Some("gpt-5"));
    assert_eq!(value_string(Some(&text("   "))), None);
    let v = object(vec![(
        "payload",
        object(vec![("info", object(vec![])), ("metadata", object(vec![("model", text("gpt-5-mini"))]))]),
    )]);
    assert_eq!(model_from_value(Some(&v)).as_deref(), Some("gpt-5-mini"));
    let w = object(vec![(
        "payload",
        object(vec![("info", object(vec![("model_name", text("gpt-5.4"))])), ("model", text("other"))]),
    )]);
    assert_eq!(model_from_value(Some(&w)).as_deref(), Some("gpt-5.4"));
}

#[test]
fn event_key_text() {
    assert_eq!(
        usage_event_key(Some("2025-01-02T03:04:05Z"), "gpt-5", &usage(1, -2, 3, 0, 4)),
        "2025-01-02T03:04:05Z|gpt-5|1|-2|3|0|4"
    );
    assert_eq!(usage_event_key(None, "m", &usage(0, 0, 0, 0, 0)), "|m|0|0|0|0|0");
}

#[test]
fn dates_fall_back_to_the_timestamp_prefix() {
    let v = object(vec![("timestamp", text("2025-03-04T10:00:00Z"))]);
    assert_eq!(timestamp_date(Some(&v), Some("2025-03-05".to_string())).as_deref(), Some("2025-03-05"));
    assert_eq!(timestamp_date(Some(&v), None).as_deref(), Some("2025-03-04"));
    let short = object(vec![("timestamp", text("2025"))]);
    assert_eq!(timestamp_date(Some(&short), None), None);
    assert_eq!(timestamp_date(Some(&object(vec![])), None), None);
}

#[test]
fn pricing_by_family() {
    let p = pricing_for_model(" GPT-5.4-Mini-2025 ").unwrap();
    assert_eq!((p.input_nano_usd, p.cached_input_nano_usd, p.output_nano_usd), (750, 75, 4500));
    let q = pricing_for_model("gpt-5.5-pro").unwrap();
    assert_eq!((q.input_nano_usd, q.cached_input_nano_usd, q.output_nano_usd), (30000, 3000, 180000));
    let r = pricing_for_model("gpt-5").unwrap();
    assert_eq!((r.input_nano_usd, r.cached_input_nano_usd, r.output_nano_usd), (1250, 125, 10000));
    assert!(pricing_for_model("llama-3").is_none());
}

#[test]
fn cost_estimates() {
    assert_eq!(estimate_usage_cost("gpt-5-mini", &usage(1000, 200, 100, 0, 1100)), 405000);
    assert_eq!(estimate_usage_cost("gpt-5.4", &usage(100, 40, 10, 5, 115)), 310000);
    assert_eq!(estimate_usage_cost("llama-3", &usage(1000, 0, 1000, 0, 2000)), 0);
    assert_eq!(estimate_usage_cost("gpt-5", &usage(10, 30, 0, 0, 10)), 3750);
}

#[test]
fn summary_of_one_session() {
    let ts = "2025-01-02T03:04:05Z";
    let event = || token_count(ts, "last_token_usage", counts(100, 40, 10, 5, 115), Some("gpt-5.4"));
    let files = vec![vec![
        line(meta("acme"), None),
        line(event(), Some("2025-01-02")),
        line(event(), Some("2025-01-02")),
        UsageLine { value: None, local_date: None },
    ]];
    let s = summarize_usage("/home/u/.codex", &files).unwrap();
    assert_eq!(s.codex_dir, "/home/u/.codex");
    assert_eq!(s.files_scanned, 1);
    assert_eq!(s.usage_events, 1);
    assert_eq!(s.total_cost_nano_usd, 310000);
    assert_eq!((s.total.input_tokens, s.total.total_tokens), (100, 115));
    assert_eq!(s.days.len(), 1);
    assert_eq!(s.days[0].date, "2025-01-02");
    assert_eq!(s.days[0].events, 1);
    assert_eq!(s.days[0].cached_input_tokens, 40);
    assert_eq!(s.providers.len(), 1);
    assert_eq!(s.providers[0].provider, "acme");
    assert_eq!(s.providers[0].cost_nano_usd, 310000);
}

#[test]
fn running_totals_give_deltas() {
    let first = token_count("t1", "total_token_usage", counts(50, 0, 5, 0, 55), None);
    let second = token_count("t2", "total_token_usage", counts(80, 10, 9, 0, 89), None);
    let files = vec![vec![line(first, Some("2025-01-01")), line(second, Some("2025-01-02"))]];
    let s = summarize_usage("d", &files).unwrap();
    assert_eq!(s.usage_events, 2);
    assert_eq!((s.total.input_tokens, s.total.cached_input_tokens, s.total.output_tokens), (80, 10, 9));
    assert_eq!(s.days.len(), 2);
    assert_eq!(s.days[0].date, "2025-01-02");
    assert_eq!(s.days[0].input_tokens, 30);
    assert_eq!(s.days[1].date, "2025-01-01");
    assert_eq!(s.days[1].input_tokens, 50);
    assert_eq!(s.providers[0].provider, "unknown");
    assert_eq!(s.total_cost_nano_usd, 50 * 1250 + 5 * 10000 + 20 * 1250 + 10 * 125 + 4 * 10000);
}

#[test]
fn providers_by_most_tokens() {
    let small = token_count("a", "last_token_usage", counts(1, 0, 1, 0, 2), Some("gpt-5"));
    let big = token_count("b", "last_token_usage", counts(100, 0, 100, 0, 200), Some("gpt-5"));
    let files = vec![
        vec![line(meta("small"), None), line(small, None)],
        vec![line(meta("big"), None), line(big, None)],
    ];
    let s = summarize_usage("d", &files).unwrap();
    assert_eq!(s.files_scanned, 2);
    assert_eq!(s.providers[0].provider, "big");
    assert_eq!(s.providers[1].provider, "small");
    assert_eq!(s.days[0].date, "unknown");
}

#[test]
fn summary_from_parsed_lines() {
    let files = vec![vec![
        Some(meta("acme")),
        Some(object(vec![(
            "payload",
            object(vec![
                ("type", text("token_count")),
                ("info", object(vec![("last_token_usage", counts(3, 0, 2, 0, 5))])),
            ]),
        )])),
        None,
    ]];
    let found = vec!["dir/sessions/2025/rollout-a.jsonl".to_string(), "dir/sessions/notes.txt".to_string()];
    let s = summarize_parsed_logs("dir", &found, false, files).unwrap();
    assert_eq!(s.files_scanned, 1);
    assert_eq!(s.usage_events, 1);
    assert_eq!(s.days[0].date, "unknown");
    assert_eq!(s.total.total_tokens, 5);
    assert_eq!(s.total_cost_nano_usd, 3 * 1250 + 2 * 10000);
}

#[test]
fn same_file_read_twice_counts_once() {
    let file = || {
        vec![
            line(meta("acme"), None),
            line(token_count("t1", "last_token_usage", counts(10, 0, 5, 0, 15), Some("gpt-5")), Some("2025-02-01")),
            line(token_count("t2", "total_token_usage", counts(30, 0, 9, 0, 39), Some("gpt-5")), Some("2025-02-01")),
        ]
    };
    let once = summarize_usage("d", &vec![file()]).unwrap();
    let twice = summarize_usage("d", &vec![file(), vec![line(meta("other"), None)], file()]).unwrap();
    assert_eq!(once.usage_events, 2);
    assert_eq!(twice.usage_events, once.usage_events);
    assert_eq!(twice.total.total_tokens, once.total.total_tokens);
    assert_eq!(twice.total_cost_nano_usd, once.total_cost_nano_usd);
    assert_eq!(twice.days.len(), 1);
    assert_eq!(twice.providers.len(), 1);
    assert_eq!(twice.files_scanned, 3);
}

#[test]
fn parsed_lines_get_dates_where_timestamps_parse() {
    let valid = token_count("2025-01-01T12:00:00Z", "last_token_usage", counts(2, 0, 1, 0, 3), None);
    let invalid = token_count("garbage-timestamp", "last_token_usage", counts(4, 0, 1, 0, 5), None);
    let found = vec!["dir/sessions/rollout-1.jsonl".to_string()];
    let s = summarize_parsed_logs("dir", &found, false, vec![vec![Some(valid), Some(invalid)]]).unwrap();
    assert_eq!(s.usage_events, 2);
    assert_eq!(s.days.len(), 2);
    let dates: Vec<&str> = s.days.iter().map(|d| d.date.as_str()).collect();
    assert!(dates.contains(&"garbage-ti"));
    let local = dates.iter().find(|d| **d != "garbage-ti").unwrap();
    assert_eq!(local.len(), 10);
    assert!(local.starts_with("202"));
}

#[test]
fn usage_reads_the_sessions_directory() {
    assert_eq!(usage_log_dir("/home/u/.codex", false), "/home/u/.codex/sessions");
    assert_eq!(usage_log_dir("C:\\c", true), "C:\\c\\sessions");
}

#[test]
fn files_scanned_counts_the_thread_files_found() {
    let found = vec![
        "d/sessions/a/rollout-1.jsonl".to_string(),
        "d/sessions/a/rollout-2.json".to_string(),
        "d/sessions/b/rollout-3.jsonl".to_string(),
        "d/sessions/b".to_string(),
    ];
    let s = get_usage_summary_impl("d", &found, false, vec![String::new(), "\n  \nnot json\n".to_string()]).unwrap();
    assert_eq!(s.files_scanned, 2);
    assert_eq!(s.usage_events, 0);
}

#[test]
fn repeated_last_event_counts_once() {
    let event = || line(token_count("t1", "last_token_usage", counts(10, 0, 5, 0, 15), Some("gpt-5")), Some("2025-02-01"));
    let without = summarize_usage("d", &vec![vec![line(meta("acme"), None), event()]]).unwrap();
    let with = summarize_usage("d", &vec![vec![line(meta("acme"), None), event(), event()]]).unwrap();
    assert_eq!(with.usage_events, without.usage_events);
    assert_eq!(with.total.total_tokens, without.total.total_tokens);
    assert_eq!(with.total_cost_nano_usd, without.total_cost_nano_usd);
    assert_eq!(with.days[0].total_tokens, without.days[0].total_tokens);
    assert_eq!(with.providers[0].events, without.providers[0].events);
    assert_eq!(with.days[0].events, 1);
}

#[test]
fn summary_reads_the_log_text() {
    let log = [
        "{\"type\":\"session_meta\",\"payload\":{\"model_provider\":\"acme\"}}\n",
        "\n",
        "not json\n",
        "{\"timestamp\":\"x\",\"payload\":{\"type\":\"token_count\",\"info\":{\"last_token_usage\":",
        "{\"input_tokens\":3,\"cached_input_tokens\":0,\"output_tokens\":2,\"reasoning_output_tokens\":0,\"total_tokens\":5}}}}\r\n",
    ]
    .join("");
    let found = vec!["d/sessions/rollout-1.jsonl".to_string()];
    let s = get_usage_summary_impl("d", &found, false, vec![log]).unwrap();
    assert_eq!(s.files_scanned, 1);
    assert_eq!(s.usage_events, 1);
    assert_eq!(s.total.total_tokens, 5);
    assert_eq!(s.providers[0].provider, "acme");
    assert_eq!(s.days[0].date, "unknown");
}
