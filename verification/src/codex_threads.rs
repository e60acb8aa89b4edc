//! Codex's thread files: counting them, moving them all onto the current provider, and
//! the entries of the session index rebuilt from the thread table.
use vstd::prelude::*;
use crate::json::{Json, JsonNumber, JsonValue, as_str, get, json_as_str, json_get, json_view, member};
use crate::providers::{current_provider_from_document, spec_current_provider};
use crate::text::{chars_of, digits, int_text, opt_text, str_eq, string_of, to_lowercase, unicode_lowercase};
use crate::toml::{TomlItem, table_view};
use crate::webdav::{is_rollout_file, is_rollout_path};

verus! {

// ---------------------------------------------------------------------------
// Counting
// ---------------------------------------------------------------------------

/// What the overview shows: the current provider, the threads in use and archived, and
/// the Codex directory.
#[derive(Debug)]
pub struct Summary {
    pub provider: String,
    pub active_sessions: usize,
    pub archived_sessions: usize,
    pub codex_dir: String,
}

/// The paths that name thread files, in order.
pub open spec fn rollouts(paths: Seq<Seq<char>>, windows: bool) -> Seq<Seq<char>>
    decreases paths.len(),
{
    if paths.len() == 0 {
        Seq::empty()
    } else if is_rollout_path(paths.last(), windows) {
        rollouts(paths.drop_last(), windows).push(paths.last())
    } else {
        rollouts(paths.drop_last(), windows)
    }
}

/// The paths found below a directory that name thread files.
pub fn select_rollouts(paths: &Vec<String>, windows: bool) -> (res: Vec<String>)
    ensures
        crate::text::string_views(res@) == rollouts(crate::text::string_views(paths@), windows),
{
    let ghost pv = crate::text::string_views(paths@);
    let mut out: Vec<String> = Vec::new();
    let mut k: usize = 0;
    assert(pv.take(0) =~= Seq::<Seq<char>>::empty());
    assert(crate::text::string_views(out@) =~= Seq::<Seq<char>>::empty());
    while k < paths.len()
        invariant
            k <= paths.len(),
            pv == crate::text::string_views(paths@),
            crate::text::string_views(out@) == rollouts(pv.take(k as int), windows),
        decreases paths.len() - k,
    {
        assert(pv.take(k + 1).drop_last() =~= pv.take(k as int));
        assert(pv.take(k + 1).last() == paths@[k as int]@);
        if is_rollout_file(paths[k].as_str(), windows) {
            let ghost before = crate::text::string_views(out@);
            out.push(paths[k].clone());
            assert(crate::text::string_views(out@) =~= before.push(paths@[k as int]@));
        }
        k += 1;
    }
    assert(pv.take(k as int) =~= pv);
    out
}

/// The current provider: `model_provider` of the configuration where it is read and sets
/// one, else `openai`.
pub open spec fn summary_provider(config: Option<Seq<(Seq<char>, crate::toml::Toml)>>) -> Seq<char> {
    match config {
        Some(doc) => match spec_current_provider(doc) {
            Some(p) => p,
            None => "openai"@,
        },
        None => "openai"@,
    }
}

/// The overview, from the configuration as read (nothing where it cannot be) and the
/// paths found below `sessions` and `archived_sessions`.
pub fn get_summary_impl(
    codex_dir: &str,
    config: Option<&Vec<(String, TomlItem)>>,
    active: &Vec<String>,
    archived: &Vec<String>,
    windows: bool,
) -> (res: Summary)
    ensures
        res.provider@ == summary_provider(
            match config {
                Some(d) => Some(table_view(d@)),
                None => None,
            },
        ),
        res.active_sessions == rollouts(crate::text::string_views(active@), windows).len(),
        res.archived_sessions == rollouts(crate::text::string_views(archived@), windows).len(),
        res.codex_dir@ == codex_dir@,
{
    let provider = match config {
        Some(doc) => match current_provider_from_document(doc) {
            Some(p) => p,
            None => "openai".to_string(),
        },
        None => "openai".to_string(),
    };
    let a = select_rollouts(active, windows);
    let b = select_rollouts(archived, windows);
    Summary {
        provider,
        active_sessions: a.len(),
        archived_sessions: b.len(),
        codex_dir: codex_dir.to_string(),
    }
}

// ---------------------------------------------------------------------------
// Moving threads onto the current provider
// ---------------------------------------------------------------------------

/// One line of a thread file after the rewrite.
#[derive(Debug)]
pub enum LineOut {
    /// The line as it was.
    Keep(String),
    /// The line written anew from this value.
    Write(JsonValue),
}

pub enum LineView {
    Keep(Seq<char>),
    Write(Json),
}

impl View for LineOut {
    type V = LineView;

    open spec fn view(&self) -> LineView {
        match self {
            LineOut::Keep(t) => LineView::Keep(t@),
            LineOut::Write(v) => LineView::Write(v@),
        }
    }
}

/// The members of an object with `key` set to `v`: in place where it is there, else
/// added after the names that sort before it, where `serde_json`'s map, which keeps its
/// members in name order, puts it.
pub open spec fn set_member(es: Seq<(Seq<char>, Json)>, key: Seq<char>, v: Json) -> Seq<
    (Seq<char>, Json),
> {
    match crate::dav::key_index(es, key) {
        Some(i) => es.update(i, (key, v)),
        None => es.insert(crate::dav::key_slot(es, key), (key, v)),
    }
}

/// A session's metadata line: of type `session_meta`.
pub open spec fn is_session_meta(v: Json) -> bool {
    as_str(get(Some(v), "type"@)) == Some("session_meta"@)
}

/// One line of a thread file rewritten for `provider`: a line that does not parse, or is
/// not session metadata, stays as it is; session metadata is written anew, its payload's
/// `model_provider` set to `provider` where the payload is an object that names another
/// (or none); the second part says whether that was done.
pub open spec fn spec_rewrite_line(text: Seq<char>, v: Option<Json>, provider: Seq<char>) -> (
    LineView,
    bool,
) {
    match v {
        None => (LineView::Keep(text), false),
        Some(j) => if !is_session_meta(j) {
            (LineView::Keep(text), false)
        } else {
            match (j, get(Some(j), "payload"@)) {
                (Json::Object(top), Some(Json::Object(pes))) => if as_str(
                    member(pes, "model_provider"@),
                ) == Some(provider) {
                    (LineView::Write(j), false)
                } else {
                    (
                        LineView::Write(
                            Json::Object(
                                set_member(
                                    top,
                                    "payload"@,
                                    Json::Object(
                                        set_member(pes, "model_provider"@, Json::Str(provider)),
                                    ),
                                ),
                            ),
                        ),
                        true,
                    )
                },
                _ => (LineView::Write(j), false),
            }
        },
    }
}

fn set_member_exec(es: Vec<(String, JsonValue)>, key: &str, v: JsonValue) -> (res: Vec<
    (String, JsonValue),
>)
    ensures
        crate::json::entries_view(res@) == set_member(crate::json::entries_view(es@), key@, v@),
{
    let ghost ev = crate::json::entries_view(es@);
    let mut out = es;
    let mut i: usize = 0;
    assert(ev.skip(0) =~= ev);
    while i < out.len()
        invariant
            i <= out.len() == ev.len(),
            ev == crate::json::entries_view(out@),
            ev == crate::json::entries_view(es@),
            crate::dav::key_index(ev, key@) == match crate::dav::key_index(
                ev.skip(i as int),
                key@,
            ) {
                Some(j) => Some(j + i),
                None => None,
            },
        decreases out.len() - i,
    {
        let ghost rest = ev.skip(i as int);
        assert(rest.drop_first() =~= ev.skip(i + 1));
        assert(rest[0] == ev[i as int]);
        if str_eq(out[i].0.as_str(), key) {
            assert(ev[i as int].0 == key@);
            assert(crate::dav::key_index(rest, key@) == Some(0int));
            let ghost vv = v@;
            out.set(i, (key.to_string(), v));
            assert(crate::json::entries_view(out@) =~= ev.update(i as int, (key@, vv)));
            return out;
        }
        i += 1;
    }
    assert(crate::dav::key_index(ev, key@) is None);
    let mut j: usize = 0;
    while j < out.len() && crate::text::str_less(out[j].0.as_str(), key)
        invariant
            j <= out.len() == ev.len(),
            ev == crate::json::entries_view(out@),
            crate::dav::key_slot(ev, key@) == j + crate::dav::key_slot(ev.skip(j as int), key@),
        decreases out.len() - j,
    {
        assert(ev.skip(j as int).drop_first() =~= ev.skip(j + 1));
        assert(ev.skip(j as int)[0] == ev[j as int]);
        j += 1;
    }
    proof {
        if j < out.len() {
            assert(ev.skip(j as int)[0] == ev[j as int]);
        }
    }
    let ghost vv = v@;
    out.insert(j, (key.to_string(), v));
    assert(crate::json::entries_view(out@) =~= ev.insert(j as int, (key@, vv)));
    out
}

/// One line of a thread file rewritten for `provider`.
pub fn rewrite_line(text: &str, value: Option<JsonValue>, provider: &str) -> (res: (LineOut, bool))
    ensures
        (res.0@, res.1) == spec_rewrite_line(
            text@,
            match value {
                Some(j) => Some(j@),
                None => None,
            },
            provider@,
        ),
{
    let j = match value {
        Some(j) => j,
        None => return (LineOut::Keep(text.to_string()), false),
    };
    let meta = match json_as_str(json_get(Some(&j), "type")) {
        Some(t) => str_eq(t.as_str(), "session_meta"),
        None => false,
    };
    if !meta {
        return (LineOut::Keep(text.to_string()), false);
    }
    let payload = match json_get(Some(&j), "payload") {
        Some(p) => Some(p.clone()),
        None => None,
    };
    match (j, payload) {
        (JsonValue::Object(top), Some(JsonValue::Object(pes))) => {
            proof {
                crate::json::lemma_object_view(top);
                crate::json::lemma_object_view(pes);
            }
            let pv = JsonValue::Object(pes);
            let current = match json_as_str(json_get(Some(&pv), "model_provider")) {
                Some(c) => str_eq(c.as_str(), provider),
                None => false,
            };
            if current {
                return (LineOut::Write(JsonValue::Object(top)), false);
            }
            if let JsonValue::Object(pes) = pv {
                let new_payload = set_member_exec(
                    pes,
                    "model_provider",
                    JsonValue::Str(provider.to_string()),
                );
                proof {
                    crate::json::lemma_object_view(new_payload);
                }
                let payload_value = JsonValue::Object(new_payload);
                let new_top = set_member_exec(top, "payload", payload_value);
                proof {
                    crate::json::lemma_object_view(new_top);
                }
                (LineOut::Write(JsonValue::Object(new_top)), true)
            } else {
                (LineOut::Write(JsonValue::Null), false)
            }
        },
        (other, _) => (LineOut::Write(other), false),
    }
}

pub open spec fn line_inputs(lines: Seq<(String, Option<JsonValue>)>) -> Seq<(Seq<char>, Option<Json>)> {
    lines.map_values(
        |l: (String, Option<JsonValue>)|
            (
                l.0@,
                match l.1 {
                    Some(j) => Some(j@),
                    None => None,
                },
            ),
    )
}

/// Whether any line was moved onto the provider.
pub open spec fn any_changed(lines: Seq<(Seq<char>, Option<Json>)>, provider: Seq<char>) -> bool {
    exists|i: int|
        0 <= i < lines.len() && (#[trigger] spec_rewrite_line(lines[i].0, lines[i].1, provider)).1
}

/// The lines of a thread file (each with its value where it parses) rewritten for
/// `provider`, and whether any was moved onto it.
pub fn rewrite_lines(lines: &Vec<(String, Option<JsonValue>)>, provider: &str) -> (res: (
    Vec<LineOut>,
    bool,
))
    ensures
        res.0@.len() == lines@.len(),
        forall|i: int|
            0 <= i < lines@.len() ==> (#[trigger] res.0@[i])@ == spec_rewrite_line(
                line_inputs(lines@)[i].0,
                line_inputs(lines@)[i].1,
                provider@,
            ).0,
        res.1 == any_changed(line_inputs(lines@), provider@),
{
    let ghost li = line_inputs(lines@);
    let mut out: Vec<LineOut> = Vec::new();
    let mut changed = false;
    let mut k: usize = 0;
    while k < lines.len()
        invariant
            k <= lines.len(),
            li == line_inputs(lines@),
            out@.len() == k,
            forall|i: int|
                0 <= i < k ==> (#[trigger] out@[i])@ == spec_rewrite_line(li[i].0, li[i].1, provider@).0,
            changed == exists|i: int|
                0 <= i < k && (#[trigger] spec_rewrite_line(li[i].0, li[i].1, provider@)).1,
        decreases lines.len() - k,
    {
        let value = match &lines[k].1 {
            Some(j) => Some(j.clone()),
            None => None,
        };
        let (line, c) = rewrite_line(lines[k].0.as_str(), value, provider);
        assert(li[k as int].0 == lines@[k as int].0@);
        proof {
            if c {
                assert(spec_rewrite_line(li[k as int].0, li[k as int].1, provider@).1);
            }
        }
        out.push(line);
        changed = changed || c;
        k += 1;
    }
    (out, changed)
}

/// The lines of a thread file written back: joined with `\n`, with a `\n` at the end.
pub fn join_jsonl(lines: &Vec<String>) -> (res: String)
    ensures
        res@ == crate::bridge::join_lines(crate::text::string_views(lines@)) + seq!['\n'],
{
    let ghost lv = crate::text::string_views(lines@);
    let mut out: Vec<char> = Vec::new();
    let mut k: usize = 0;
    assert(lv.take(0) =~= Seq::<Seq<char>>::empty());
    while k < lines.len()
        invariant
            k <= lines.len(),
            lv == crate::text::string_views(lines@),
            out@ == crate::bridge::join_lines(lv.take(k as int)),
        decreases lines.len() - k,
    {
        let ghost t = lv.take(k + 1);
        assert(t.drop_last() =~= lv.take(k as int));
        assert(t.last() == lines@[k as int]@);
        if k > 0 {
            out.push('\n');
        }
        crate::text::append_str(&mut out, lines[k].as_str());
        proof {
            if k == 0 {
                assert(t.len() == 1);
                assert(out@ =~= t[0]);
            }
        }
        k += 1;
    }
    assert(lv.take(k as int) =~= lv);
    out.push('\n');
    string_of(out.as_slice())
}

/// How a line of a thread file is written back: a kept line as it was, a value as
/// `serde_json::to_string` writes it.
pub open spec fn line_text(l: LineView) -> Seq<char> {
    match l {
        LineView::Keep(t) => t,
        LineView::Write(j) => crate::json::json_written(j),
    }
}

/// The lines of `content` (`str::lines`), each with its value as JSON (nothing where it
/// is no JSON).
pub open spec fn content_inputs(content: Seq<char>) -> Seq<(Seq<char>, Option<Json>)> {
    let ls = crate::text::text_lines(content);
    Seq::new(ls.len(), |i: int| (ls[i], crate::json::json_parsed(ls[i])))
}

/// The lines rewritten for `provider`, as they are written back.
pub open spec fn rewritten_lines(inputs: Seq<(Seq<char>, Option<Json>)>, provider: Seq<char>) -> Seq<
    Seq<char>,
> {
    Seq::new(
        inputs.len(),
        |i: int| line_text(spec_rewrite_line(inputs[i].0, inputs[i].1, provider).0),
    )
}

/// A thread file moved onto `provider`: its lines (`str::lines`), each rewritten,
/// joined with `\n` and ended with `\n`; and whether any line was moved onto it.
pub open spec fn spec_replace_provider(content: Seq<char>, provider: Seq<char>) -> (
    Seq<char>,
    bool,
) {
    let inputs = content_inputs(content);
    (
        crate::bridge::join_lines(rewritten_lines(inputs, provider)) + seq!['\n'],
        any_changed(inputs, provider),
    )
}

/// A thread file moved onto `provider`: each of its lines read as JSON and rewritten;
/// the new text, and whether any line was moved onto the provider.
pub fn replace_provider_in_jsonl(content: &str, provider: &str) -> (res: (String, bool))
    ensures
        (res.0@, res.1) == spec_replace_provider(content@, provider@),
{
    let ghost inputs = content_inputs(content@);
    let lines = crate::text::lines_of(content);
    let mut pairs: Vec<(String, Option<JsonValue>)> = Vec::new();
    let mut k: usize = 0;
    while k < lines.len()
        invariant
            k <= lines.len(),
            crate::text::string_views(lines@) == crate::text::text_lines(content@),
            inputs == content_inputs(content@),
            pairs@.len() == k,
            forall|i: int| 0 <= i < k ==> #[trigger] line_inputs(pairs@)[i] == inputs[i],
        decreases lines.len() - k,
    {
        let value = crate::json::parse_json(lines[k].as_str());
        let ghost before = pairs@;
        pairs.push((lines[k].clone(), value));
        proof {
            assert forall|i: int| 0 <= i < k + 1 implies #[trigger] line_inputs(pairs@)[i]
                == inputs[i] by {
                if i < k {
                    assert(pairs@[i] == before[i]);
                    assert(line_inputs(pairs@)[i] == line_inputs(before)[i]);
                } else {
                    assert(crate::text::string_views(lines@)[i] == lines@[i]@);
                }
            }
        }
        k += 1;
    }
    assert(line_inputs(pairs@) =~= inputs);
    let (outs, changed) = rewrite_lines(&pairs, provider);
    let ghost texts = rewritten_lines(inputs, provider@);
    let mut out: Vec<char> = Vec::new();
    let mut m: usize = 0;
    assert(texts.take(0) =~= Seq::<Seq<char>>::empty());
    while m < outs.len()
        invariant
            m <= outs.len() == inputs.len(),
            texts == rewritten_lines(inputs, provider@),
            forall|i: int|
                0 <= i < outs@.len() ==> (#[trigger] outs@[i])@ == spec_rewrite_line(
                    inputs[i].0,
                    inputs[i].1,
                    provider@,
                ).0,
            out@ == crate::bridge::join_lines(texts.take(m as int)),
        decreases outs.len() - m,
    {
        let ghost t = texts.take(m + 1);
        assert(t.drop_last() =~= texts.take(m as int));
        assert(t.last() == line_text(outs@[m as int]@));
        if m > 0 {
            out.push('\n');
        }
        let ghost before = out@;
        match &outs[m] {
            LineOut::Keep(text) => {
                crate::text::append_str(&mut out, text.as_str());
            },
            LineOut::Write(v) => {
                let written = crate::json::write_json_text(v);
                crate::text::append_str(&mut out, written.as_str());
            },
        }
        proof {
            if m == 0 {
                assert(t.len() == 1);
                assert(out@ =~= t[0]);
            } else {
                assert(out@ =~= crate::bridge::join_lines(t.drop_last()) + seq!['\n'] + t.last());
            }
        }
        m += 1;
    }
    assert(texts.take(m as int) =~= texts);
    out.push('\n');
    (crate::text::string_of(out.as_slice()), changed)
}

/// The report of moving the threads onto the current provider.
pub open spec fn spec_unify_message(scanned: u64, changed: u64, rows: u64, entries: u64) -> Seq<char> {
    crate::sync_plan::report(
        seq!["合并完成：扫描 "@, " 个，修改 "@, " 个，更新线程行 "@, " 条，索引 "@, " 条"@],
        seq![scanned, changed, rows, entries],
    )
}

/// The report of moving the threads onto the current provider: files scanned, files
/// changed, thread rows updated, and index entries written.
pub fn unify_message(scanned: u64, changed: u64, rows: u64, entries: u64) -> (res: String)
    ensures
        res@ == spec_unify_message(scanned, changed, rows, entries),
{
    let mut parts: Vec<&str> = Vec::new();
    parts.push("合并完成：扫描 ");
    parts.push(" 个，修改 ");
    parts.push(" 个，更新线程行 ");
    parts.push(" 条，索引 ");
    parts.push(" 条");
    let mut nums: Vec<u64> = Vec::new();
    nums.push(scanned);
    nums.push(changed);
    nums.push(rows);
    nums.push(entries);
    assert(parts@.map_values(|p: &str| p@) =~= seq![
        "合并完成：扫描 "@,
        " 个，修改 "@,
        " 个，更新线程行 "@,
        " 条，索引 "@,
        " 条"@,
    ]);
    assert(nums@ =~= seq![scanned, changed, rows, entries]);
    crate::sync_plan::report_exec(&parts, &nums)
}

// ---------------------------------------------------------------------------
// The session index
// ---------------------------------------------------------------------------

/// A row of Codex's thread table, as the index is rebuilt from it.
#[derive(Debug)]
pub struct ThreadRow {
    pub id: String,
    pub title: Option<String>,
    pub updated_at: i64,
    pub updated_at_ms: Option<i64>,
    pub cwd: Option<String>,
    pub git_origin_url: Option<String>,
    pub git_branch: Option<String>,
}

/// A text, or null.
pub open spec fn text_or_null(t: Option<Seq<char>>) -> Json {
    match t {
        Some(s) => Json::Str(s),
        None => Json::Null,
    }
}

/// The row's time in milliseconds: as stored, else its seconds times 1000.
pub open spec fn row_millis(r: ThreadRow) -> int {
    match r.updated_at_ms {
        Some(ms) => ms as int,
        None => r.updated_at * 1000,
    }
}

/// The time of a row fits in `i64`.
pub open spec fn row_fits(r: ThreadRow) -> bool {
    i64::MIN <= row_millis(r) <= i64::MAX
}

/// The index entry of a thread row: its ID, title, time in milliseconds, working
/// directory, the provider, its git origin and branch, the directory lower-cased as its
/// project root and key, and the directory's last name as its project name.
pub open spec fn spec_index_entry(r: ThreadRow, provider: Seq<char>, windows: bool) -> Json {
    let root = unicode_lowercase(
        match opt_text(r.cwd) {
            Some(c) => c,
            None => Seq::empty(),
        },
    );
    let name = match opt_text(r.cwd) {
        Some(c) => match crate::pathparts::file_name(c, windows) {
            Some(n) => n,
            None => Seq::empty(),
        },
        None => Seq::empty(),
    };
    Json::Object(
        seq![
            ("id"@, Json::Str(r.id@)),
            ("thread_name"@, text_or_null(opt_text(r.title))),
            ("updated_at"@, Json::Number(int_text(row_millis(r)), Some(row_millis(r) as i64))),
            ("cwd"@, text_or_null(opt_text(r.cwd))),
            ("model_provider"@, Json::Str(provider)),
            ("git_origin_url"@, text_or_null(opt_text(r.git_origin_url))),
            ("git_branch"@, text_or_null(opt_text(r.git_branch))),
            ("project_root"@, Json::Str(root)),
            ("project_name"@, Json::Str(name)),
            ("project_key"@, Json::Str(root)),
        ],
    )
}

fn text_value(t: &Option<String>) -> (res: JsonValue)
    ensures
        res@ == text_or_null(opt_text(*t)),
{
    match t {
        Some(s) => JsonValue::Str(s.clone()),
        None => JsonValue::Null,
    }
}

fn push_member(es: &mut Vec<(String, JsonValue)>, key: &str, v: JsonValue)
    ensures
        crate::json::entries_view(final(es)@) == crate::json::entries_view(old(es)@).push((key@, v@)),
{
    let ghost vv = v@;
    es.push((key.to_string(), v));
    assert(crate::json::entries_view(es@) =~= crate::json::entries_view(old(es)@).push((key@, vv)));
}

/// The index entry of a thread row.
pub fn index_entry(row: &ThreadRow, provider: &str, windows: bool) -> (res: JsonValue)
    requires
        row_fits(*row),
    ensures
        res@ == spec_index_entry(*row, provider@, windows),
{
    let ms: i64 = match row.updated_at_ms {
        Some(ms) => ms,
        None => row.updated_at * 1000,
    };
    let cwd_text = match &row.cwd {
        Some(c) => c.clone(),
        None => String::new(),
    };
    let root = to_lowercase(cwd_text.as_str());
    let name = match &row.cwd {
        Some(c) => match crate::pathparts::path_file_name(c.as_str(), windows) {
            Some(n) => n,
            None => String::new(),
        },
        None => String::new(),
    };
    let mut es: Vec<(String, JsonValue)> = Vec::new();
    push_member(&mut es, "id", JsonValue::Str(row.id.clone()));
    push_member(&mut es, "thread_name", text_value(&row.title));
    push_member(
        &mut es,
        "updated_at",
        JsonValue::Number(JsonNumber { text: crate::text::int_string(ms), as_i64: Some(ms) }),
    );
    push_member(&mut es, "cwd", text_value(&row.cwd));
    push_member(&mut es, "model_provider", JsonValue::Str(provider.to_string()));
    push_member(&mut es, "git_origin_url", text_value(&row.git_origin_url));
    push_member(&mut es, "git_branch", text_value(&row.git_branch));
    push_member(&mut es, "project_root", JsonValue::Str(root.clone()));
    push_member(&mut es, "project_name", JsonValue::Str(name));
    push_member(&mut es, "project_key", JsonValue::Str(root));
    let ghost ev = crate::json::entries_view(es@);
    proof {
        crate::json::lemma_object_view(es);
        assert(opt_text(row.cwd) == Some(cwd_text@) || (row.cwd is None && cwd_text@ == Seq::<
            char,
        >::empty()));
    }
    let res = JsonValue::Object(es);
    assert(ev =~= match spec_index_entry(*row, provider@, windows) {
        Json::Object(x) => x,
        _ => Seq::empty(),
    });
    res
}

/// The line of the session index for a thread row: its entry as `serde_json::to_string`
/// writes it.
pub fn index_line(row: &ThreadRow, provider: &str, windows: bool) -> (res: String)
    requires
        row_fits(*row),
    ensures
        res@ == crate::json::json_written(spec_index_entry(*row, provider@, windows)),
{
    let entry = index_entry(row, provider, windows);
    crate::json::write_json_text(&entry)
}

proof fn lemma_key_slot_range(es: Seq<(Seq<char>, Json)>, key: Seq<char>)
    ensures
        0 <= crate::dav::key_slot(es, key) <= es.len(),
    decreases es.len(),
{
    if es.len() > 0 {
        lemma_key_slot_range(es.drop_first(), key);
    }
}

/// Setting a member of an object that does not start with it: the first member stays
/// in front unless the new one goes there, and the rest is the rest set.
proof fn lemma_set_member_rest(es: Seq<(Seq<char>, Json)>, key: Seq<char>, v: Json)
    requires
        es.len() > 0,
        es[0].0 != key,
    ensures
        ({
            let s = set_member(es, key, v);
            ||| (s[0] == (key, v) && s.drop_first() == es)
            ||| (s[0] == es[0] && s.drop_first() == set_member(es.drop_first(), key, v))
        }),
        set_member(es, key, v).len() > 0,
{
    let s = set_member(es, key, v);
    let q = es.drop_first();
    crate::dav::lemma_key_index_bounds(q, key);
    match crate::dav::key_index(q, key) {
        Some(i) => {
            assert(crate::dav::key_index(es, key) == Some(i + 1));
            assert(s =~= es.update(i + 1, (key, v)));
            assert(s.drop_first() =~= q.update(i, (key, v)));
        },
        None => {
            assert(crate::dav::key_index(es, key) is None);
            let slot = crate::dav::key_slot(es, key);
            lemma_key_slot_range(es, key);
            lemma_key_slot_range(q, key);
            if slot == 0 {
                assert(s =~= es.insert(0, (key, v)));
                assert(s.drop_first() =~= es);
            } else {
                assert(slot == 1 + crate::dav::key_slot(q, key));
                assert(s =~= es.insert(slot, (key, v)));
                assert(s[0] == es[0]);
                assert(s.drop_first() =~= q.insert(slot - 1, (key, v)));
            }
        },
    }
}

proof fn lemma_member_set_same(es: Seq<(Seq<char>, Json)>, key: Seq<char>, v: Json)
    ensures
        member(set_member(es, key, v), key) == Some(v),
    decreases es.len(),
{
    let s = set_member(es, key, v);
    if es.len() == 0 {
        assert(s =~= seq![(key, v)]);
    } else if es[0].0 == key {
        assert(s[0] == (key, v));
    } else {
        lemma_set_member_rest(es, key, v);
        assert(s.len() > 0);
        if s[0] != (key, v) {
            lemma_member_set_same(es.drop_first(), key, v);
        }
    }
}

proof fn lemma_member_set_other(es: Seq<(Seq<char>, Json)>, key: Seq<char>, v: Json, other: Seq<char>)
    requires
        other != key,
    ensures
        member(set_member(es, key, v), other) == member(es, other),
    decreases es.len(),
{
    let s = set_member(es, key, v);
    if es.len() == 0 {
        assert(s =~= seq![(key, v)]);
        assert(s.drop_first() =~= Seq::<(Seq<char>, Json)>::empty());
    } else if es[0].0 == key {
        assert(s[0] == (key, v));
        assert(s.drop_first() =~= es.drop_first());
    } else {
        lemma_set_member_rest(es, key, v);
        assert(s.len() > 0);
        if s[0] != (key, v) {
            lemma_member_set_other(es.drop_first(), key, v, other);
        }
    }
}

/// Moving a line onto a provider a second time changes nothing: a line written anew,
/// read back (as any text) with its value, is written anew as the same value and reports
/// no change; a line kept is kept again.
pub proof fn lemma_rewrite_settles(text: Seq<char>, v: Option<Json>, provider: Seq<char>, again: Seq<char>)
    ensures
        match spec_rewrite_line(text, v, provider).0 {
            LineView::Write(j) => spec_rewrite_line(again, Some(j), provider) == (
                LineView::Write(j),
                false,
            ),
            LineView::Keep(t) => !spec_rewrite_line(text, v, provider).1 && t == text,
        },
{
    reveal_strlit("type");
    reveal_strlit("payload");
    reveal_strlit("model_provider");
    match v {
        None => {},
        Some(j) => {
            if is_session_meta(j) {
                match (j, get(Some(j), "payload"@)) {
                    (Json::Object(top), Some(Json::Object(pes))) => {
                        if as_str(member(pes, "model_provider"@)) != Some(provider) {
                            let pes2 = set_member(pes, "model_provider"@, Json::Str(provider));
                            let top2 = set_member(top, "payload"@, Json::Object(pes2));
                            lemma_member_set_same(pes, "model_provider"@, Json::Str(provider));
                            lemma_member_set_same(top, "payload"@, Json::Object(pes2));
                            assert("type"@ != "payload"@) by {
                                assert(("type"@).len() != ("payload"@).len());
                            }
                            lemma_member_set_other(top, "payload"@, Json::Object(pes2), "type"@);
                            assert(is_session_meta(Json::Object(top2)));
                        }
                    },
                    _ => {},
                }
            }
        },
    }
}

/// Once rewritten for `provider`, a session metadata line whose payload is an object
/// names that provider.
pub proof fn lemma_rewrite_names_provider(text: Seq<char>, j: Json, provider: Seq<char>)
    requires
        is_session_meta(j),
        get(Some(j), "payload"@) matches Some(Json::Object(_)),
    ensures
        spec_rewrite_line(text, Some(j), provider).0 matches LineView::Write(w) && (get(
            Some(w),
            "payload"@,
        ) matches Some(Json::Object(p)) && as_str(member(p, "model_provider"@)) == Some(provider)),
{
    match (j, get(Some(j), "payload"@)) {
        (Json::Object(top), Some(Json::Object(pes))) => {
            if as_str(member(pes, "model_provider"@)) != Some(provider) {
                let pes2 = set_member(pes, "model_provider"@, Json::Str(provider));
                lemma_member_set_same(pes, "model_provider"@, Json::Str(provider));
                lemma_member_set_same(top, "payload"@, Json::Object(pes2));
            }
        },
        _ => {},
    }
}

/// Reading on past text without a line break only extends the line being read.
proof fn lemma_scan_lines_extend(p: Seq<char>, t: Seq<char>)
    requires
        !t.contains('\n'),
    ensures
        crate::text::scan_lines(p + t) == (
            crate::text::scan_lines(p).0,
            crate::text::scan_lines(p).1 + t,
        ),
    decreases t.len(),
{
    if t.len() == 0 {
        assert(p + t =~= p);
        assert(crate::text::scan_lines(p).1 + t =~= crate::text::scan_lines(p).1);
    } else {
        let q = t.drop_last();
        assert(!q.contains('\n')) by {
            if q.contains('\n') {
                let i = choose|i: int| 0 <= i < q.len() && q[i] == '\n';
                assert(t[i] == '\n');
            }
        }
        lemma_scan_lines_extend(p, q);
        assert((p + t).drop_last() =~= p + q);
        assert((p + t).last() == t.last());
        assert(t[t.len() - 1] != '\n');
        assert(crate::text::scan_lines(p).1 + t =~= (crate::text::scan_lines(p).1 + q).push(
            t.last(),
        ));
    }
}

/// Lines written back, joined with `\n` and ended with `\n`, read again as the same
/// lines, where none holds `\n` or ends with `\r`.
proof fn lemma_lines_read_back(ls: Seq<Seq<char>>)
    requires
        ls.len() > 0,
        forall|i: int|
            0 <= i < ls.len() ==> !(#[trigger] ls[i]).contains('\n') && !(ls[i].len() > 0
                && ls[i].last() == '\r'),
    ensures
        crate::text::scan_lines(crate::bridge::join_lines(ls) + seq!['\n']) == (
            ls,
            Seq::<char>::empty(),
        ),
    decreases ls.len(),
{
    let e = Seq::<char>::empty();
    let last = ls.last();
    assert(ls[ls.len() - 1] == last);
    if ls.len() == 1 {
        assert(crate::bridge::join_lines(ls) == ls[0]);
        lemma_scan_lines_extend(e, last);
        assert(e + last =~= last);
        assert((last + seq!['\n']).drop_last() =~= last);
        assert(crate::text::strip_cr(last) == last);
        assert(ls =~= seq![last]);
    } else {
        let dl = ls.drop_last();
        assert forall|i: int| 0 <= i < dl.len() implies !(#[trigger] dl[i]).contains('\n') && !(
        dl[i].len() > 0 && dl[i].last() == '\r') by {
            assert(dl[i] == ls[i]);
        }
        lemma_lines_read_back(dl);
        let x = crate::bridge::join_lines(dl) + seq!['\n'];
        lemma_scan_lines_extend(x, last);
        assert(crate::bridge::join_lines(ls) + seq!['\n'] =~= (x + last) + seq!['\n']);
        assert(((x + last) + seq!['\n']).drop_last() =~= x + last);
        assert(e + last =~= last);
        assert(crate::text::strip_cr(last) == last);
        assert(dl.push(last) =~= ls);
    }
}

/// Moving a thread file onto a provider a second time gives back the same text and
/// reports no change, where serde_json reads back each value written from the text it
/// wrote for it and reads no value from an empty line, and where no line written back
/// holds `\n` or ends with `\r` (such a line would be read again without it).
pub proof fn lemma_replace_provider_settles(content: Seq<char>, provider: Seq<char>)
    requires
        crate::json::json_parsed(Seq::empty()) is None,
        forall|i: int|
            0 <= i < content_inputs(content).len() ==> (spec_rewrite_line(
                #[trigger] content_inputs(content)[i].0,
                content_inputs(content)[i].1,
                provider,
            ).0 matches LineView::Write(w) ==> crate::json::json_parsed(
                crate::json::json_written(w),
            ) == Some(w)),
        forall|i: int|
            0 <= i < content_inputs(content).len() ==> {
                let t = #[trigger] rewritten_lines(content_inputs(content), provider)[i];
                !t.contains('\n') && !(t.len() > 0 && t.last() == '\r')
            },
    ensures
        ({
            let c1 = spec_replace_provider(content, provider).0;
            spec_replace_provider(c1, provider) == (c1, false)
        }),
{
    let inputs = content_inputs(content);
    let texts = rewritten_lines(inputs, provider);
    let c1 = spec_replace_provider(content, provider).0;
    assert(c1 == crate::bridge::join_lines(texts) + seq!['\n']);
    let lines2 = crate::text::text_lines(c1);
    let inputs2 = content_inputs(c1);
    if texts.len() == 0 {
        assert(crate::bridge::join_lines(texts) == Seq::<char>::empty());
        assert(c1 =~= seq!['\n']);
        let e = Seq::<char>::empty();
        assert(c1.drop_last() =~= e);
        assert(crate::text::scan_lines(e) == (Seq::<Seq<char>>::empty(), e));
        assert(crate::text::strip_cr(e) == e);
        assert(lines2 =~= seq![e]);
        assert(inputs2 =~= seq![(e, None::<Json>)]);
        let texts2 = rewritten_lines(inputs2, provider);
        assert(texts2 =~= seq![e]);
        assert(crate::bridge::join_lines(texts2) == e);
        assert(!any_changed(inputs2, provider));
    } else {
        lemma_lines_read_back(texts);
        assert(lines2 == texts);
        let texts2 = rewritten_lines(inputs2, provider);
        assert forall|i: int| 0 <= i < texts.len() implies #[trigger] spec_rewrite_line(
            inputs2[i].0,
            inputs2[i].1,
            provider,
        ) == (spec_rewrite_line(inputs[i].0, inputs[i].1, provider).0, false) by {
            let ls = crate::text::text_lines(content);
            assert(inputs[i] == (ls[i], crate::json::json_parsed(ls[i])));
            lemma_rewrite_settles(inputs[i].0, inputs[i].1, provider, texts[i]);
            assert(inputs2[i] == (texts[i], crate::json::json_parsed(texts[i])));
            match spec_rewrite_line(inputs[i].0, inputs[i].1, provider).0 {
                LineView::Keep(t) => {
                    assert(texts[i] == t);
                },
                LineView::Write(w) => {
                    assert(texts[i] == crate::json::json_written(w));
                },
            }
        }
        assert(texts2 =~= texts);
        assert(!any_changed(inputs2, provider));
    }
}

} // verus!
