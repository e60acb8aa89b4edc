//! Tallying the token usage of Codex session logs by day and by provider.
use vstd::prelude::*;
use vstd::hash_set::StringHashSet;
use crate::json::{as_str, get, json_as_str, json_get, view_opt, Json, JsonValue};
use crate::text::{opt_text, str_eq, str_less, text_less};
use crate::usage::{
    delta_fits, estimate_usage_cost, model_from_info, model_from_value, normalize_fits, or_opt,
    payload, rfc3339_local_date, spec_model_from_info, spec_model_from_value, spec_normalized,
    spec_saturating_delta, spec_timestamp_date, spec_usage_cost, spec_usage_event_key,
    spec_usage_from_value, timestamp_date, usage_event_key, usage_from_value, TokenUsage,
};

verus! {

// ---------------------------------------------------------------------------
// Data
// ---------------------------------------------------------------------------

/// One line of a session log: its parsed JSON (nothing where the line does not parse) and
/// the local calendar date of its timestamp, where that parses as RFC 3339.
#[derive(Debug)]
pub struct UsageLine {
    pub value: Option<JsonValue>,
    pub local_date: Option<String>,
}

pub struct LineView {
    pub value: Option<Json>,
    pub local_date: Option<Seq<char>>,
}

impl View for UsageLine {
    type V = LineView;

    open spec fn view(&self) -> LineView {
        LineView {
            value: match self.value {
                Some(v) => Some(v@),
                None => None,
            },
            local_date: opt_text(self.local_date),
        }
    }
}

/// Token usage of one day.
#[derive(Debug)]
pub struct DailyUsage {
    pub date: String,
    pub input_tokens: i64,
    pub cached_input_tokens: i64,
    pub output_tokens: i64,
    pub reasoning_output_tokens: i64,
    pub total_tokens: i64,
    pub cost_nano_usd: u128,
    pub events: usize,
}

/// Token usage of one provider.
#[derive(Debug)]
pub struct ProviderUsage {
    pub provider: String,
    pub input_tokens: i64,
    pub cached_input_tokens: i64,
    pub output_tokens: i64,
    pub reasoning_output_tokens: i64,
    pub total_tokens: i64,
    pub cost_nano_usd: u128,
    pub events: usize,
}

/// What the session logs hold, day by day (newest first) and provider by provider
/// (most tokens first).
#[derive(Debug)]
pub struct UsageSummary {
    pub codex_dir: String,
    pub days: Vec<DailyUsage>,
    pub providers: Vec<ProviderUsage>,
    pub total: TokenUsage,
    pub total_cost_nano_usd: u128,
    pub files_scanned: usize,
    pub usage_events: usize,
}

/// The counts of a bucket, as mathematical integers.
pub struct Tally {
    pub key: Seq<char>,
    pub input: int,
    pub cached: int,
    pub output: int,
    pub reasoning: int,
    pub total: int,
    pub cost: int,
    pub events: int,
}

pub open spec fn day_tally(d: DailyUsage) -> Tally {
    Tally {
        key: d.date@,
        input: d.input_tokens as int,
        cached: d.cached_input_tokens as int,
        output: d.output_tokens as int,
        reasoning: d.reasoning_output_tokens as int,
        total: d.total_tokens as int,
        cost: d.cost_nano_usd as int,
        events: d.events as int,
    }
}

pub open spec fn provider_tally(p: ProviderUsage) -> Tally {
    Tally {
        key: p.provider@,
        input: p.input_tokens as int,
        cached: p.cached_input_tokens as int,
        output: p.output_tokens as int,
        reasoning: p.reasoning_output_tokens as int,
        total: p.total_tokens as int,
        cost: p.cost_nano_usd as int,
        events: p.events as int,
    }
}

pub open spec fn empty_tally(key: Seq<char>) -> Tally {
    Tally { key, input: 0, cached: 0, output: 0, reasoning: 0, total: 0, cost: 0, events: 0 }
}

/// `t` with one more event of `d` tokens costing `cost`.
pub open spec fn tally_add(t: Tally, d: TokenUsage, cost: int) -> Tally {
    Tally {
        key: t.key,
        input: t.input + d.input_tokens,
        cached: t.cached + d.cached_input_tokens,
        output: t.output + d.output_tokens,
        reasoning: t.reasoning + d.reasoning_output_tokens,
        total: t.total + d.total_tokens,
        cost: t.cost + cost,
        events: t.events + 1,
    }
}

/// Every count of `t` fits the type that holds it.
pub open spec fn tally_fits(t: Tally) -> bool {
    &&& i64::MIN <= t.input <= i64::MAX
    &&& i64::MIN <= t.cached <= i64::MAX
    &&& i64::MIN <= t.output <= i64::MAX
    &&& i64::MIN <= t.reasoning <= i64::MAX
    &&& i64::MIN <= t.total <= i64::MAX
    &&& 0 <= t.cost <= u128::MAX
    &&& 0 <= t.events <= usize::MAX
}

/// The index at which `key` belongs in a list sorted by key.
pub open spec fn lower_bound(s: Seq<Tally>, key: Seq<char>) -> int
    decreases s.len(),
{
    if s.len() == 0 || !text_less(s[0].key, key) {
        0
    } else {
        1 + lower_bound(s.drop_first(), key)
    }
}

/// Counts one event into the bucket named `key`, created in key order where missing.
pub open spec fn upsert(s: Seq<Tally>, key: Seq<char>, d: TokenUsage, cost: int) -> Seq<Tally> {
    let i = lower_bound(s, key);
    if i < s.len() && s[i].key == key {
        s.update(i, tally_add(s[i], d, cost))
    } else {
        s.insert(i, tally_add(empty_tally(key), d, cost))
    }
}

// ---------------------------------------------------------------------------
// The log model
// ---------------------------------------------------------------------------

/// What is carried from line to line within one log file.
pub struct FileState {
    pub provider: Seq<char>,
    pub model: Option<Seq<char>>,
    pub prev: Option<TokenUsage>,
}

pub open spec fn initial_file_state() -> FileState {
    FileState { provider: "unknown"@, model: None, prev: None }
}

/// A counted usage event.
pub struct Event {
    pub key: Seq<char>,
    /// The line's `timestamp` (empty where it has none).
    pub time: Seq<char>,
    /// The model the usage is priced for.
    pub model: Seq<char>,
    pub date: Seq<char>,
    pub provider: Seq<char>,
    pub delta: TokenUsage,
    pub cost: int,
}

/// What has been counted so far.
pub struct Totals {
    pub days: Seq<Tally>,
    pub providers: Seq<Tally>,
    pub total: Tally,
    pub events: int,
    pub seen: Set<Seq<char>>,
}

pub open spec fn initial_totals() -> Totals {
    Totals {
        days: Seq::empty(),
        providers: Seq::empty(),
        total: empty_tally(Seq::empty()),
        events: 0,
        seen: Set::empty(),
    }
}

/// The increment that a `token_count` line reports: its `last_token_usage`, or else the
/// growth of its `total_token_usage` over the file's previous total.
pub open spec fn raw_delta(info: Option<Json>, prev: Option<TokenUsage>) -> Option<TokenUsage> {
    let last = spec_usage_from_value(get(info, "last_token_usage"@));
    let cur = spec_usage_from_value(get(info, "total_token_usage"@));
    match last {
        Some(x) => Some(x),
        None => match cur {
            Some(c) => Some(
                match prev {
                    Some(p) => spec_saturating_delta(c, p),
                    None => c,
                },
            ),
            None => None,
        },
    }
}

pub open spec fn is_token_count(v: Option<Json>) -> bool {
    as_str(get(payload(v), "type"@)) == Some("token_count"@)
}

pub open spec fn all_nonpositive(d: TokenUsage) -> bool {
    d.input_tokens <= 0 && d.cached_input_tokens <= 0 && d.output_tokens <= 0
        && d.reasoning_output_tokens <= 0
}

/// How one line moves the file state, and the event it reports, if any.
pub open spec fn line_step(fs: FileState, l: LineView) -> (FileState, Option<Event>) {
    match l.value {
        None => (fs, None),
        Some(v) => {
            let vo = Some(v);
            let p = payload(vo);
            let provider = match as_str(get(p, "model_provider"@)) {
                Some(s) => s,
                None => fs.provider,
            };
            let model = or_opt(spec_model_from_value(vo), fs.model);
            let fs1 = FileState { provider, model, prev: fs.prev };
            if !is_token_count(vo) {
                (fs1, None)
            } else {
                let info = get(p, "info"@);
                let cur = spec_usage_from_value(get(info, "total_token_usage"@));
                match raw_delta(info, fs.prev) {
                    None => (fs1, None),
                    Some(d0) => {
                        let fs2 = FileState { provider, model, prev: or_opt(cur, fs.prev) };
                        let delta = spec_normalized(d0);
                        if all_nonpositive(delta) {
                            (fs2, None)
                        } else {
                            let date = match spec_timestamp_date(vo, l.local_date) {
                                Some(d) => d,
                                None => "unknown"@,
                            };
                            let m = match or_opt(
                                match info {
                                    Some(_) => spec_model_from_info(info),
                                    None => None,
                                },
                                model,
                            ) {
                                Some(m) => m,
                                None => "gpt-5"@,
                            };
                            let ts = match as_str(get(vo, "timestamp"@)) {
                                Some(t) => t,
                                None => Seq::empty(),
                            };
                            (
                                fs2,
                                Some(
                                    Event {
                                        key: spec_usage_event_key(ts, m, delta),
                                        time: ts,
                                        model: m,
                                        date,
                                        provider,
                                        delta,
                                        cost: spec_usage_cost(m, delta),
                                    },
                                ),
                            )
                        }
                    },
                }
            }
        },
    }
}

/// The arithmetic of one line stays within `i64`.
pub open spec fn line_ok(fs: FileState, l: LineView) -> bool {
    match l.value {
        None => true,
        Some(v) => {
            let vo = Some(v);
            let info = get(payload(vo), "info"@);
            let last = spec_usage_from_value(get(info, "last_token_usage"@));
            let cur = spec_usage_from_value(get(info, "total_token_usage"@));
            &&& (is_token_count(vo) && last is None && cur is Some && fs.prev is Some) ==> delta_fits(
                cur.unwrap(),
                fs.prev.unwrap(),
            )
            &&& (is_token_count(vo) && raw_delta(info, fs.prev) is Some) ==> normalize_fits(
                raw_delta(info, fs.prev).unwrap(),
            )
        },
    }
}

/// Counts an event unless an event with the same key was counted before.
pub open spec fn add_event(t: Totals, e: Event) -> Totals {
    if t.seen.contains(e.key) {
        t
    } else {
        Totals {
            days: upsert(t.days, e.date, e.delta, e.cost),
            providers: upsert(t.providers, e.provider, e.delta, e.cost),
            total: tally_add(t.total, e.delta, e.cost),
            events: t.events + 1,
            seen: t.seen.insert(e.key),
        }
    }
}

pub open spec fn step(s: (Totals, FileState), l: LineView) -> (Totals, FileState) {
    let (fs, e) = line_step(s.1, l);
    (
        match e {
            Some(e) => add_event(s.0, e),
            None => s.0,
        },
        fs,
    )
}

pub open spec fn totals_fit(t: Totals) -> bool {
    &&& forall|i: int| 0 <= i < t.days.len() ==> tally_fits(#[trigger] t.days[i])
    &&& forall|i: int| 0 <= i < t.providers.len() ==> tally_fits(#[trigger] t.providers[i])
    &&& tally_fits(t.total)
    &&& 0 <= t.events <= usize::MAX
}

pub open spec fn step_ok(s: (Totals, FileState), l: LineView) -> bool {
    line_ok(s.1, l) && totals_fit(step(s, l).0)
}

pub open spec fn run_lines(s: (Totals, FileState), lines: Seq<LineView>) -> (Totals, FileState)
    decreases lines.len(),
{
    if lines.len() == 0 {
        s
    } else {
        step(run_lines(s, lines.drop_last()), lines.last())
    }
}

pub open spec fn lines_ok(s: (Totals, FileState), lines: Seq<LineView>) -> bool
    decreases lines.len(),
{
    lines.len() == 0 || (lines_ok(s, lines.drop_last()) && step_ok(
        run_lines(s, lines.drop_last()),
        lines.last(),
    ))
}

/// What the logs of `files` add up to, each file read from its first line.
pub open spec fn run_files(files: Seq<Seq<LineView>>) -> Totals
    decreases files.len(),
{
    if files.len() == 0 {
        initial_totals()
    } else {
        run_lines((run_files(files.drop_last()), initial_file_state()), files.last()).0
    }
}

/// No count overflows the type that holds it while the logs of `files` are read.
pub open spec fn files_ok(files: Seq<Seq<LineView>>) -> bool
    decreases files.len(),
{
    files.len() == 0 || (files_ok(files.drop_last()) && lines_ok(
        (run_files(files.drop_last()), initial_file_state()),
        files.last(),
    ))
}

/// The index before which `sorted` holds the buckets of at least `x`'s total tokens.
pub open spec fn total_position(sorted: Seq<Tally>, x: Tally) -> int
    decreases sorted.len(),
{
    if sorted.len() == 0 || sorted[0].total < x.total {
        0
    } else {
        1 + total_position(sorted.drop_first(), x)
    }
}

/// The buckets ordered by total tokens, most first, those with equal totals kept in their
/// order: a stable sort.
pub open spec fn sort_by_total(s: Seq<Tally>) -> Seq<Tally>
    decreases s.len(),
{
    if s.len() == 0 {
        s
    } else {
        let sorted = sort_by_total(s.drop_last());
        sorted.insert(total_position(sorted, s.last()), s.last())
    }
}

pub open spec fn views_of_lines(files: Seq<Vec<UsageLine>>) -> Seq<Seq<LineView>> {
    files.map_values(|f: Vec<UsageLine>| f@.map_values(|l: UsageLine| l@))
}

// ---------------------------------------------------------------------------
// Execution
// ---------------------------------------------------------------------------

struct Bucket {
    key: String,
    input_tokens: i64,
    cached_input_tokens: i64,
    output_tokens: i64,
    reasoning_output_tokens: i64,
    total_tokens: i64,
    cost_nano_usd: u128,
    events: usize,
}

spec fn bucket_tally(b: Bucket) -> Tally {
    Tally {
        key: b.key@,
        input: b.input_tokens as int,
        cached: b.cached_input_tokens as int,
        output: b.output_tokens as int,
        reasoning: b.reasoning_output_tokens as int,
        total: b.total_tokens as int,
        cost: b.cost_nano_usd as int,
        events: b.events as int,
    }
}

spec fn bucket_tallies(v: Seq<Bucket>) -> Seq<Tally> {
    v.map_values(|b: Bucket| bucket_tally(b))
}

struct Accumulator {
    days: Vec<Bucket>,
    providers: Vec<Bucket>,
    total: TokenUsage,
    total_cost: u128,
    events: usize,
    seen: StringHashSet,
}

pub open spec fn usage_tally(u: TokenUsage, cost: int, events: int) -> Tally {
    Tally {
        key: Seq::empty(),
        input: u.input_tokens as int,
        cached: u.cached_input_tokens as int,
        output: u.output_tokens as int,
        reasoning: u.reasoning_output_tokens as int,
        total: u.total_tokens as int,
        cost,
        events,
    }
}

spec fn acc_totals(a: Accumulator) -> Totals {
    Totals {
        days: bucket_tallies(a.days@),
        providers: bucket_tallies(a.providers@),
        total: usage_tally(a.total, a.total_cost as int, a.events as int),
        events: a.events as int,
        seen: a.seen@,
    }
}

struct Cursor {
    provider: String,
    model: Option<String>,
    prev: Option<TokenUsage>,
}

spec fn cursor_state(c: Cursor) -> FileState {
    FileState { provider: c.provider@, model: opt_text(c.model), prev: c.prev }
}

proof fn lemma_lower_bound_range(s: Seq<Tally>, key: Seq<char>)
    ensures
        0 <= lower_bound(s, key) <= s.len(),
    decreases s.len(),
{
    if s.len() > 0 && text_less(s[0].key, key) {
        lemma_lower_bound_range(s.drop_first(), key);
    }
}

/// Every bucket of `s` fits its types.
pub open spec fn all_fit(s: Seq<Tally>) -> bool {
    forall|i: int| 0 <= i < s.len() ==> tally_fits(#[trigger] s[i])
}

proof fn lemma_upsert_fits(s: Seq<Tally>, key: Seq<char>, d: TokenUsage, cost: int)
    requires
        all_fit(s),
    ensures
        0 <= lower_bound(s, key) < upsert(s, key, d, cost).len(),
        all_fit(upsert(s, key, d, cost)) == tally_fits(
            upsert(s, key, d, cost)[lower_bound(s, key)],
        ),
{
    lemma_lower_bound_range(s, key);
    let i = lower_bound(s, key);
    let r = upsert(s, key, d, cost);
    if tally_fits(r[i]) {
        assert forall|k: int| 0 <= k < r.len() implies tally_fits(#[trigger] r[k]) by {
            if i < s.len() && s[i].key == key {
                if k != i {
                    assert(r[k] == s[k]);
                }
            } else {
                if k < i {
                    assert(r[k] == s[k]);
                } else if k > i {
                    assert(r[k] == s[k - 1]);
                }
            }
        }
    }
}

/// Counts one event into the buckets, unless a count would overflow; then it returns
/// false and leaves the buckets as they were.
fn upsert_bucket(buckets: &mut Vec<Bucket>, key: &String, d: &TokenUsage, cost: u128) -> (res: bool)
    ensures
        0 <= lower_bound(bucket_tallies(old(buckets)@), key@) < upsert(
            bucket_tallies(old(buckets)@),
            key@,
            *d,
            cost as int,
        ).len(),
        res == tally_fits(
            upsert(bucket_tallies(old(buckets)@), key@, *d, cost as int)[lower_bound(
                bucket_tallies(old(buckets)@),
                key@,
            )],
        ),
        res ==> bucket_tallies(final(buckets)@) == upsert(
            bucket_tallies(old(buckets)@),
            key@,
            *d,
            cost as int,
        ),
        !res ==> final(buckets)@ == old(buckets)@,
{
    let ghost s = bucket_tallies(buckets@);
    proof {
        lemma_lower_bound_range(s, key@);
    }
    let mut i: usize = 0;
    assert(s.skip(0) =~= s);
    while i < buckets.len() && str_less(buckets[i].key.as_str(), key.as_str())
        invariant
            i <= buckets.len(),
            s == bucket_tallies(buckets@),
            lower_bound(s, key@) == i + lower_bound(s.skip(i as int), key@),
        decreases buckets.len() - i,
    {
        assert(s.skip(i as int).drop_first() =~= s.skip(i + 1));
        assert(s.skip(i as int)[0] == s[i as int]);
        i += 1;
    }
    proof {
        if i < buckets.len() {
            assert(s.skip(i as int)[0] == s[i as int]);
        }
    }
    assert(lower_bound(s, key@) == i);
    let found = i < buckets.len() && str_eq(buckets[i].key.as_str(), key.as_str());
    let (bi, bc, bo, br, bt, bcost, be) = if found {
        let b = &buckets[i];
        (
            b.input_tokens,
            b.cached_input_tokens,
            b.output_tokens,
            b.reasoning_output_tokens,
            b.total_tokens,
            b.cost_nano_usd,
            b.events,
        )
    } else {
        (0i64, 0i64, 0i64, 0i64, 0i64, 0u128, 0usize)
    };
    let ni = bi.checked_add(d.input_tokens);
    let nc = bc.checked_add(d.cached_input_tokens);
    let no = bo.checked_add(d.output_tokens);
    let nr = br.checked_add(d.reasoning_output_tokens);
    let nt = bt.checked_add(d.total_tokens);
    let ncost = bcost.checked_add(cost);
    let ne = be.checked_add(1);
    match (ni, nc, no, nr, nt, ncost, ne) {
        (Some(ni), Some(nc), Some(no), Some(nr), Some(nt), Some(ncost), Some(ne)) => {
            let nb = Bucket {
                key: key.clone(),
                input_tokens: ni,
                cached_input_tokens: nc,
                output_tokens: no,
                reasoning_output_tokens: nr,
                total_tokens: nt,
                cost_nano_usd: ncost,
                events: ne,
            };
            if found {
                buckets.set(i, nb);
            } else {
                buckets.insert(i, nb);
            }
            assert(bucket_tallies(buckets@) =~= upsert(s, key@, *d, cost as int));
            true
        },
        _ => false,
    }
}

/// Reads one line of a log file into the accumulator. It returns false, and the state is
/// then of no further use, where a count would overflow.
#[verifier::spinoff_prover]
#[verifier::rlimit(40)]
fn apply_line(acc: &mut Accumulator, cur: &mut Cursor, line: &UsageLine) -> (res: bool)
    requires
        totals_fit(acc_totals(*old(acc))),
    ensures
        res == step_ok((acc_totals(*old(acc)), cursor_state(*old(cur))), line@),
        res ==> (acc_totals(*final(acc)), cursor_state(*final(cur))) == step(
            (acc_totals(*old(acc)), cursor_state(*old(cur))),
            line@,
        ),
{
    let ghost pre = (acc_totals(*acc), cursor_state(*cur));
    let ghost post = step(pre, line@).0;
    let v = match &line.value {
        None => {
            return true;
        },
        Some(v) => v,
    };
    let vo = Some(v);
    let p = json_get(vo, "payload");
    if let Some(s) = json_as_str(json_get(p, "model_provider")) {
        cur.provider = s.clone();
    }
    if let Some(m) = model_from_value(vo) {
        cur.model = Some(m);
    }
    let is_count = match json_as_str(json_get(p, "type")) {
        Some(t) => str_eq(t.as_str(), "token_count"),
        None => false,
    };
    if !is_count {
        return true;
    }
    let info = json_get(p, "info");
    let last = usage_from_value(json_get(info, "last_token_usage"));
    let current = usage_from_value(json_get(info, "total_token_usage"));
    let d0 = match last {
        Some(x) => x,
        None => match current {
            Some(c) => match cur.prev {
                Some(pv) => {
                    let ok = c.input_tokens.checked_sub(pv.input_tokens).is_some()
                        && c.cached_input_tokens.checked_sub(pv.cached_input_tokens).is_some()
                        && c.output_tokens.checked_sub(pv.output_tokens).is_some()
                        && c.reasoning_output_tokens.checked_sub(
                        pv.reasoning_output_tokens,
                    ).is_some() && c.total_tokens.checked_sub(pv.total_tokens).is_some();
                    if !ok {
                        return false;
                    }
                    c.saturating_delta(&pv)
                },
                None => c,
            },
            None => {
                return true;
            },
        },
    };
    if d0.total_tokens <= 0 {
        let ok = match d0.input_tokens.checked_add(d0.output_tokens) {
            Some(x) => x.checked_add(d0.reasoning_output_tokens).is_some(),
            None => false,
        };
        if !ok {
            return false;
        }
    }
    if let Some(c) = current {
        cur.prev = Some(c);
    }
    let delta = d0.normalized();
    if delta.input_tokens <= 0 && delta.cached_input_tokens <= 0 && delta.output_tokens <= 0
        && delta.reasoning_output_tokens <= 0 {
        return true;
    }
    let date = match timestamp_date(vo, line.local_date.clone()) {
        Some(d) => d,
        None => "unknown".to_string(),
    };
    let from_info = if info.is_some() {
        model_from_info(info)
    } else {
        None
    };
    let model = match from_info {
        Some(m) => m,
        None => match &cur.model {
            Some(m) => m.clone(),
            None => "gpt-5".to_string(),
        },
    };
    let ts = json_as_str(json_get(vo, "timestamp"));
    let key = match ts {
        Some(t) => usage_event_key(Some(t.as_str()), model.as_str(), &delta),
        None => usage_event_key(None, model.as_str(), &delta),
    };
    if acc.seen.contains(key.as_str()) {
        return true;
    }
    let cost = estimate_usage_cost(model.as_str(), &delta);
    let ghost ds = bucket_tallies(acc.days@);
    let ghost ps = bucket_tallies(acc.providers@);
    proof {
        assert(post.days == upsert(ds, date@, delta, cost as int));
        assert(post.providers == upsert(ps, cur.provider@, delta, cost as int));
        lemma_upsert_fits(ds, date@, delta, cost as int);
        lemma_upsert_fits(ps, cur.provider@, delta, cost as int);
    }
    let t = acc.total;
    let total_ok = t.input_tokens.checked_add(delta.input_tokens).is_some()
        && t.cached_input_tokens.checked_add(delta.cached_input_tokens).is_some()
        && t.output_tokens.checked_add(delta.output_tokens).is_some()
        && t.reasoning_output_tokens.checked_add(delta.reasoning_output_tokens).is_some()
        && t.total_tokens.checked_add(delta.total_tokens).is_some()
        && acc.total_cost.checked_add(cost).is_some() && acc.events.checked_add(1).is_some();
    if !total_ok {
        return false;
    }
    if !upsert_bucket(&mut acc.days, &date, &delta, cost) {
        return false;
    }
    let provider = cur.provider.clone();
    if !upsert_bucket(&mut acc.providers, &provider, &delta, cost) {
        return false;
    }
    acc.seen.insert(key);
    acc.events = acc.events + 1;
    acc.total.add(&delta);
    acc.total_cost = acc.total_cost + cost;
    true
}

proof fn lemma_lines_ok_prefix(s: (Totals, FileState), lines: Seq<LineView>, k: int)
    requires
        lines_ok(s, lines),
        0 <= k <= lines.len(),
    ensures
        lines_ok(s, lines.take(k)),
    decreases lines.len() - k,
{
    if k < lines.len() {
        assert(lines.drop_last() =~= lines.take(lines.len() - 1));
        lemma_lines_ok_prefix(s, lines.drop_last(), k);
        assert(lines.drop_last().take(k) =~= lines.take(k));
    } else {
        assert(lines.take(k) =~= lines);
    }
}

proof fn lemma_files_ok_prefix(files: Seq<Seq<LineView>>, k: int)
    requires
        files_ok(files),
        0 <= k <= files.len(),
    ensures
        files_ok(files.take(k)),
    decreases files.len() - k,
{
    if k < files.len() {
        lemma_files_ok_prefix(files.drop_last(), k);
        assert(files.drop_last().take(k) =~= files.take(k));
    } else {
        assert(files.take(k) =~= files);
    }
}

/// The counts of a bucket as a day's row.
fn day_row(b: &Bucket) -> (res: DailyUsage)
    ensures
        day_tally(res) == bucket_tally(*b),
{
    DailyUsage {
        date: b.key.clone(),
        input_tokens: b.input_tokens,
        cached_input_tokens: b.cached_input_tokens,
        output_tokens: b.output_tokens,
        reasoning_output_tokens: b.reasoning_output_tokens,
        total_tokens: b.total_tokens,
        cost_nano_usd: b.cost_nano_usd,
        events: b.events,
    }
}

/// The counts of a bucket as a provider's row.
fn provider_row(b: &Bucket) -> (res: ProviderUsage)
    ensures
        provider_tally(res) == bucket_tally(*b),
{
    ProviderUsage {
        provider: b.key.clone(),
        input_tokens: b.input_tokens,
        cached_input_tokens: b.cached_input_tokens,
        output_tokens: b.output_tokens,
        reasoning_output_tokens: b.reasoning_output_tokens,
        total_tokens: b.total_tokens,
        cost_nano_usd: b.cost_nano_usd,
        events: b.events,
    }
}

fn copy_bucket(b: &Bucket) -> (res: Bucket)
    ensures
        bucket_tally(res) == bucket_tally(*b),
{
    Bucket {
        key: b.key.clone(),
        input_tokens: b.input_tokens,
        cached_input_tokens: b.cached_input_tokens,
        output_tokens: b.output_tokens,
        reasoning_output_tokens: b.reasoning_output_tokens,
        total_tokens: b.total_tokens,
        cost_nano_usd: b.cost_nano_usd,
        events: b.events,
    }
}

/// The day rows, newest date first.
fn day_rows(buckets: &Vec<Bucket>) -> (res: Vec<DailyUsage>)
    ensures
        res@.map_values(|d: DailyUsage| day_tally(d)) == bucket_tallies(buckets@).reverse(),
{
    let mut res: Vec<DailyUsage> = Vec::new();
    let n = buckets.len();
    let mut i: usize = n;
    while i > 0
        invariant
            i <= n == buckets.len(),
            res@.map_values(|d: DailyUsage| day_tally(d)) == bucket_tallies(buckets@).subrange(
                i as int,
                n as int,
            ).reverse(),
        decreases i,
    {
        i -= 1;
        let row = day_row(&buckets[i]);
        let ghost prev = res@;
        res.push(row);
        proof {
            let m = res@.map_values(|d: DailyUsage| day_tally(d));
            let bt = bucket_tallies(buckets@);
            let target = bt.subrange(i as int, n as int).reverse();
            let before = bt.subrange(i + 1, n as int).reverse();
            assert(res@ == prev.push(row));
            assert(prev.map_values(|d: DailyUsage| day_tally(d)).len() == prev.len());
            assert(before.len() == n - i - 1);
            assert(target.len() == n - i);
            assert(m.len() == res@.len());
            assert(m.len() == target.len());
            assert forall|k: int| 0 <= k < m.len() implies m[k] == target[k] by {
                if k < prev.len() {
                    assert(res@[k] == prev[k]);
                    assert(prev.map_values(|d: DailyUsage| day_tally(d))[k] == before[k]);
                }
            }
            assert(m =~= target);
        }
    }
    assert(bucket_tallies(buckets@).subrange(0, n as int) =~= bucket_tallies(buckets@));
    res
}

/// The buckets ordered by total tokens, most first, ties kept in order.
fn sort_buckets_by_total(buckets: &Vec<Bucket>) -> (res: Vec<Bucket>)
    ensures
        bucket_tallies(res@) == sort_by_total(bucket_tallies(buckets@)),
{
    let ghost s = bucket_tallies(buckets@);
    let mut res: Vec<Bucket> = Vec::new();
    let mut i: usize = 0;
    assert(s.take(0) =~= Seq::<Tally>::empty());
    while i < buckets.len()
        invariant
            i <= buckets.len(),
            s == bucket_tallies(buckets@),
            bucket_tallies(res@) == sort_by_total(s.take(i as int)),
        decreases buckets.len() - i,
    {
        let ghost sorted = bucket_tallies(res@);
        let ghost x = s[i as int];
        let mut j: usize = 0;
        assert(sorted.skip(0) =~= sorted);
        while j < res.len() && res[j].total_tokens >= buckets[i].total_tokens
            invariant
                j <= res.len(),
                i < buckets.len(),
                sorted == bucket_tallies(res@),
                x == bucket_tally(buckets@[i as int]),
                total_position(sorted, x) == j + total_position(sorted.skip(j as int), x),
            decreases res.len() - j,
        {
            assert(sorted.skip(j as int).drop_first() =~= sorted.skip(j + 1));
            assert(sorted.skip(j as int)[0] == sorted[j as int]);
            j += 1;
        }
        proof {
            if j < res.len() {
                assert(sorted.skip(j as int)[0] == sorted[j as int]);
            }
        }
        let b = copy_bucket(&buckets[i]);
        res.insert(j, b);
        i += 1;
        proof {
            assert(s.take(i as int).drop_last() =~= s.take(i - 1));
            assert(s.take(i as int).last() == x);
            assert(bucket_tallies(res@) =~= sorted.insert(j as int, x));
        }
    }
    assert(s.take(i as int) =~= s);
    res
}

/// The rows of the providers, most tokens first.
fn provider_rows(buckets: &Vec<Bucket>) -> (res: Vec<ProviderUsage>)
    ensures
        res@.map_values(|p: ProviderUsage| provider_tally(p)) == sort_by_total(
            bucket_tallies(buckets@),
        ),
{
    let sorted = sort_buckets_by_total(buckets);
    let mut res: Vec<ProviderUsage> = Vec::new();
    let mut i: usize = 0;
    while i < sorted.len()
        invariant
            i <= sorted.len(),
            res@.map_values(|p: ProviderUsage| provider_tally(p)) == bucket_tallies(
                sorted@,
            ).take(i as int),
        decreases sorted.len() - i,
    {
        let row = provider_row(&sorted[i]);
        let ghost prev = res@;
        res.push(row);
        i += 1;
        proof {
            let m = res@.map_values(|p: ProviderUsage| provider_tally(p));
            let target = bucket_tallies(sorted@).take(i as int);
            assert(res@ == prev.push(row));
            assert(prev.map_values(|p: ProviderUsage| provider_tally(p)).len() == prev.len());
            assert(bucket_tallies(sorted@).take(i - 1).len() == i - 1);
            assert(target.len() == i);
            assert(m.len() == res@.len());
            assert(m.len() == target.len());
            assert forall|k: int| 0 <= k < m.len() implies m[k] == target[k] by {
                if k < prev.len() {
                    assert(res@[k] == prev[k]);
                    assert(prev.map_values(|p: ProviderUsage| provider_tally(p))[k] == bucket_tallies(
                        sorted@,
                    ).take(i - 1)[k]);
                }
            }
            assert(m =~= target);
        }
    }
    assert(bucket_tallies(sorted@).take(i as int) =~= bucket_tallies(sorted@));
    res
}

/// `res` is the summary of what `t` counted from `n` files under `codex_dir`.
pub open spec fn summary_of(res: UsageSummary, codex_dir: Seq<char>, t: Totals, n: int) -> bool {
    &&& res.codex_dir@ == codex_dir
    &&& res.days@.map_values(|d: DailyUsage| day_tally(d)) == t.days.reverse()
    &&& res.providers@.map_values(|p: ProviderUsage| provider_tally(p)) == sort_by_total(
        t.providers,
    )
    &&& usage_tally(res.total, res.total_cost_nano_usd as int, res.usage_events as int) == t.total
    &&& res.usage_events == t.events
    &&& res.files_scanned == n
}

/// Tallies the usage events of the session log files, each given line by line; nothing
/// where a count would overflow the type that holds it.
pub fn summarize_usage(codex_dir: &str, files: &Vec<Vec<UsageLine>>) -> (res: Option<UsageSummary>)
    ensures
        res is Some <==> files_ok(views_of_lines(files@)),
        res matches Some(r) ==> summary_of(
            r,
            codex_dir@,
            run_files(views_of_lines(files@)),
            files.len() as int,
        ),
{
    let ghost all = views_of_lines(files@);
    let mut acc = Accumulator {
        days: Vec::new(),
        providers: Vec::new(),
        total: TokenUsage::default(),
        total_cost: 0,
        events: 0,
        seen: StringHashSet::new(),
    };
    assert(acc_totals(acc).days =~= Seq::<Tally>::empty());
    assert(acc_totals(acc).providers =~= Seq::<Tally>::empty());
    assert(acc_totals(acc) == run_files(all.take(0)));
    let mut fi: usize = 0;
    while fi < files.len()
        invariant
            fi <= files.len(),
            all == views_of_lines(files@),
            files_ok(all.take(fi as int)),
            totals_fit(acc_totals(acc)),
            acc_totals(acc) == run_files(all.take(fi as int)),
        decreases files.len() - fi,
    {
        let lines = &files[fi];
        let ghost lv = all[fi as int];
        assert(lv == lines@.map_values(|l: UsageLine| l@));
        proof {
            assert(all.take(fi + 1).drop_last() =~= all.take(fi as int));
            assert(all.take(fi + 1).last() == lv);
        }
        let ghost start = acc_totals(acc);
        let mut cur = Cursor { provider: "unknown".to_string(), model: None, prev: None };
        assert(lv.take(0) =~= Seq::<LineView>::empty());
        let mut li: usize = 0;
        while li < lines.len()
            invariant
                li <= lines.len(),
                fi < files.len(),
                all == views_of_lines(files@),
                lv == all[fi as int],
                lv == lines@.map_values(|l: UsageLine| l@),
                files_ok(all.take(fi as int)),
                start == run_files(all.take(fi as int)),
                lines_ok((start, initial_file_state()), lv.take(li as int)),
                totals_fit(acc_totals(acc)),
                (acc_totals(acc), cursor_state(cur)) == run_lines(
                    (start, initial_file_state()),
                    lv.take(li as int),
                ),
            decreases lines.len() - li,
        {
            proof {
                assert(lv.take(li + 1).drop_last() =~= lv.take(li as int));
                assert(lv.take(li + 1).last() == lines@[li as int]@);
            }
            if !apply_line(&mut acc, &mut cur, &lines[li]) {
                proof {
                    if files_ok(all) {
                        lemma_files_ok_prefix(all, fi + 1);
                        assert(all.take(fi + 1).drop_last() =~= all.take(fi as int));
                        assert(all.take(fi + 1).last() == lv);
                        lemma_lines_ok_prefix((start, initial_file_state()), lv, li + 1);
                    }
                }
                return None;
            }
            li += 1;
        }
        assert(lv.take(li as int) =~= lv);
        fi += 1;
    }
    assert(all.take(fi as int) =~= all);
    let days = day_rows(&acc.days);
    let providers = provider_rows(&acc.providers);
    Some(UsageSummary {
        codex_dir: codex_dir.to_string(),
        days,
        providers,
        total: acc.total,
        total_cost_nano_usd: acc.total_cost,
        files_scanned: files.len(),
        usage_events: acc.events,
    })
}


/// The parsed lines of a log, given as values.
pub open spec fn line_values(lines: Seq<LineView>) -> Seq<Option<Json>> {
    lines.map_values(|l: LineView| l.value)
}

pub open spec fn json_values(v: Seq<Option<JsonValue>>) -> Seq<Option<Json>> {
    v.map_values(
        |x: Option<JsonValue>|
            match x {
                Some(j) => Some(j@),
                None => None,
            },
    )
}

/// A line has a local date exactly where it has a timestamp that parses as RFC 3339.
pub open spec fn dated_where_valid(l: LineView) -> bool {
    l.local_date is Some <==> match as_str(get(l.value, "timestamp"@)) {
        Some(t) => crate::usage::rfc3339_valid(t),
        None => false,
    }
}

/// Pairs each parsed line with the local date of its timestamp, where the line has a
/// timestamp that parses as RFC 3339.
pub fn attach_local_dates(values: &Vec<Option<JsonValue>>) -> (res: Vec<UsageLine>)
    ensures
        line_values(res@.map_values(|l: UsageLine| l@)) == json_values(values@),
        forall|i: int|
            0 <= i < res.len() ==> dated_where_valid(#[trigger] res@[i]@),
{
    let mut res: Vec<UsageLine> = Vec::new();
    let mut i: usize = 0;
    while i < values.len()
        invariant
            i <= values.len(),
            res.len() == i,
            forall|k: int|
                0 <= k < i ==> (#[trigger] res@[k])@.value == json_values(values@)[k],
            forall|k: int| 0 <= k < i ==> dated_where_valid(#[trigger] res@[k]@),
        decreases values.len() - i,
    {
        let value = match &values[i] {
            Some(v) => Some(v.clone()),
            None => None,
        };
        let local_date = match &value {
            Some(v) => match json_as_str(json_get(Some(v), "timestamp")) {
                Some(raw) => rfc3339_local_date(raw.as_str()),
                None => None,
            },
            None => None,
        };
        res.push(UsageLine { value, local_date });
        i += 1;
    }
    assert(line_values(res@.map_values(|l: UsageLine| l@)) =~= json_values(values@));
    res
}

/// The views of the files' lines.
pub open spec fn files_values(files: Seq<Vec<Option<JsonValue>>>) -> Seq<Seq<Option<Json>>> {
    files.map_values(|f: Vec<Option<JsonValue>>| json_values(f@))
}

/// The directory whose thread files the usage summary reads: `sessions` in the Codex
/// directory (the archived threads, in `archived_sessions`, are not read).
pub fn usage_log_dir(codex_dir: &str, windows: bool) -> (res: String)
    ensures
        res@ == crate::paths::path_join(codex_dir@, "sessions"@, windows),
{
    crate::paths::join_path(codex_dir, "sessions", windows)
}

/// The usage summary of the session logs under `codex_dir`. `found` is every path found
/// below the [`usage_log_dir`]; `contents` holds the text of each of those that names a
/// thread file (`rollout-*.jsonl`), in order. Each non-blank line is read as JSON; a line
/// gets a local date exactly where its timestamp parses as RFC 3339, the date that the
/// time-zone conversion gives; for those dates the result is the exact tally, or nothing
/// where a count would overflow. The files scanned are the thread files found.
pub fn get_usage_summary_impl(
    codex_dir: &str,
    found: &Vec<String>,
    windows: bool,
    contents: Vec<String>,
) -> (res: Option<UsageSummary>)
    requires
        contents.len() == crate::codex_threads::rollouts(
            crate::text::string_views(found@),
            windows,
        ).len(),
    ensures
        res matches Some(r) ==> r.files_scanned == crate::codex_threads::rollouts(
            crate::text::string_views(found@),
            windows,
        ).len(),
        exists|lines: Seq<Seq<LineView>>|
            {
                &&& lines.len() == contents.len()
                &&& forall|i: int|
                    0 <= i < lines.len() ==> line_values(#[trigger] lines[i]) == crate::webdav::parsed_lines(
                        contents@[i]@,
                    )
                &&& forall|i: int, j: int|
                    0 <= i < lines.len() && 0 <= j < lines[i].len() ==> dated_where_valid(
                        #[trigger] lines[i][j],
                    )
                &&& (res is Some <==> files_ok(lines))
                &&& (res matches Some(r) ==> summary_of(
                    r,
                    codex_dir@,
                    run_files(lines),
                    contents.len() as int,
                ))
            },
{
    let mut files: Vec<Vec<Option<JsonValue>>> = Vec::new();
    let mut i: usize = 0;
    while i < contents.len()
        invariant
            i <= contents.len(),
            files.len() == i,
            forall|k: int|
                0 <= k < i ==> #[trigger] files_values(files@)[k] == crate::webdav::parsed_lines(contents@[k]@),
        decreases contents.len() - i,
    {
        let values = crate::webdav::parse_jsonl(contents[i].as_str());
        let ghost before = files_values(files@);
        files.push(values);
        assert(files_values(files@) =~= before.push(crate::webdav::parsed_lines(contents@[i as int]@)));
        i += 1;
    }
    let res = summarize_parsed_logs(codex_dir, found, windows, files);
    proof {
        assert(files_values(files@) =~= contents@.map_values(|c: String| crate::webdav::parsed_lines(c@)));
    }
    res
}

/// The usage summary of the session logs under `codex_dir`, given the non-blank lines of
/// each thread file found below the [`usage_log_dir`] already read as JSON: as
/// [`get_usage_summary_impl`] states it.
pub fn summarize_parsed_logs(
    codex_dir: &str,
    found: &Vec<String>,
    windows: bool,
    files: Vec<Vec<Option<JsonValue>>>,
) -> (res: Option<UsageSummary>)
    requires
        files.len() == crate::codex_threads::rollouts(
            crate::text::string_views(found@),
            windows,
        ).len(),
    ensures
        res matches Some(r) ==> r.files_scanned == crate::codex_threads::rollouts(
            crate::text::string_views(found@),
            windows,
        ).len(),
        exists|lines: Seq<Seq<LineView>>|
            {
                &&& lines.len() == files.len()
                &&& forall|i: int|
                    0 <= i < lines.len() ==> line_values(#[trigger] lines[i]) == files_values(
                        files@,
                    )[i]
                &&& forall|i: int, j: int|
                    0 <= i < lines.len() && 0 <= j < lines[i].len() ==> dated_where_valid(
                        #[trigger] lines[i][j],
                    )
                &&& (res is Some <==> files_ok(lines))
                &&& (res matches Some(r) ==> summary_of(
                    r,
                    codex_dir@,
                    run_files(lines),
                    files.len() as int,
                ))
            },
{
    let mut dated: Vec<Vec<UsageLine>> = Vec::new();
    let n = files.len();
    let ghost orig = files_values(files@);
    let mut i: usize = 0;
    while i < n
        invariant
            i <= n == files.len(),
            orig == files_values(files@),
            dated.len() == i,
            forall|k: int|
                0 <= k < i ==> line_values((#[trigger] dated@[k])@.map_values(|l: UsageLine| l@))
                    == orig[k],
            forall|k: int, j: int|
                0 <= k < i && 0 <= j < dated@[k].len() ==> dated_where_valid(
                    #[trigger] dated@[k]@[j]@,
                ),
        decreases n - i,
    {
        let lines = attach_local_dates(&files[i]);
        dated.push(lines);
        i += 1;
    }
    let res = summarize_usage(codex_dir, &dated);
    proof {
        let lines = views_of_lines(dated@);
        assert(forall|k: int| 0 <= k < lines.len() ==> line_values(#[trigger] lines[k]) == orig[k]);
        assert forall|k: int, j: int| 0 <= k < lines.len() && 0 <= j < lines[k].len() implies dated_where_valid(
            #[trigger] lines[k][j],
        ) by {
            assert(lines[k][j] == dated@[k]@[j]@);
        }
    }
    res
}

// ---------------------------------------------------------------------------
// What holds across calls
// ---------------------------------------------------------------------------

/// The counts of two buckets added up.
pub open spec fn tally_plus(a: Tally, b: Tally) -> Tally {
    Tally {
        key: Seq::empty(),
        input: a.input + b.input,
        cached: a.cached + b.cached,
        output: a.output + b.output,
        reasoning: a.reasoning + b.reasoning,
        total: a.total + b.total,
        cost: a.cost + b.cost,
        events: a.events + b.events,
    }
}

/// The counts of all buckets of `s` added up.
pub open spec fn tally_sum(s: Seq<Tally>) -> Tally
    decreases s.len(),
{
    if s.len() == 0 {
        empty_tally(Seq::empty())
    } else {
        tally_plus(tally_sum(s.drop_last()), s.last())
    }
}

/// Two buckets hold the same counts, whatever their names.
pub open spec fn same_counts(a: Tally, b: Tally) -> bool {
    &&& a.input == b.input
    &&& a.cached == b.cached
    &&& a.output == b.output
    &&& a.reasoning == b.reasoning
    &&& a.total == b.total
    &&& a.cost == b.cost
    &&& a.events == b.events
}

/// Keys strictly ascending.
pub open spec fn keys_ascending(s: Seq<Tally>) -> bool {
    forall|i: int, j: int| 0 <= i < j < s.len() ==> text_less(s[i].key, s[j].key)
}

/// Keys strictly descending.
pub open spec fn keys_descending(s: Seq<Tally>) -> bool {
    forall|i: int, j: int| 0 <= i < j < s.len() ==> text_less(s[j].key, s[i].key)
}

/// Total tokens never increasing.
pub open spec fn totals_descending(s: Seq<Tally>) -> bool {
    forall|i: int, j: int| 0 <= i < j < s.len() ==> s[i].total >= s[j].total
}

proof fn lemma_sum_insert(s: Seq<Tally>, i: int, x: Tally)
    requires
        0 <= i <= s.len(),
    ensures
        same_counts(tally_sum(s.insert(i, x)), tally_plus(tally_sum(s), x)),
    decreases s.len(),
{
    if i == s.len() {
        assert(s.insert(i, x).drop_last() =~= s);
    } else {
        let t = s.insert(i, x);
        assert(t.drop_last() =~= s.drop_last().insert(i, x));
        assert(t.last() == s.last());
        lemma_sum_insert(s.drop_last(), i, x);
    }
}

proof fn lemma_sum_update(s: Seq<Tally>, i: int, y: Tally)
    requires
        0 <= i < s.len(),
    ensures
        same_counts(
            tally_plus(tally_sum(s.update(i, y)), s[i]),
            tally_plus(tally_sum(s), y),
        ),
    decreases s.len(),
{
    let t = s.update(i, y);
    if i == s.len() - 1 {
        assert(t.drop_last() =~= s.drop_last());
    } else {
        assert(t.drop_last() =~= s.drop_last().update(i, y));
        assert(t.last() == s.last());
        lemma_sum_update(s.drop_last(), i, y);
    }
}

proof fn lemma_sum_prepend(x: Tally, s: Seq<Tally>)
    ensures
        same_counts(tally_sum(seq![x] + s), tally_plus(tally_sum(s), x)),
    decreases s.len(),
{
    if s.len() == 0 {
        assert((seq![x] + s).drop_last() =~= Seq::<Tally>::empty());
        assert((seq![x] + s).last() == x);
        assert(tally_sum(Seq::<Tally>::empty()) == empty_tally(Seq::empty()));
    } else {
        assert((seq![x] + s).drop_last() =~= seq![x] + s.drop_last());
        assert((seq![x] + s).last() == s.last());
        lemma_sum_prepend(x, s.drop_last());
    }
}

proof fn lemma_sum_reverse(s: Seq<Tally>)
    ensures
        same_counts(tally_sum(s.reverse()), tally_sum(s)),
    decreases s.len(),
{
    if s.len() > 0 {
        assert(s.reverse() =~= seq![s.last()] + s.drop_last().reverse());
        lemma_sum_reverse(s.drop_last());
        lemma_sum_prepend(s.last(), s.drop_last().reverse());
    }
}

proof fn lemma_total_position_range(sorted: Seq<Tally>, x: Tally)
    ensures
        0 <= total_position(sorted, x) <= sorted.len(),
        forall|k: int| 0 <= k < total_position(sorted, x) ==> sorted[k].total >= x.total,
        total_position(sorted, x) < sorted.len() ==> sorted[total_position(sorted, x)].total
            < x.total,
    decreases sorted.len(),
{
    if sorted.len() > 0 && sorted[0].total >= x.total {
        let t = sorted.drop_first();
        lemma_total_position_range(t, x);
        assert forall|k: int| 0 <= k < total_position(sorted, x) implies sorted[k].total
            >= x.total by {
            if k > 0 {
                assert(sorted[k] == t[k - 1]);
            }
        }
    }
}

proof fn lemma_sort_by_total(s: Seq<Tally>)
    ensures
        totals_descending(sort_by_total(s)),
        same_counts(tally_sum(sort_by_total(s)), tally_sum(s)),
        sort_by_total(s).len() == s.len(),
    decreases s.len(),
{
    if s.len() > 0 {
        let sorted = sort_by_total(s.drop_last());
        let x = s.last();
        lemma_sort_by_total(s.drop_last());
        lemma_total_position_range(sorted, x);
        let p = total_position(sorted, x);
        let r = sorted.insert(p, x);
        lemma_sum_insert(sorted, p, x);
        assert forall|i: int, j: int| 0 <= i < j < r.len() implies r[i].total >= r[j].total by {
            if j < p {
            } else if j == p {
                assert(sorted[i].total >= x.total);
            } else if i < p {
                assert(r[j] == sorted[j - 1]);
            } else if i == p {
                assert(r[j] == sorted[j - 1]);
                assert(sorted[p].total < x.total);
                assert(sorted[p].total >= sorted[j - 1].total || j - 1 == p);
            } else {
                assert(r[i] == sorted[i - 1]);
                assert(r[j] == sorted[j - 1]);
            }
        }
    }
}

proof fn lemma_lower_bound_props(s: Seq<Tally>, key: Seq<char>)
    requires
        keys_ascending(s),
    ensures
        0 <= lower_bound(s, key) <= s.len(),
        forall|k: int| 0 <= k < lower_bound(s, key) ==> text_less(s[k].key, key),
        lower_bound(s, key) < s.len() ==> !text_less(s[lower_bound(s, key)].key, key),
    decreases s.len(),
{
    if s.len() > 0 && text_less(s[0].key, key) {
        let t = s.drop_first();
        assert(keys_ascending(t)) by {
            assert forall|i: int, j: int| 0 <= i < j < t.len() implies text_less(
                t[i].key,
                t[j].key,
            ) by {
                assert(t[i] == s[i + 1]);
                assert(t[j] == s[j + 1]);
            }
        }
        lemma_lower_bound_props(t, key);
        assert forall|k: int| 0 <= k < lower_bound(s, key) implies text_less(s[k].key, key) by {
            if k > 0 {
                assert(s[k] == t[k - 1]);
            }
        }
    }
}

proof fn lemma_upsert(s: Seq<Tally>, key: Seq<char>, d: TokenUsage, cost: int)
    requires
        keys_ascending(s),
    ensures
        keys_ascending(upsert(s, key, d, cost)),
        same_counts(tally_sum(upsert(s, key, d, cost)), tally_add(tally_sum(s), d, cost)),
{
    lemma_lower_bound_props(s, key);
    let i = lower_bound(s, key);
    let r = upsert(s, key, d, cost);
    if i < s.len() && s[i].key == key {
        lemma_sum_update(s, i, tally_add(s[i], d, cost));
        assert(keys_ascending(r)) by {
            assert forall|a: int, b: int| 0 <= a < b < r.len() implies text_less(
                r[a].key,
                r[b].key,
            ) by {
                assert(r[a].key == s[a].key);
                assert(r[b].key == s[b].key);
            }
        }
    } else {
        let x = tally_add(empty_tally(key), d, cost);
        lemma_sum_insert(s, i, x);
        if i < s.len() {
            lemma_crate_text_total(s[i].key, key);
        }
        assert(keys_ascending(r)) by {
            assert forall|a: int, b: int| 0 <= a < b < r.len() implies text_less(
                r[a].key,
                r[b].key,
            ) by {
                if b < i {
                } else if b == i {
                    assert(text_less(s[a].key, key));
                } else if a < i {
                    assert(r[b] == s[b - 1]);
                    assert(text_less(s[a].key, key));
                    if b - 1 > i {
                        assert(text_less(s[i].key, s[b - 1].key));
                        lemma_crate_text_transitive(key, s[i].key, s[b - 1].key);
                    }
                    lemma_crate_text_transitive(s[a].key, key, s[b - 1].key);
                } else if a == i {
                    assert(r[b] == s[b - 1]);
                    if b - 1 > i {
                        assert(text_less(s[i].key, s[b - 1].key));
                        lemma_crate_text_transitive(key, s[i].key, s[b - 1].key);
                    }
                } else {
                    assert(r[a] == s[a - 1]);
                    assert(r[b] == s[b - 1]);
                }
            }
        }
    }
}

proof fn lemma_crate_text_total(a: Seq<char>, b: Seq<char>)
    ensures
        a == b || text_less(a, b) || text_less(b, a),
{
    crate::text::lemma_text_less_total(a, b);
}

proof fn lemma_crate_text_transitive(a: Seq<char>, b: Seq<char>, c: Seq<char>)
    ensures
        text_less(a, b) && text_less(b, c) ==> text_less(a, c),
{
    crate::text::lemma_text_less_transitive(a, b, c);
}

/// What every count of the tally keeps: the day buckets and the provider buckets each
/// add up to the overall total, and both stay in key order.
pub open spec fn totals_consistent(t: Totals) -> bool {
    &&& keys_ascending(t.days)
    &&& keys_ascending(t.providers)
    &&& same_counts(tally_sum(t.days), t.total)
    &&& same_counts(tally_sum(t.providers), t.total)
    &&& t.events == t.total.events
}

proof fn lemma_add_event(t: Totals, e: Event)
    requires
        totals_consistent(t),
    ensures
        totals_consistent(add_event(t, e)),
{
    if !t.seen.contains(e.key) {
        lemma_upsert(t.days, e.date, e.delta, e.cost);
        lemma_upsert(t.providers, e.provider, e.delta, e.cost);
    }
}

proof fn lemma_run_lines_consistent(s: (Totals, FileState), lines: Seq<LineView>)
    requires
        totals_consistent(s.0),
    ensures
        totals_consistent(run_lines(s, lines).0),
    decreases lines.len(),
{
    if lines.len() > 0 {
        lemma_run_lines_consistent(s, lines.drop_last());
        let r = run_lines(s, lines.drop_last());
        let (fs, e) = line_step(r.1, lines.last());
        if let Some(ev) = e {
            lemma_add_event(r.0, ev);
        }
    }
}

/// Whatever the logs hold, the tally by day and the tally by provider each add up
/// to the overall total, and both are kept in key order.
pub proof fn lemma_run_files_consistent(files: Seq<Seq<LineView>>)
    ensures
        totals_consistent(run_files(files)),
    decreases files.len(),
{
    if files.len() == 0 {
        assert(tally_sum(Seq::<Tally>::empty()) == empty_tally(Seq::empty()));
    } else {
        lemma_run_files_consistent(files.drop_last());
        lemma_run_lines_consistent(
            (run_files(files.drop_last()), initial_file_state()),
            files.last(),
        );
    }
}

/// In a usage summary the day rows and the provider rows each add up to the overall
/// total (tokens of every kind, cost and event count); the days come newest first with no
/// date twice, and the providers come with the most tokens first.
pub proof fn lemma_summary_rows_add_up(
    res: UsageSummary,
    codex_dir: Seq<char>,
    files: Seq<Seq<LineView>>,
    n: int,
)
    requires
        summary_of(res, codex_dir, run_files(files), n),
    ensures
        same_counts(
            tally_sum(res.days@.map_values(|d: DailyUsage| day_tally(d))),
            usage_tally(res.total, res.total_cost_nano_usd as int, res.usage_events as int),
        ),
        same_counts(
            tally_sum(res.providers@.map_values(|p: ProviderUsage| provider_tally(p))),
            usage_tally(res.total, res.total_cost_nano_usd as int, res.usage_events as int),
        ),
        keys_descending(res.days@.map_values(|d: DailyUsage| day_tally(d))),
        totals_descending(res.providers@.map_values(|p: ProviderUsage| provider_tally(p))),
{
    let t = run_files(files);
    lemma_run_files_consistent(files);
    lemma_sum_reverse(t.days);
    lemma_sort_by_total(t.providers);
    let days = res.days@.map_values(|d: DailyUsage| day_tally(d));
    assert(days == t.days.reverse());
    assert forall|i: int, j: int| 0 <= i < j < days.len() implies text_less(
        days[j].key,
        days[i].key,
    ) by {
        let m = t.days.len();
        assert(days[i] == t.days[m - 1 - i]);
        assert(days[j] == t.days[m - 1 - j]);
    }
}

/// The file state after the lines, read from `fs`.
pub open spec fn file_state_after(fs: FileState, lines: Seq<LineView>) -> FileState
    decreases lines.len(),
{
    if lines.len() == 0 {
        fs
    } else {
        line_step(file_state_after(fs, lines.drop_last()), lines.last()).0
    }
}

/// The keys of the usage events that the lines report, read from `fs`.
pub open spec fn event_keys(fs: FileState, lines: Seq<LineView>) -> Set<Seq<char>>
    decreases lines.len(),
{
    if lines.len() == 0 {
        Set::empty()
    } else {
        match line_step(file_state_after(fs, lines.drop_last()), lines.last()).1 {
            Some(e) => event_keys(fs, lines.drop_last()).insert(e.key),
            None => event_keys(fs, lines.drop_last()),
        }
    }
}

/// Reading lines moves the file state as the lines alone say, and adds the keys of their
/// events to those counted.
proof fn lemma_run_lines_keys(s: (Totals, FileState), lines: Seq<LineView>)
    ensures
        run_lines(s, lines).1 == file_state_after(s.1, lines),
        run_lines(s, lines).0.seen == s.0.seen.union(event_keys(s.1, lines)),
    decreases lines.len(),
{
    if lines.len() > 0 {
        lemma_run_lines_keys(s, lines.drop_last());
        let before = run_lines(s, lines.drop_last());
        match line_step(before.1, lines.last()).1 {
            Some(e) => {
                assert(add_event(before.0, e).seen =~= before.0.seen.insert(e.key));
                assert(s.0.seen.union(event_keys(s.1, lines)) =~= s.0.seen.union(
                    event_keys(s.1, lines.drop_last()),
                ).insert(e.key));
            },
            None => {},
        }
    }
}

/// Lines whose events were all counted before change nothing that is counted.
proof fn lemma_run_lines_counted(s: (Totals, FileState), lines: Seq<LineView>)
    requires
        event_keys(s.1, lines).subset_of(s.0.seen),
    ensures
        run_lines(s, lines).0 == s.0,
    decreases lines.len(),
{
    if lines.len() > 0 {
        let before_keys = event_keys(s.1, lines.drop_last());
        assert(before_keys.subset_of(event_keys(s.1, lines)));
        lemma_run_lines_counted(s, lines.drop_last());
        lemma_run_lines_keys(s, lines.drop_last());
    }
}

/// What was counted stays counted as more files are read.
proof fn lemma_seen_grows(a: Seq<Seq<LineView>>, m: Seq<Seq<LineView>>)
    ensures
        run_files(a).seen.subset_of(run_files(a + m).seen),
    decreases m.len(),
{
    if m.len() == 0 {
        assert(a + m =~= a);
    } else {
        lemma_seen_grows(a, m.drop_last());
        assert((a + m).drop_last() =~= a + m.drop_last());
        assert((a + m).last() == m.last());
        lemma_run_lines_keys((run_files(a + m.drop_last()), initial_file_state()), m.last());
    }
}

/// A log file read again, after any other files, adds nothing to the summary: every
/// usage event it reports was counted the first time.
pub proof fn lemma_file_read_again_counts_nothing(
    a: Seq<Seq<LineView>>,
    f: Seq<LineView>,
    m: Seq<Seq<LineView>>,
)
    ensures
        run_files((a.push(f) + m).push(f)) == run_files(a.push(f) + m),
{
    let first = a.push(f);
    assert(first.drop_last() =~= a);
    lemma_run_lines_keys((run_files(a), initial_file_state()), f);
    lemma_seen_grows(first, m);
    let later = first + m;
    assert(later.push(f).drop_last() =~= later);
    lemma_run_lines_counted((run_files(later), initial_file_state()), f);
}

/// Files read after two readings that counted the same add the same to both.
proof fn lemma_same_counts_stay_same(x: Seq<Seq<LineView>>, y: Seq<Seq<LineView>>, m: Seq<Seq<LineView>>)
    requires
        run_files(x) == run_files(y),
    ensures
        run_files(x + m) == run_files(y + m),
    decreases m.len(),
{
    if m.len() == 0 {
        assert(x + m =~= x);
        assert(y + m =~= y);
    } else {
        lemma_same_counts_stay_same(x, y, m.drop_last());
        assert((x + m).drop_last() =~= x + m.drop_last());
        assert((y + m).drop_last() =~= y + m.drop_last());
        assert((x + m).last() == m.last());
        assert((y + m).last() == m.last());
    }
}

/// A usage event repeated at the end of a log file is counted once: where the last line
/// of `f` reports an event whose key (its time, model and usage) was counted before,
/// by an earlier file or an earlier line of `f`, the summary of all the files is the
/// one without that line.
pub proof fn lemma_repeated_event_counts_once(
    a: Seq<Seq<LineView>>,
    f: Seq<LineView>,
    m: Seq<Seq<LineView>>,
)
    requires
        f.len() > 0,
        line_step(file_state_after(initial_file_state(), f.drop_last()), f.last()).1 matches Some(
            e,
        ) && (run_files(a).seen.contains(e.key) || event_keys(
            initial_file_state(),
            f.drop_last(),
        ).contains(e.key)),
    ensures
        run_files(a.push(f) + m) == run_files(a.push(f.drop_last()) + m),
{
    let x = a.push(f);
    let y = a.push(f.drop_last());
    assert(x.drop_last() =~= a);
    assert(y.drop_last() =~= a);
    let s0 = (run_files(a), initial_file_state());
    lemma_run_lines_keys(s0, f.drop_last());
    assert(run_files(x) == run_files(y));
    lemma_same_counts_stay_same(x, y, m);
}

/// The same holds of the summaries given for the two readings: where a summary is given
/// for the files with the repeated line and one for the files without it, from the same
/// directory and the same number of files, they hold the same totals, the same event
/// count, and the same days and providers with the same sums.
pub proof fn lemma_repeated_event_same_summary(
    a: Seq<Seq<LineView>>,
    f: Seq<LineView>,
    m: Seq<Seq<LineView>>,
    with: UsageSummary,
    without: UsageSummary,
    codex_dir: Seq<char>,
    n: int,
)
    requires
        f.len() > 0,
        line_step(file_state_after(initial_file_state(), f.drop_last()), f.last()).1 matches Some(
            e,
        ) && (run_files(a).seen.contains(e.key) || event_keys(
            initial_file_state(),
            f.drop_last(),
        ).contains(e.key)),
        summary_of(with, codex_dir, run_files(a.push(f) + m), n),
        summary_of(without, codex_dir, run_files(a.push(f.drop_last()) + m), n),
    ensures
        usage_tally(with.total, with.total_cost_nano_usd as int, with.usage_events as int)
            == usage_tally(
            without.total,
            without.total_cost_nano_usd as int,
            without.usage_events as int,
        ),
        with.usage_events == without.usage_events,
        with.days@.map_values(|d: DailyUsage| day_tally(d)) == without.days@.map_values(
            |d: DailyUsage| day_tally(d),
        ),
        with.providers@.map_values(|p: ProviderUsage| provider_tally(p))
            == without.providers@.map_values(|p: ProviderUsage| provider_tally(p)),
{
    lemma_repeated_event_counts_once(a, f, m);
}

/// The usage events that the lines report, read from `fs`.
pub open spec fn reported_events(fs: FileState, lines: Seq<LineView>) -> Set<Event>
    decreases lines.len(),
{
    if lines.len() == 0 {
        Set::empty()
    } else {
        match line_step(file_state_after(fs, lines.drop_last()), lines.last()).1 {
            Some(e) => reported_events(fs, lines.drop_last()).insert(e),
            None => reported_events(fs, lines.drop_last()),
        }
    }
}

/// An event's key is made of its time, model and usage, and a reported event's key is
/// among the keys the lines report.
proof fn lemma_reported_event_key(fs: FileState, lines: Seq<LineView>, e: Event)
    requires
        reported_events(fs, lines).contains(e),
    ensures
        e.key == spec_usage_event_key(e.time, e.model, e.delta),
        event_keys(fs, lines).contains(e.key),
    decreases lines.len(),
{
    if lines.len() > 0 {
        match line_step(file_state_after(fs, lines.drop_last()), lines.last()).1 {
            Some(x) => {
                if x != e {
                    lemma_reported_event_key(fs, lines.drop_last(), e);
                }
            },
            None => {
                lemma_reported_event_key(fs, lines.drop_last(), e);
            },
        }
    }
}

/// What every file read reports is counted.
proof fn lemma_file_keys_counted(a: Seq<Seq<LineView>>, k: int)
    requires
        0 <= k < a.len(),
    ensures
        event_keys(initial_file_state(), a[k]).subset_of(run_files(a).seen),
{
    let first = a.take(k + 1);
    assert(first.drop_last() =~= a.take(k));
    assert(first.last() == a[k]);
    lemma_run_lines_keys((run_files(a.take(k)), initial_file_state()), a[k]);
    lemma_seen_grows(first, a.skip(k + 1));
    assert(first + a.skip(k + 1) =~= a);
}

/// A usage event repeated at the end of a log file is counted once: where the last line
/// of `f` reports an event with the same timestamp, model and usage as an event that an
/// earlier line of `f`, or a line of an earlier file, reported, the summary of all the
/// files is the one without that line.
pub proof fn lemma_same_time_model_usage_counts_once(
    a: Seq<Seq<LineView>>,
    f: Seq<LineView>,
    m: Seq<Seq<LineView>>,
    earlier: Event,
)
    requires
        f.len() > 0,
        reported_events(initial_file_state(), f.drop_last()).contains(earlier) || exists|k: int|
            0 <= k < a.len() && #[trigger] reported_events(initial_file_state(), a[k]).contains(
                earlier,
            ),
        line_step(file_state_after(initial_file_state(), f.drop_last()), f.last()).1 matches Some(
            e,
        ) && e.time == earlier.time && e.model == earlier.model && e.delta == earlier.delta,
    ensures
        run_files(a.push(f) + m) == run_files(a.push(f.drop_last()) + m),
{
    let e = line_step(file_state_after(initial_file_state(), f.drop_last()), f.last()).1.unwrap();
    assert(e.key == spec_usage_event_key(e.time, e.model, e.delta));
    if reported_events(initial_file_state(), f.drop_last()).contains(earlier) {
        lemma_reported_event_key(initial_file_state(), f.drop_last(), earlier);
    } else {
        let k = choose|k: int|
            0 <= k < a.len() && #[trigger] reported_events(initial_file_state(), a[k]).contains(
                earlier,
            );
        lemma_reported_event_key(initial_file_state(), a[k], earlier);
        lemma_file_keys_counted(a, k);
    }
    lemma_repeated_event_counts_once(a, f, m);
}

} // verus!
