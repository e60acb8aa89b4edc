//! Token usage read from Codex session logs: per-event deltas, model pricing, event keys
//! and the daily and per-provider tallies.
use vstd::prelude::*;
use crate::json::{
    as_i64, as_str, get, json_as_i64, json_as_str, json_get, view_opt, Json, JsonValue,
};
use crate::text::{
    ascii_lower, ascii_lower_chars, append_str, chars_of, chars_starts_with, int_text,
    opt_text, push_int, starts_with, string_of, trim, trim_chars,
};

verus! {

/// Token counts of one usage event or of a running total.
#[derive(Clone, Copy, Debug)]
pub struct TokenUsage {
    pub input_tokens: i64,
    pub cached_input_tokens: i64,
    pub output_tokens: i64,
    pub reasoning_output_tokens: i64,
    pub total_tokens: i64,
}

pub open spec fn zero_usage() -> TokenUsage {
    TokenUsage {
        input_tokens: 0,
        cached_input_tokens: 0,
        output_tokens: 0,
        reasoning_output_tokens: 0,
        total_tokens: 0,
    }
}

impl Default for TokenUsage {
    fn default() -> (res: Self)
        ensures
            res == zero_usage(),
    {
        TokenUsage {
            input_tokens: 0,
            cached_input_tokens: 0,
            output_tokens: 0,
            reasoning_output_tokens: 0,
            total_tokens: 0,
        }
    }
}

pub open spec fn fits_i64(x: int) -> bool {
    i64::MIN <= x <= i64::MAX
}

pub open spec fn max0(x: int) -> int {
    if x > 0 {
        x
    } else {
        0
    }
}

/// Every field of `a + b` fits in `i64`.
pub open spec fn add_fits(a: TokenUsage, b: TokenUsage) -> bool {
    &&& fits_i64(a.input_tokens + b.input_tokens)
    &&& fits_i64(a.cached_input_tokens + b.cached_input_tokens)
    &&& fits_i64(a.output_tokens + b.output_tokens)
    &&& fits_i64(a.reasoning_output_tokens + b.reasoning_output_tokens)
    &&& fits_i64(a.total_tokens + b.total_tokens)
}

/// Every field of `a - b` fits in `i64`.
pub open spec fn delta_fits(a: TokenUsage, b: TokenUsage) -> bool {
    &&& fits_i64(a.input_tokens - b.input_tokens)
    &&& fits_i64(a.cached_input_tokens - b.cached_input_tokens)
    &&& fits_i64(a.output_tokens - b.output_tokens)
    &&& fits_i64(a.reasoning_output_tokens - b.reasoning_output_tokens)
    &&& fits_i64(a.total_tokens - b.total_tokens)
}

/// The sums computed while normalizing fit in `i64`.
pub open spec fn normalize_fits(u: TokenUsage) -> bool {
    u.total_tokens > 0 || (fits_i64(u.input_tokens + u.output_tokens) && fits_i64(
        u.input_tokens + u.output_tokens + u.reasoning_output_tokens,
    ))
}

pub open spec fn spec_saturating_delta(a: TokenUsage, b: TokenUsage) -> TokenUsage {
    TokenUsage {
        input_tokens: max0(a.input_tokens - b.input_tokens) as i64,
        cached_input_tokens: max0(a.cached_input_tokens - b.cached_input_tokens) as i64,
        output_tokens: max0(a.output_tokens - b.output_tokens) as i64,
        reasoning_output_tokens: max0(a.reasoning_output_tokens - b.reasoning_output_tokens) as i64,
        total_tokens: max0(a.total_tokens - b.total_tokens) as i64,
    }
}

pub open spec fn spec_normalized(u: TokenUsage) -> TokenUsage {
    let cached = if u.cached_input_tokens < u.input_tokens {
        u.cached_input_tokens
    } else {
        u.input_tokens
    };
    let total = if u.total_tokens > 0 {
        u.total_tokens as int
    } else {
        u.input_tokens + u.output_tokens + u.reasoning_output_tokens
    };
    TokenUsage {
        input_tokens: max0(u.input_tokens as int) as i64,
        cached_input_tokens: max0(cached as int) as i64,
        output_tokens: max0(u.output_tokens as int) as i64,
        reasoning_output_tokens: max0(u.reasoning_output_tokens as int) as i64,
        total_tokens: max0(total) as i64,
    }
}

/// No field is negative.
pub open spec fn nonnegative(u: TokenUsage) -> bool {
    u.input_tokens >= 0 && u.cached_input_tokens >= 0 && u.output_tokens >= 0
        && u.reasoning_output_tokens >= 0 && u.total_tokens >= 0
}

fn max0_i64(x: i64) -> (res: i64)
    ensures
        res == max0(x as int),
{
    if x > 0 {
        x
    } else {
        0
    }
}

impl TokenUsage {
    /// Adds `other` to `self`, field by field.
    pub fn add(&mut self, other: &TokenUsage)
        requires
            add_fits(*old(self), *other),
        ensures
            final(self).input_tokens == old(self).input_tokens + other.input_tokens,
            final(self).cached_input_tokens == old(self).cached_input_tokens
                + other.cached_input_tokens,
            final(self).output_tokens == old(self).output_tokens + other.output_tokens,
            final(self).reasoning_output_tokens == old(self).reasoning_output_tokens
                + other.reasoning_output_tokens,
            final(self).total_tokens == old(self).total_tokens + other.total_tokens,
    {
        self.input_tokens = self.input_tokens + other.input_tokens;
        self.cached_input_tokens = self.cached_input_tokens + other.cached_input_tokens;
        self.output_tokens = self.output_tokens + other.output_tokens;
        self.reasoning_output_tokens = self.reasoning_output_tokens
            + other.reasoning_output_tokens;
        self.total_tokens = self.total_tokens + other.total_tokens;
    }

    /// How much each count grew since `previous`, never below zero.
    pub fn saturating_delta(&self, previous: &TokenUsage) -> (res: TokenUsage)
        requires
            delta_fits(*self, *previous),
        ensures
            res == spec_saturating_delta(*self, *previous),
            nonnegative(res),
    {
        TokenUsage {
            input_tokens: max0_i64(self.input_tokens - previous.input_tokens),
            cached_input_tokens: max0_i64(self.cached_input_tokens - previous.cached_input_tokens),
            output_tokens: max0_i64(self.output_tokens - previous.output_tokens),
            reasoning_output_tokens: max0_i64(
                self.reasoning_output_tokens - previous.reasoning_output_tokens,
            ),
            total_tokens: max0_i64(self.total_tokens - previous.total_tokens),
        }
    }

    /// The counts clamped at zero, cached input capped at input, and a missing total
    /// rebuilt from input, output and reasoning output.
    pub fn normalized(&self) -> (res: TokenUsage)
        requires
            normalize_fits(*self),
        ensures
            res == spec_normalized(*self),
            nonnegative(res),
            res.cached_input_tokens <= res.input_tokens,
    {
        let cached = if self.cached_input_tokens < self.input_tokens {
            self.cached_input_tokens
        } else {
            self.input_tokens
        };
        let total = if self.total_tokens > 0 {
            self.total_tokens
        } else {
            self.input_tokens + self.output_tokens + self.reasoning_output_tokens
        };
        TokenUsage {
            input_tokens: max0_i64(self.input_tokens),
            cached_input_tokens: max0_i64(cached),
            output_tokens: max0_i64(self.output_tokens),
            reasoning_output_tokens: max0_i64(self.reasoning_output_tokens),
            total_tokens: max0_i64(total),
        }
    }
}

// ---------------------------------------------------------------------------
// Reading usage events
// ---------------------------------------------------------------------------

pub open spec fn or_opt<T>(a: Option<T>, b: Option<T>) -> Option<T> {
    match a {
        Some(x) => Some(x),
        None => b,
    }
}

pub open spec fn count_of(v: Option<Json>, key: Seq<char>) -> i64 {
    match as_i64(get(v, key)) {
        Some(n) => n,
        None => 0,
    }
}

/// The token counts that a usage object holds; a missing or non-integer count reads as 0,
/// and `cache_read_input_tokens` stands in for a missing `cached_input_tokens`.
pub open spec fn spec_usage_from_value(v: Option<Json>) -> Option<TokenUsage> {
    match v {
        None => None,
        Some(_) => Some(
            TokenUsage {
                input_tokens: count_of(v, "input_tokens"@),
                cached_input_tokens: match as_i64(
                    or_opt(get(v, "cached_input_tokens"@), get(v, "cache_read_input_tokens"@)),
                ) {
                    Some(n) => n,
                    None => 0,
                },
                output_tokens: count_of(v, "output_tokens"@),
                reasoning_output_tokens: count_of(v, "reasoning_output_tokens"@),
                total_tokens: count_of(v, "total_tokens"@),
            },
        ),
    }
}

fn count_field(v: Option<&JsonValue>, key: &str) -> (res: i64)
    ensures
        res == count_of(view_opt(v), key@),
{
    match json_as_i64(json_get(v, key)) {
        Some(n) => n,
        None => 0,
    }
}

/// The token counts that a usage object holds.
pub fn usage_from_value(value: Option<&JsonValue>) -> (res: Option<TokenUsage>)
    ensures
        res == spec_usage_from_value(view_opt(value)),
{
    if value.is_none() {
        return None;
    }
    let cached_item = match json_get(value, "cached_input_tokens") {
        Some(x) => Some(x),
        None => json_get(value, "cache_read_input_tokens"),
    };
    let cached = match json_as_i64(cached_item) {
        Some(n) => n,
        None => 0,
    };
    Some(
        TokenUsage {
            input_tokens: count_field(value, "input_tokens"),
            cached_input_tokens: cached,
            output_tokens: count_field(value, "output_tokens"),
            reasoning_output_tokens: count_field(value, "reasoning_output_tokens"),
            total_tokens: count_field(value, "total_tokens"),
        },
    )
}

/// A string value with white space trimmed, when something is left.
pub open spec fn spec_value_string(v: Option<Json>) -> Option<Seq<char>> {
    match as_str(v) {
        Some(s) => if trim(s).len() > 0 {
            Some(trim(s))
        } else {
            None
        },
        None => None,
    }
}

/// A string value with white space trimmed, when something is left.
pub fn value_string(value: Option<&JsonValue>) -> (res: Option<String>)
    ensures
        match res {
            Some(s) => spec_value_string(view_opt(value)) == Some(s@),
            None => spec_value_string(view_opt(value)) is None,
        },
{
    match json_as_str(value) {
        Some(s) => {
            let cs = chars_of(s.as_str());
            let t = trim_chars(cs.as_slice());
            if t.len() > 0 {
                Some(string_of(t.as_slice()))
            } else {
                None
            }
        },
        None => None,
    }
}

/// The model named in an event's `info` object.
pub open spec fn spec_model_from_info(info: Option<Json>) -> Option<Seq<char>> {
    or_opt(
        spec_value_string(get(info, "model"@)),
        or_opt(
            spec_value_string(get(info, "model_name"@)),
            spec_value_string(get(get(info, "metadata"@), "model"@)),
        ),
    )
}

/// The model named in an event's `info` object.
pub fn model_from_info(info: Option<&JsonValue>) -> (res: Option<String>)
    ensures
        res matches Some(s) ==> spec_model_from_info(view_opt(info)) == Some(s@),
        res is None ==> spec_model_from_info(view_opt(info)) is None,
{
    if let Some(m) = value_string(json_get(info, "model")) {
        return Some(m);
    }
    if let Some(m) = value_string(json_get(info, "model_name")) {
        return Some(m);
    }
    value_string(json_get(json_get(info, "metadata"), "model"))
}

pub open spec fn payload(v: Option<Json>) -> Option<Json> {
    get(v, "payload"@)
}

/// The model that a log line names, looked for in `payload.info`, then in `payload.model`,
/// `payload.model_name` and `payload.metadata.model`.
pub open spec fn spec_model_from_value(v: Option<Json>) -> Option<Seq<char>> {
    let p = payload(v);
    let info = get(p, "info"@);
    or_opt(
        match info {
            Some(_) => spec_model_from_info(info),
            None => None,
        },
        or_opt(
            spec_value_string(get(p, "model"@)),
            or_opt(
                spec_value_string(get(p, "model_name"@)),
                spec_value_string(get(get(p, "metadata"@), "model"@)),
            ),
        ),
    )
}

/// The model that a log line names.
pub fn model_from_value(value: Option<&JsonValue>) -> (res: Option<String>)
    ensures
        res matches Some(s) ==> spec_model_from_value(view_opt(value)) == Some(s@),
        res is None ==> spec_model_from_value(view_opt(value)) is None,
{
    let p = json_get(value, "payload");
    let info = json_get(p, "info");
    if info.is_some() {
        if let Some(m) = model_from_info(info) {
            return Some(m);
        }
    }
    if let Some(m) = value_string(json_get(p, "model")) {
        return Some(m);
    }
    if let Some(m) = value_string(json_get(p, "model_name")) {
        return Some(m);
    }
    value_string(json_get(json_get(p, "metadata"), "model"))
}

// ---------------------------------------------------------------------------
// Event keys and dates
// ---------------------------------------------------------------------------

/// `timestamp|model|input|cached|output|reasoning|total`, the text by which repeated
/// usage events are recognised.
pub open spec fn spec_usage_event_key(ts: Seq<char>, model: Seq<char>, u: TokenUsage) -> Seq<
    char,
> {
    ts + seq!['|'] + model + seq!['|'] + int_text(u.input_tokens as int) + seq!['|'] + int_text(
        u.cached_input_tokens as int,
    ) + seq!['|'] + int_text(u.output_tokens as int) + seq!['|'] + int_text(
        u.reasoning_output_tokens as int,
    ) + seq!['|'] + int_text(u.total_tokens as int)
}

/// The key by which repeated usage events are recognised.
pub fn usage_event_key(timestamp: Option<&str>, model: &str, usage: &TokenUsage) -> (res: String)
    ensures
        res@ == spec_usage_event_key(
            match timestamp {
                Some(t) => t@,
                None => Seq::empty(),
            },
            model@,
            *usage,
        ),
{
    let mut out: Vec<char> = Vec::new();
    if let Some(t) = timestamp {
        append_str(&mut out, t);
    }
    out.push('|');
    append_str(&mut out, model);
    out.push('|');
    push_int(&mut out, usage.input_tokens);
    out.push('|');
    push_int(&mut out, usage.cached_input_tokens);
    out.push('|');
    push_int(&mut out, usage.output_tokens);
    out.push('|');
    push_int(&mut out, usage.reasoning_output_tokens);
    out.push('|');
    push_int(&mut out, usage.total_tokens);
    let ghost ts = match timestamp {
        Some(t) => t@,
        None => Seq::<char>::empty(),
    };
    assert(out@ =~= spec_usage_event_key(ts, model@, *usage));
    string_of(out.as_slice())
}

/// The number of bytes that `c` takes in UTF-8.
pub open spec fn utf8_width(c: char) -> int {
    if (c as u32) < 0x80 {
        1
    } else if (c as u32) < 0x800 {
        2
    } else if (c as u32) < 0x10000 {
        3
    } else {
        4
    }
}

/// The leading characters of `s` that take exactly `n` bytes in UTF-8, if `s` has a
/// character boundary there: what `str::get(0..n)` gives.
pub open spec fn byte_prefix(s: Seq<char>, n: int) -> Option<Seq<char>>
    decreases s.len(),
{
    if n == 0 {
        Some(Seq::empty())
    } else if s.len() == 0 || utf8_width(s[0]) > n {
        None
    } else {
        match byte_prefix(s.drop_first(), n - utf8_width(s[0])) {
            Some(p) => Some(seq![s[0]] + p),
            None => None,
        }
    }
}

pub fn utf8_width_exec(c: char) -> (res: usize)
    ensures
        res == utf8_width(c),
{
    let u = c as u32;
    if u < 0x80 {
        1
    } else if u < 0x800 {
        2
    } else if u < 0x10000 {
        3
    } else {
        4
    }
}

/// The leading characters of `cs` that take exactly `n` bytes in UTF-8.
pub fn chars_byte_prefix(cs: &[char], n: usize) -> (res: Option<Vec<char>>)
    ensures
        match res {
            Some(p) => byte_prefix(cs@, n as int) == Some(p@),
            None => byte_prefix(cs@, n as int) is None,
        },
{
    let mut i: usize = 0;
    let mut left: usize = n;
    assert(cs@.skip(0) =~= cs@);
    while left > 0 && i < cs.len() && utf8_width_exec(cs[i]) <= left
        invariant
            i <= cs.len(),
            left <= n,
            byte_prefix(cs@, n as int) == match byte_prefix(cs@.skip(i as int), left as int) {
                Some(p) => Some(cs@.take(i as int) + p),
                None => None,
            },
        decreases cs.len() - i,
    {
        let ghost rest = cs@.skip(i as int);
        assert(rest.drop_first() =~= cs@.skip(i + 1));
        assert(rest[0] == cs@[i as int]);
        assert(cs@.take(i + 1) =~= cs@.take(i as int) + seq![cs@[i as int]]);
        assert forall|p: Seq<char>| cs@.take(i as int) + (seq![rest[0]] + p) =~= cs@.take(i + 1) + p by {}
        left = left - utf8_width_exec(cs[i]);
        i += 1;
    }
    if left == 0 {
        assert(cs@.take(i as int) + Seq::<char>::empty() =~= cs@.take(i as int));
        Some(crate::text::sub_chars(cs, 0, i))
    } else {
        None
    }
}

/// The date of an event: the local calendar date of its RFC 3339 timestamp where that
/// parses (`local`), otherwise the first ten bytes of the timestamp.
pub open spec fn spec_timestamp_date(v: Option<Json>, local: Option<Seq<char>>) -> Option<Seq<char>> {
    match as_str(get(v, "timestamp"@)) {
        None => None,
        Some(raw) => match local {
            Some(d) => Some(d),
            None => byte_prefix(raw, 10),
        },
    }
}

/// Whether chrono's `DateTime::parse_from_rfc3339` accepts `text`.
pub uninterp spec fn rfc3339_valid(text: Seq<char>) -> bool;

/// The calendar date, in the machine's time zone, of an RFC 3339 timestamp, as chrono's
/// `DateTime::parse_from_rfc3339` followed by `with_timezone(&Local)` and `date_naive`
/// gives it: a date exactly where the timestamp parses. Which date depends on the
/// machine's time zone, so nothing more is stated of it.
#[verifier::external_body]
pub(crate) fn rfc3339_local_date(raw: &str) -> (res: Option<String>)
    ensures
        res is Some <==> rfc3339_valid(raw@),
{
    chrono::DateTime::parse_from_rfc3339(raw).ok().map(
        |time| time.with_timezone(&chrono::Local).date_naive().to_string(),
    )
}

/// The date of an event, given what the local-date conversion gave for its timestamp.
pub fn timestamp_date(value: Option<&JsonValue>, local: Option<String>) -> (res: Option<String>)
    ensures
        match res {
            Some(d) => spec_timestamp_date(view_opt(value), opt_text(local)) == Some(d@),
            None => spec_timestamp_date(view_opt(value), opt_text(local)) is None,
        },
{
    match json_as_str(json_get(value, "timestamp")) {
        None => None,
        Some(raw) => match local {
            Some(d) => Some(d),
            None => {
                let cs = chars_of(raw.as_str());
                match chars_byte_prefix(cs.as_slice(), 10) {
                    Some(p) => Some(string_of(p.as_slice())),
                    None => None,
                }
            },
        },
    }
}

// ---------------------------------------------------------------------------
// Pricing
// ---------------------------------------------------------------------------

/// Prices in nano-USD per token (1 USD per million tokens is 1000 nano-USD per token).
#[derive(Clone, Copy, Debug)]
pub struct ModelPricing {
    pub input_nano_usd: u64,
    pub cached_input_nano_usd: u64,
    pub output_nano_usd: u64,
}

pub open spec fn price(i: u64, c: u64, o: u64) -> Option<ModelPricing> {
    Some(ModelPricing { input_nano_usd: i, cached_input_nano_usd: c, output_nano_usd: o })
}

/// OpenAI's published prices for the model families, matched on the trimmed,
/// ASCII-lower-cased model name by prefix, most specific first.
pub open spec fn spec_pricing_for_model(model: Seq<char>) -> Option<ModelPricing> {
    let m = ascii_lower(trim(model));
    if starts_with(m, "gpt-5.5-pro"@) || starts_with(m, "gpt-5.4-pro"@) {
        price(30000, 3000, 180000)
    } else if starts_with(m, "gpt-5.5"@) {
        price(5000, 500, 30000)
    } else if starts_with(m, "gpt-5.4-mini"@) {
        price(750, 75, 4500)
    } else if starts_with(m, "gpt-5.4-nano"@) {
        price(200, 20, 1250)
    } else if starts_with(m, "gpt-5.4"@) {
        price(2500, 250, 15000)
    } else if starts_with(m, "gpt-5-mini"@) {
        price(250, 25, 2000)
    } else if starts_with(m, "gpt-5-nano"@) {
        price(50, 5, 400)
    } else if starts_with(m, "gpt-5"@) {
        price(1250, 125, 10000)
    } else {
        None
    }
}

fn has_prefix(m: &Vec<char>, p: &str) -> (res: bool)
    ensures
        res == starts_with(m@, p@),
{
    let cp = chars_of(p);
    chars_starts_with(m.as_slice(), cp.as_slice())
}

/// The prices of a model, when it belongs to a known family.
pub fn pricing_for_model(model: &str) -> (res: Option<ModelPricing>)
    ensures
        res == spec_pricing_for_model(model@),
{
    let cs = chars_of(model);
    let t = trim_chars(cs.as_slice());
    let m = ascii_lower_chars(t.as_slice());
    if has_prefix(&m, "gpt-5.5-pro") || has_prefix(&m, "gpt-5.4-pro") {
        return Some(ModelPricing { input_nano_usd: 30000, cached_input_nano_usd: 3000, output_nano_usd: 180000 });
    }
    if has_prefix(&m, "gpt-5.5") {
        return Some(ModelPricing { input_nano_usd: 5000, cached_input_nano_usd: 500, output_nano_usd: 30000 });
    }
    if has_prefix(&m, "gpt-5.4-mini") {
        return Some(ModelPricing { input_nano_usd: 750, cached_input_nano_usd: 75, output_nano_usd: 4500 });
    }
    if has_prefix(&m, "gpt-5.4-nano") {
        return Some(ModelPricing { input_nano_usd: 200, cached_input_nano_usd: 20, output_nano_usd: 1250 });
    }
    if has_prefix(&m, "gpt-5.4") {
        return Some(ModelPricing { input_nano_usd: 2500, cached_input_nano_usd: 250, output_nano_usd: 15000 });
    }
    if has_prefix(&m, "gpt-5-mini") {
        return Some(ModelPricing { input_nano_usd: 250, cached_input_nano_usd: 25, output_nano_usd: 2000 });
    }
    if has_prefix(&m, "gpt-5-nano") {
        return Some(ModelPricing { input_nano_usd: 50, cached_input_nano_usd: 5, output_nano_usd: 400 });
    }
    if has_prefix(&m, "gpt-5") {
        return Some(ModelPricing { input_nano_usd: 1250, cached_input_nano_usd: 125, output_nano_usd: 10000 });
    }
    None
}

/// The estimated cost of an event in nano-USD: fresh input, cached input and output each
/// at the model's price; 0 for a model of no known family.
pub open spec fn spec_usage_cost(model: Seq<char>, u: TokenUsage) -> int {
    match spec_pricing_for_model(model) {
        None => 0,
        Some(p) => max0(u.input_tokens - u.cached_input_tokens) * p.input_nano_usd + max0(
            u.cached_input_tokens as int,
        ) * p.cached_input_nano_usd + max0(u.output_tokens as int) * p.output_nano_usd,
    }
}

proof fn lemma_cost_bound(a: int, b: int, c: int, pa: int, pb: int, pc: int)
    requires
        0 <= a <= u64::MAX,
        0 <= b <= u64::MAX,
        0 <= c <= u64::MAX,
        0 <= pa <= 180000,
        0 <= pb <= 180000,
        0 <= pc <= 180000,
    ensures
        0 <= a * pa <= u64::MAX * 180000,
        0 <= b * pb <= u64::MAX * 180000,
        0 <= c * pc <= u64::MAX * 180000,
{
    assert(0 <= a * pa <= u64::MAX * 180000) by (nonlinear_arith)
        requires
            0 <= a <= u64::MAX,
            0 <= pa <= 180000,
    ;
    assert(0 <= b * pb <= u64::MAX * 180000) by (nonlinear_arith)
        requires
            0 <= b <= u64::MAX,
            0 <= pb <= 180000,
    ;
    assert(0 <= c * pc <= u64::MAX * 180000) by (nonlinear_arith)
        requires
            0 <= c <= u64::MAX,
            0 <= pc <= 180000,
    ;
}

/// The estimated cost of an event in nano-USD.
pub fn estimate_usage_cost(model: &str, usage: &TokenUsage) -> (res: u128)
    requires
        fits_i64(usage.input_tokens - usage.cached_input_tokens),
    ensures
        res == spec_usage_cost(model@, *usage),
{
    let pricing = pricing_for_model(model);
    match pricing {
        None => 0,
        Some(p) => {
            let fresh = max0_i64(usage.input_tokens - usage.cached_input_tokens) as u128;
            let cached = max0_i64(usage.cached_input_tokens) as u128;
            let output = max0_i64(usage.output_tokens) as u128;
            proof {
                lemma_cost_bound(
                    fresh as int,
                    cached as int,
                    output as int,
                    p.input_nano_usd as int,
                    p.cached_input_nano_usd as int,
                    p.output_nano_usd as int,
                );
            }
            fresh * (p.input_nano_usd as u128) + cached * (p.cached_input_nano_usd as u128) + output
                * (p.output_nano_usd as u128)
        },
    }
}

/// A name that starts with `p` starts with every prefix of `p`.
proof fn lemma_prefix_of_prefix(m: Seq<char>, p: Seq<char>, q: Seq<char>)
    ensures
        starts_with(m, p) && starts_with(p, q) ==> starts_with(m, q),
{
    if starts_with(m, p) && starts_with(p, q) {
        assert(m.subrange(0, q.len() as int) =~= p.subrange(0, q.len() as int));
    }
}

/// No name starts with two prefixes that differ at one place.
proof fn lemma_prefixes_apart(m: Seq<char>, p: Seq<char>, q: Seq<char>, i: int)
    requires
        0 <= i < p.len(),
        i < q.len(),
        p[i] != q[i],
    ensures
        !(starts_with(m, p) && starts_with(m, q)),
{
    if starts_with(m, p) && starts_with(m, q) {
        assert(m.subrange(0, p.len() as int)[i] == m[i]);
        assert(m.subrange(0, q.len() as int)[i] == m[i]);
    }
}

/// The name a price is looked up by: the model name trimmed and lower-cased.
pub open spec fn price_name(model: Seq<char>) -> Seq<char> {
    ascii_lower(trim(model))
}

/// The price of a model's family, over every model name: `gpt-5.5-pro` and `gpt-5.4-pro`
/// at 30 / 3 / 180 USD per million tokens (input / cached input / output), `gpt-5.5` at
/// 5 / 0.5 / 30, `gpt-5.4-mini` at 0.75 / 0.075 / 4.5, `gpt-5.4-nano` at 0.2 / 0.02 /
/// 1.25, `gpt-5.4` at 2.5 / 0.25 / 15, `gpt-5-mini` at 0.25 / 0.025 / 2, `gpt-5-nano` at
/// 0.05 / 0.005 / 0.4, any other `gpt-5` at 1.25 / 0.125 / 10, and no price for a name
/// outside the `gpt-5` families; in nano-USD per token, 1000 times those numbers.
pub proof fn lemma_model_prices(model: Seq<char>)
    ensures
        ({
            let m = price_name(model);
            let r = spec_pricing_for_model(model);
            &&& (starts_with(m, "gpt-5.5-pro"@) || starts_with(m, "gpt-5.4-pro"@)) ==> r == Some(
                ModelPricing {
                    input_nano_usd: 30000,
                    cached_input_nano_usd: 3000,
                    output_nano_usd: 180000,
                },
            )
            &&& (starts_with(m, "gpt-5.5"@) && !starts_with(m, "gpt-5.5-pro"@)) ==> r == Some(
                ModelPricing { input_nano_usd: 5000, cached_input_nano_usd: 500, output_nano_usd: 30000 },
            )
            &&& starts_with(m, "gpt-5.4-mini"@) ==> r == Some(
                ModelPricing { input_nano_usd: 750, cached_input_nano_usd: 75, output_nano_usd: 4500 },
            )
            &&& starts_with(m, "gpt-5.4-nano"@) ==> r == Some(
                ModelPricing { input_nano_usd: 200, cached_input_nano_usd: 20, output_nano_usd: 1250 },
            )
            &&& (starts_with(m, "gpt-5.4"@) && !starts_with(m, "gpt-5.4-pro"@) && !starts_with(
                m,
                "gpt-5.4-mini"@,
            ) && !starts_with(m, "gpt-5.4-nano"@)) ==> r == Some(
                ModelPricing { input_nano_usd: 2500, cached_input_nano_usd: 250, output_nano_usd: 15000 },
            )
            &&& starts_with(m, "gpt-5-mini"@) ==> r == Some(
                ModelPricing { input_nano_usd: 250, cached_input_nano_usd: 25, output_nano_usd: 2000 },
            )
            &&& starts_with(m, "gpt-5-nano"@) ==> r == Some(
                ModelPricing { input_nano_usd: 50, cached_input_nano_usd: 5, output_nano_usd: 400 },
            )
            &&& (starts_with(m, "gpt-5"@) && !starts_with(m, "gpt-5.5"@) && !starts_with(
                m,
                "gpt-5.4"@,
            ) && !starts_with(m, "gpt-5-mini"@) && !starts_with(m, "gpt-5-nano"@)) ==> r == Some(
                ModelPricing { input_nano_usd: 1250, cached_input_nano_usd: 125, output_nano_usd: 10000 },
            )
            &&& !starts_with(m, "gpt-5"@) ==> r is None
        }),
{
    reveal_strlit("gpt-5.5-pro");
    reveal_strlit("gpt-5.4-pro");
    reveal_strlit("gpt-5.5");
    reveal_strlit("gpt-5.4-mini");
    reveal_strlit("gpt-5.4-nano");
    reveal_strlit("gpt-5.4");
    reveal_strlit("gpt-5-mini");
    reveal_strlit("gpt-5-nano");
    reveal_strlit("gpt-5");
    let m = price_name(model);
    lemma_prefixes_apart(m, "gpt-5.5-pro"@, "gpt-5.4-pro"@, 6);
    assert("gpt-5.5-pro"@.subrange(0, 7) =~= "gpt-5.5"@);
    lemma_prefix_of_prefix(m, "gpt-5.5-pro"@, "gpt-5.5"@);
    lemma_prefixes_apart(m, "gpt-5.5-pro"@, "gpt-5.4-mini"@, 6);
    lemma_prefixes_apart(m, "gpt-5.5-pro"@, "gpt-5.4-nano"@, 6);
    lemma_prefixes_apart(m, "gpt-5.5-pro"@, "gpt-5.4"@, 6);
    lemma_prefixes_apart(m, "gpt-5.5-pro"@, "gpt-5-mini"@, 5);
    lemma_prefixes_apart(m, "gpt-5.5-pro"@, "gpt-5-nano"@, 5);
    assert("gpt-5.5-pro"@.subrange(0, 5) =~= "gpt-5"@);
    lemma_prefix_of_prefix(m, "gpt-5.5-pro"@, "gpt-5"@);
    lemma_prefixes_apart(m, "gpt-5.4-pro"@, "gpt-5.5"@, 6);
    lemma_prefixes_apart(m, "gpt-5.4-pro"@, "gpt-5.4-mini"@, 8);
    lemma_prefixes_apart(m, "gpt-5.4-pro"@, "gpt-5.4-nano"@, 8);
    assert("gpt-5.4-pro"@.subrange(0, 7) =~= "gpt-5.4"@);
    lemma_prefix_of_prefix(m, "gpt-5.4-pro"@, "gpt-5.4"@);
    lemma_prefixes_apart(m, "gpt-5.4-pro"@, "gpt-5-mini"@, 5);
    lemma_prefixes_apart(m, "gpt-5.4-pro"@, "gpt-5-nano"@, 5);
    assert("gpt-5.4-pro"@.subrange(0, 5) =~= "gpt-5"@);
    lemma_prefix_of_prefix(m, "gpt-5.4-pro"@, "gpt-5"@);
    lemma_prefixes_apart(m, "gpt-5.5"@, "gpt-5.4-mini"@, 6);
    lemma_prefixes_apart(m, "gpt-5.5"@, "gpt-5.4-nano"@, 6);
    lemma_prefixes_apart(m, "gpt-5.5"@, "gpt-5.4"@, 6);
    lemma_prefixes_apart(m, "gpt-5.5"@, "gpt-5-mini"@, 5);
    lemma_prefixes_apart(m, "gpt-5.5"@, "gpt-5-nano"@, 5);
    assert("gpt-5.5"@.subrange(0, 5) =~= "gpt-5"@);
    lemma_prefix_of_prefix(m, "gpt-5.5"@, "gpt-5"@);
    lemma_prefixes_apart(m, "gpt-5.4-mini"@, "gpt-5.4-nano"@, 8);
    assert("gpt-5.4-mini"@.subrange(0, 7) =~= "gpt-5.4"@);
    lemma_prefix_of_prefix(m, "gpt-5.4-mini"@, "gpt-5.4"@);
    lemma_prefixes_apart(m, "gpt-5.4-mini"@, "gpt-5-mini"@, 5);
    lemma_prefixes_apart(m, "gpt-5.4-mini"@, "gpt-5-nano"@, 5);
    assert("gpt-5.4-mini"@.subrange(0, 5) =~= "gpt-5"@);
    lemma_prefix_of_prefix(m, "gpt-5.4-mini"@, "gpt-5"@);
    assert("gpt-5.4-nano"@.subrange(0, 7) =~= "gpt-5.4"@);
    lemma_prefix_of_prefix(m, "gpt-5.4-nano"@, "gpt-5.4"@);
    lemma_prefixes_apart(m, "gpt-5.4-nano"@, "gpt-5-mini"@, 5);
    lemma_prefixes_apart(m, "gpt-5.4-nano"@, "gpt-5-nano"@, 5);
    assert("gpt-5.4-nano"@.subrange(0, 5) =~= "gpt-5"@);
    lemma_prefix_of_prefix(m, "gpt-5.4-nano"@, "gpt-5"@);
    lemma_prefixes_apart(m, "gpt-5.4"@, "gpt-5-mini"@, 5);
    lemma_prefixes_apart(m, "gpt-5.4"@, "gpt-5-nano"@, 5);
    assert("gpt-5.4"@.subrange(0, 5) =~= "gpt-5"@);
    lemma_prefix_of_prefix(m, "gpt-5.4"@, "gpt-5"@);
    lemma_prefixes_apart(m, "gpt-5-mini"@, "gpt-5-nano"@, 6);
    assert("gpt-5-mini"@.subrange(0, 5) =~= "gpt-5"@);
    lemma_prefix_of_prefix(m, "gpt-5-mini"@, "gpt-5"@);
    assert("gpt-5-nano"@.subrange(0, 5) =~= "gpt-5"@);
    lemma_prefix_of_prefix(m, "gpt-5-nano"@, "gpt-5"@);
}

/// The cost of an event of a `gpt-5.4-pro` or `gpt-5.5-pro` model: fresh input at 30000,
/// cached input at 3000 and output at 180000 nano-USD per token.
pub proof fn lemma_pro_event_cost(model: Seq<char>, u: TokenUsage)
    requires
        starts_with(price_name(model), "gpt-5.5-pro"@) || starts_with(price_name(model), "gpt-5.4-pro"@),
        0 <= u.cached_input_tokens <= u.input_tokens,
        0 <= u.output_tokens,
    ensures
        spec_usage_cost(model, u) == (u.input_tokens - u.cached_input_tokens) * 30000
            + u.cached_input_tokens * 3000 + u.output_tokens * 180000,
{
    lemma_model_prices(model);
}

} // verus!
