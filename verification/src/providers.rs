//! Codex providers: the stored provider list, the built-in `openai` provider, and the
//! `config.toml` / `auth.json` snapshots written back to Codex on a switch.
use vstd::prelude::*;
use crate::json::{as_str, get, json_as_str, json_get, json_view, Json, JsonValue};
use crate::text::{
    append_chars, append_str, chars_of, opt_text, replace_char, replace_chars, starts_with, str_eq, str_less,
    string_of, text_less, to_lowercase, trim, trim_chars, unicode_lowercase,
};
use crate::toml::{
    as_table, item_bool, item_str, lookup, table_view, toml_as_table, toml_item_bool,
    toml_item_str, toml_lookup, Toml, TomlItem,
};
use crate::toml_doc::{
    lemma_lookup_with, lemma_lookup_without, table_with, table_without, toml_accepts,
    toml_doc_put, toml_doc_remove, toml_doc_table, toml_doc_text, toml_parse_document,
    toml_render, toml_str_item, toml_text_table,
};

verus! {

// ---------------------------------------------------------------------------
// Data
// ---------------------------------------------------------------------------

/// A Codex provider as the provider store keeps it.
#[derive(Debug)]
pub struct ProviderConfig {
    pub id: String,
    pub name: Option<String>,
    pub auth_type: Option<String>,
    pub base_url: Option<String>,
    pub api_key: Option<String>,
    pub wire_api: Option<String>,
    pub model: Option<String>,
    pub model_reasoning_effort: Option<String>,
    pub requires_openai_auth: Option<bool>,
    pub auth_json: Option<JsonValue>,
    pub config_toml: Option<String>,
}

/// The mathematical value of a provider.
pub struct Provider {
    pub id: Seq<char>,
    pub name: Option<Seq<char>>,
    pub auth_type: Option<Seq<char>>,
    pub base_url: Option<Seq<char>>,
    pub api_key: Option<Seq<char>>,
    pub wire_api: Option<Seq<char>>,
    pub model: Option<Seq<char>>,
    pub model_reasoning_effort: Option<Seq<char>>,
    pub requires_openai_auth: Option<bool>,
    pub auth_json: Option<Json>,
    pub config_toml: Option<Seq<char>>,
}

pub open spec fn opt_json(o: Option<JsonValue>) -> Option<Json> {
    match o {
        Some(v) => Some(v@),
        None => None,
    }
}

impl View for ProviderConfig {
    type V = Provider;

    open spec fn view(&self) -> Provider {
        Provider {
            id: self.id@,
            name: opt_text(self.name),
            auth_type: opt_text(self.auth_type),
            base_url: opt_text(self.base_url),
            api_key: opt_text(self.api_key),
            wire_api: opt_text(self.wire_api),
            model: opt_text(self.model),
            model_reasoning_effort: opt_text(self.model_reasoning_effort),
            requires_openai_auth: self.requires_openai_auth,
            auth_json: opt_json(self.auth_json),
            config_toml: opt_text(self.config_toml),
        }
    }
}

/// Why a provider operation was refused.
#[derive(Debug)]
pub enum ProviderError {
    /// The provider ID is empty once trimmed.
    EmptyId,
    /// The provider ID holds a character other than ASCII letters, digits, `.`, `-`, `_`.
    InvalidId,
    /// No stored provider has this ID.
    NotFound(String),
    /// The built-in `openai` provider cannot be deleted.
    DeleteBuiltin,
    /// The provider in use cannot be deleted.
    DeleteCurrent(String),
    /// The provider has no `config.toml` snapshot.
    MissingConfigSnapshot,
    /// The provider has no `auth.json` snapshot.
    MissingAuthSnapshot,
    /// The built-in default `config.toml` did not parse.
    DefaultConfigUnparsable,
}

/// The files that switching to a provider writes into the Codex directory.
#[derive(Debug)]
pub struct CodexFiles {
    pub config_toml: String,
    pub auth_json: JsonValue,
}

/// What the Codex directory holds when a provider operation starts: the text of
/// `config.toml` where it could be read, its parse where it parses, and the parse of
/// `auth.json` where that file could be read and parses.
#[derive(Debug)]
pub struct LiveFiles {
    pub config_text: Option<String>,
    pub config: Option<Vec<(String, TomlItem)>>,
    pub auth: Option<JsonValue>,
}

pub open spec fn opt_table(o: Option<Vec<(String, TomlItem)>>) -> Option<Seq<(Seq<char>, Toml)>> {
    match o {
        Some(t) => Some(table_view(t@)),
        None => None,
    }
}

pub fn clone_text(o: &Option<String>) -> (res: Option<String>)
    ensures
        opt_text(res) == opt_text(*o),
{
    match o {
        Some(s) => Some(s.clone()),
        None => None,
    }
}

fn clone_json(o: &Option<JsonValue>) -> (res: Option<JsonValue>)
    ensures
        opt_json(res) == opt_json(*o),
{
    match o {
        Some(v) => Some(v.clone()),
        None => None,
    }
}

impl Clone for ProviderConfig {
    fn clone(&self) -> (res: Self)
        ensures
            res@ == self@,
    {
        ProviderConfig {
            id: self.id.clone(),
            name: clone_text(&self.name),
            auth_type: clone_text(&self.auth_type),
            base_url: clone_text(&self.base_url),
            api_key: clone_text(&self.api_key),
            wire_api: clone_text(&self.wire_api),
            model: clone_text(&self.model),
            model_reasoning_effort: clone_text(&self.model_reasoning_effort),
            requires_openai_auth: self.requires_openai_auth,
            auth_json: clone_json(&self.auth_json),
            config_toml: clone_text(&self.config_toml),
        }
    }
}

pub open spec fn or_text(a: Option<Seq<char>>, b: Option<Seq<char>>) -> Option<Seq<char>> {
    match a {
        Some(x) => Some(x),
        None => b,
    }
}

fn or_string(a: Option<String>, b: Option<String>) -> (res: Option<String>)
    ensures
        opt_text(res) == or_text(opt_text(a), opt_text(b)),
{
    match a {
        Some(x) => Some(x),
        None => b,
    }
}

pub open spec fn openai_id() -> Seq<char> {
    "openai"@
}

/// The built-in provider that stands for Codex's own ChatGPT sign-in.
pub open spec fn spec_default_openai_provider(id: Seq<char>) -> Provider {
    Provider {
        id,
        name: Some("Codex 默认 Provider"@),
        auth_type: Some("chatgpt"@),
        base_url: Some("https://api.openai.com/v1"@),
        api_key: None,
        wire_api: Some("responses"@),
        model: Some("gpt-5.4"@),
        model_reasoning_effort: Some("medium"@),
        requires_openai_auth: Some(false),
        auth_json: None,
        config_toml: None,
    }
}

/// The built-in provider that stands for Codex's own ChatGPT sign-in.
pub fn default_openai_provider(id: String) -> (res: ProviderConfig)
    ensures
        res@ == spec_default_openai_provider(id@),
{
    ProviderConfig {
        id,
        name: Some("Codex 默认 Provider".to_string()),
        auth_type: Some("chatgpt".to_string()),
        base_url: Some("https://api.openai.com/v1".to_string()),
        api_key: None,
        wire_api: Some("responses".to_string()),
        model: Some("gpt-5.4".to_string()),
        model_reasoning_effort: Some("medium".to_string()),
        requires_openai_auth: Some(false),
        auth_json: None,
        config_toml: None,
    }
}

/// A fresh API-key provider.
pub open spec fn spec_default_api_key_provider(id: Seq<char>) -> Provider {
    Provider {
        id,
        name: None,
        auth_type: Some("api_key"@),
        base_url: None,
        api_key: None,
        wire_api: Some("responses"@),
        model: Some("gpt-5.4"@),
        model_reasoning_effort: Some("high"@),
        requires_openai_auth: Some(true),
        auth_json: None,
        config_toml: None,
    }
}

/// A fresh API-key provider.
pub fn default_api_key_provider(id: String) -> (res: ProviderConfig)
    ensures
        res@ == spec_default_api_key_provider(id@),
{
    ProviderConfig {
        id,
        name: None,
        auth_type: Some("api_key".to_string()),
        base_url: None,
        api_key: None,
        wire_api: Some("responses".to_string()),
        model: Some("gpt-5.4".to_string()),
        model_reasoning_effort: Some("high".to_string()),
        requires_openai_auth: Some(true),
        auth_json: None,
        config_toml: None,
    }
}

/// The built-in provider, keeping what the user chose in `saved`: its model, reasoning
/// effort and snapshots.
pub open spec fn builtin_from(saved: Provider) -> Provider {
    let b = spec_default_openai_provider(openai_id());
    Provider {
        model: or_text(saved.model, b.model),
        model_reasoning_effort: or_text(saved.model_reasoning_effort, b.model_reasoning_effort),
        auth_json: saved.auth_json,
        config_toml: saved.config_toml,
        ..b
    }
}

fn builtin_openai_from(saved: ProviderConfig) -> (res: ProviderConfig)
    ensures
        res@ == builtin_from(saved@),
{
    let mut builtin = default_openai_provider("openai".to_string());
    builtin.model = or_string(saved.model, builtin.model);
    builtin.model_reasoning_effort = or_string(
        saved.model_reasoning_effort,
        builtin.model_reasoning_effort,
    );
    builtin.auth_json = saved.auth_json;
    builtin.config_toml = saved.config_toml;
    builtin
}

/// A provider as the user submitted it, made consistent: `openai` is always the
/// built-in one (keeping the user's model, reasoning effort and snapshots); any other is
/// an API-key provider that requires OpenAI auth and speaks `responses` unless told
/// otherwise.
pub open spec fn spec_sanitize_provider(p: Provider) -> Provider {
    if p.id == openai_id() {
        builtin_from(p)
    } else {
        Provider {
            id: p.id,
            name: Some(
                match p.name {
                    Some(n) => n,
                    None => Seq::empty(),
                },
            ),
            auth_type: Some("api_key"@),
            base_url: p.base_url,
            api_key: p.api_key,
            wire_api: or_text(p.wire_api, Some("responses"@)),
            model: p.model,
            model_reasoning_effort: p.model_reasoning_effort,
            requires_openai_auth: Some(true),
            auth_json: p.auth_json,
            config_toml: p.config_toml,
        }
    }
}

/// A provider as the user submitted it, made consistent.
pub fn sanitize_provider(provider: ProviderConfig) -> (res: ProviderConfig)
    ensures
        res@ == spec_sanitize_provider(provider@),
{
    if str_eq(provider.id.as_str(), "openai") {
        return builtin_openai_from(provider);
    }
    ProviderConfig {
        id: provider.id,
        name: Some(
            match provider.name {
                Some(n) => n,
                None => String::new(),
            },
        ),
        auth_type: Some("api_key".to_string()),
        base_url: provider.base_url,
        api_key: provider.api_key,
        wire_api: or_string(provider.wire_api, Some("responses".to_string())),
        model: provider.model,
        model_reasoning_effort: provider.model_reasoning_effort,
        requires_openai_auth: Some(true),
        auth_json: provider.auth_json,
        config_toml: provider.config_toml,
    }
}

/// What saving makes of a provider, over every provider: any provider but `openai` keeps
/// its ID, name (empty where it had none), base URL, API key, model, reasoning effort and
/// snapshots, becomes an API-key provider that requires OpenAI auth, and keeps its wire
/// API (`responses` where it had none); `openai` becomes the built-in ChatGPT provider
/// with no API key, keeping the model, reasoning effort and snapshots it was given.
pub proof fn lemma_sanitize_keeps_what_the_user_gave(p: Provider)
    ensures
        ({
            let r = spec_sanitize_provider(p);
            &&& p.id != "openai"@ ==> {
                &&& r.id == p.id
                &&& r.name == Some(
                    match p.name {
                        Some(n) => n,
                        None => Seq::<char>::empty(),
                    },
                )
                &&& r.api_key == p.api_key
                &&& r.base_url == p.base_url
                &&& r.model == p.model
                &&& r.model_reasoning_effort == p.model_reasoning_effort
                &&& r.auth_json == p.auth_json
                &&& r.config_toml == p.config_toml
                &&& r.auth_type == Some("api_key"@)
                &&& r.requires_openai_auth == Some(true)
                &&& r.wire_api == (if p.wire_api is Some {
                    p.wire_api
                } else {
                    Some("responses"@)
                })
            }
            &&& p.id == "openai"@ ==> {
                &&& r.id == "openai"@
                &&& r.api_key is None
                &&& r.auth_type == Some("chatgpt"@)
                &&& r.requires_openai_auth == Some(false)
                &&& (p.model is Some ==> r.model == p.model)
                &&& (p.model_reasoning_effort is Some ==> r.model_reasoning_effort
                    == p.model_reasoning_effort)
                &&& r.auth_json == p.auth_json
                &&& r.config_toml == p.config_toml
            }
        }),
{
}

// ---------------------------------------------------------------------------
// Provider IDs
// ---------------------------------------------------------------------------

pub open spec fn id_char_allowed(c: char) -> bool {
    ('a' <= c && c <= 'z') || ('A' <= c && c <= 'Z') || ('0' <= c && c <= '9') || c == '_' || c
        == '-' || c == '.'
}

/// An ID is accepted when, trimmed, it is not empty and holds only ASCII letters,
/// digits, `_`, `-` and `.`.
pub open spec fn spec_validate_provider_id(id: Seq<char>) -> Result<(), ProviderError> {
    let t = trim(id);
    if t.len() == 0 {
        Err(ProviderError::EmptyId)
    } else if !(forall|i: int| 0 <= i < t.len() ==> id_char_allowed(#[trigger] t[i])) {
        Err(ProviderError::InvalidId)
    } else {
        Ok(())
    }
}

/// Checks a provider ID.
pub fn validate_provider_id(provider_id: &str) -> (res: Result<(), ProviderError>)
    ensures
        res == spec_validate_provider_id(provider_id@),
{
    let cs = chars_of(provider_id);
    let t = trim_chars(cs.as_slice());
    if t.len() == 0 {
        return Err(ProviderError::EmptyId);
    }
    let mut i: usize = 0;
    while i < t.len()
        invariant
            i <= t.len(),
            t@ == trim(provider_id@),
            t.len() > 0,
            forall|k: int| 0 <= k < i ==> id_char_allowed(#[trigger] t@[k]),
        decreases t.len() - i,
    {
        let c = t[i];
        let ok = ('a' <= c && c <= 'z') || ('A' <= c && c <= 'Z') || ('0' <= c && c <= '9') || c
            == '_' || c == '-' || c == '.';
        if !ok {
            assert(!id_char_allowed(t@[i as int]));
            assert(t@ == trim(provider_id@));
            assert(trim(provider_id@).len() != 0);
            assert(!(forall|k: int|
                0 <= k < trim(provider_id@).len() ==> id_char_allowed(#[trigger] trim(provider_id@)[k])));
            return Err(ProviderError::InvalidId);
        }
        i += 1;
    }
    Ok(())
}

// ---------------------------------------------------------------------------
// The built-in provider in the list, and the list order
// ---------------------------------------------------------------------------

/// The index of the first provider whose ID is `id`.
pub open spec fn index_of_id(s: Seq<Provider>, id: Seq<char>) -> Option<int>
    decreases s.len(),
{
    if s.len() == 0 {
        None
    } else if s[0].id == id {
        Some(0)
    } else {
        match index_of_id(s.drop_first(), id) {
            Some(i) => Some(i + 1),
            None => None,
        }
    }
}

pub open spec fn views(s: Seq<ProviderConfig>) -> Seq<Provider> {
    s.map_values(|p: ProviderConfig| p@)
}

/// The list with the built-in provider first: the first stored `openai` entry, made
/// built-in, moves to the front; where there is none, a default one is put there.
pub open spec fn spec_ensure_builtin_openai(s: Seq<Provider>) -> Seq<Provider> {
    match index_of_id(s, openai_id()) {
        None => s.insert(0, spec_default_openai_provider(openai_id())),
        Some(i) => s.remove(i).insert(0, builtin_from(s[i])),
    }
}

proof fn lemma_index_of_id(s: Seq<Provider>, id: Seq<char>)
    ensures
        match index_of_id(s, id) {
            Some(i) => 0 <= i < s.len() && s[i].id == id && forall|k: int|
                0 <= k < i ==> s[k].id != id,
            None => forall|k: int| 0 <= k < s.len() ==> s[k].id != id,
        },
    decreases s.len(),
{
    if s.len() > 0 && s[0].id != id {
        lemma_index_of_id(s.drop_first(), id);
        match index_of_id(s.drop_first(), id) {
            Some(i) => {
                assert forall|k: int| 0 <= k < i + 1 implies s[k].id != id by {
                    if k > 0 {
                        assert(s[k] == s.drop_first()[k - 1]);
                    }
                }
            },
            None => {
                assert forall|k: int| 0 <= k < s.len() implies s[k].id != id by {
                    if k > 0 {
                        assert(s[k] == s.drop_first()[k - 1]);
                    }
                }
            },
        }
    }
}

/// The position of the first provider whose ID is `id`.
pub fn position_of_id(providers: &Vec<ProviderConfig>, id: &str) -> (res: Option<usize>)
    ensures
        match res {
            Some(i) => index_of_id(views(providers@), id@) == Some(i as int),
            None => index_of_id(views(providers@), id@) is None,
        },
{
    let ghost s = views(providers@);
    proof {
        lemma_index_of_id(s, id@);
    }
    let mut i: usize = 0;
    while i < providers.len()
        invariant
            i <= providers.len(),
            s == views(providers@),
            forall|k: int| 0 <= k < i ==> s[k].id != id@,
            match index_of_id(s, id@) {
                Some(j) => 0 <= j < s.len() && s[j].id == id@ && forall|k: int|
                    0 <= k < j ==> s[k].id != id@,
                None => forall|k: int| 0 <= k < s.len() ==> s[k].id != id@,
            },
        decreases providers.len() - i,
    {
        if str_eq(providers[i].id.as_str(), id) {
            proof {
                match index_of_id(s, id@) {
                    Some(j) => {
                        if j < i {
                        } else if j > i {
                            assert(s[i as int].id == id@);
                        }
                    },
                    None => {
                        assert(s[i as int].id == id@);
                    },
                }
            }
            return Some(i);
        }
        i += 1;
    }
    proof {
        match index_of_id(s, id@) {
            Some(j) => {
                assert(s[j].id != id@);
            },
            None => {},
        }
    }
    None
}

/// Puts the built-in provider first.
pub fn ensure_builtin_openai(providers: &mut Vec<ProviderConfig>)
    ensures
        views(final(providers)@) == spec_ensure_builtin_openai(views(old(providers)@)),
{
    let ghost s = views(providers@);
    proof {
        lemma_index_of_id(s, openai_id());
    }
    match position_of_id(providers, "openai") {
        None => {
            let d = default_openai_provider("openai".to_string());
            providers.insert(0, d);
            assert(views(providers@) =~= s.insert(0, spec_default_openai_provider(openai_id())));
        },
        Some(index) => {
            let saved = providers.remove(index);
            assert(views(providers@) =~= s.remove(index as int));
            let builtin = builtin_openai_from(saved);
            providers.insert(0, builtin);
            assert(views(providers@) =~= s.remove(index as int).insert(
                0,
                builtin_from(s[index as int]),
            ));
        },
    }
}

/// 0 for the built-in provider, 1 for any other: the built-in one sorts first.
pub open spec fn rank(p: Provider) -> int {
    if p.id == openai_id() {
        0
    } else {
        1
    }
}

/// `a` sorts no later than `b`: by rank, then by lower-cased ID.
pub open spec fn provider_le(a: Provider, b: Provider) -> bool {
    rank(a) < rank(b) || (rank(a) == rank(b) && !text_less(
        unicode_lowercase(b.id),
        unicode_lowercase(a.id),
    ))
}

/// The index at which `x` goes into `sorted`: after every provider that sorts no later.
pub open spec fn provider_position(sorted: Seq<Provider>, x: Provider) -> int
    decreases sorted.len(),
{
    if sorted.len() == 0 || !provider_le(sorted[0], x) {
        0
    } else {
        1 + provider_position(sorted.drop_first(), x)
    }
}

/// The providers sorted stably: the built-in one first, then by lower-cased ID.
pub open spec fn spec_sort_providers(s: Seq<Provider>) -> Seq<Provider>
    decreases s.len(),
{
    if s.len() == 0 {
        s
    } else {
        let sorted = spec_sort_providers(s.drop_last());
        sorted.insert(provider_position(sorted, s.last()), s.last())
    }
}

fn provider_le_exec(a: &ProviderConfig, b: &ProviderConfig) -> (res: bool)
    ensures
        res == provider_le(a@, b@),
{
    let ra: u8 = if str_eq(a.id.as_str(), "openai") {
        0
    } else {
        1
    };
    let rb: u8 = if str_eq(b.id.as_str(), "openai") {
        0
    } else {
        1
    };
    if ra < rb {
        return true;
    }
    if ra > rb {
        return false;
    }
    let la = to_lowercase(a.id.as_str());
    let lb = to_lowercase(b.id.as_str());
    !str_less(lb.as_str(), la.as_str())
}

/// Sorts the providers stably: the built-in one first, then by lower-cased ID.
pub fn sort_providers(providers: &mut Vec<ProviderConfig>)
    ensures
        views(final(providers)@) == spec_sort_providers(views(old(providers)@)),
{
    let ghost s = views(providers@);
    let mut sorted: Vec<ProviderConfig> = Vec::new();
    let mut i: usize = 0;
    assert(s.take(0) =~= Seq::<Provider>::empty());
    while i < providers.len()
        invariant
            i <= providers.len(),
            s == views(providers@),
            views(sorted@) == spec_sort_providers(s.take(i as int)),
        decreases providers.len() - i,
    {
        let ghost sv = views(sorted@);
        let ghost x = s[i as int];
        let mut j: usize = 0;
        assert(sv.skip(0) =~= sv);
        while j < sorted.len() && provider_le_exec(&sorted[j], &providers[i])
            invariant
                j <= sorted.len(),
                i < providers.len(),
                s == views(providers@),
                sv == views(sorted@),
                x == providers@[i as int]@,
                provider_position(sv, x) == j + provider_position(sv.skip(j as int), x),
            decreases sorted.len() - j,
        {
            assert(sv.skip(j as int).drop_first() =~= sv.skip(j + 1));
            assert(sv.skip(j as int)[0] == sv[j as int]);
            j += 1;
        }
        proof {
            if j < sorted.len() {
                assert(sv.skip(j as int)[0] == sv[j as int]);
            }
        }
        let p = providers[i].clone();
        sorted.insert(j, p);
        i += 1;
        proof {
            assert(s.take(i as int).drop_last() =~= s.take(i - 1));
            assert(s.take(i as int).last() == x);
            assert(views(sorted@) =~= sv.insert(j as int, x));
        }
    }
    assert(s.take(i as int) =~= s);
    *providers = sorted;
}

/// Two providers that sort at the same place: neither sorts before the other.
pub open spec fn same_place(k: Provider) -> spec_fn(Provider) -> bool {
    |p: Provider| provider_le(p, k) && provider_le(k, p)
}

proof fn lemma_provider_le_total(a: Provider, b: Provider)
    ensures
        provider_le(a, b) || provider_le(b, a),
{
    crate::text::lemma_text_less_asymmetric(unicode_lowercase(a.id), unicode_lowercase(b.id));
}

proof fn lemma_provider_le_transitive(a: Provider, b: Provider, c: Provider)
    requires
        provider_le(a, b),
        provider_le(b, c),
    ensures
        provider_le(a, c),
{
    let (ka, kb, kc) = (unicode_lowercase(a.id), unicode_lowercase(b.id), unicode_lowercase(c.id));
    if rank(a) == rank(b) && rank(b) == rank(c) && text_less(kc, ka) {
        crate::text::lemma_text_less_total(ka, kb);
        if ka != kb {
            crate::text::lemma_text_less_transitive(kc, ka, kb);
        }
    }
}

/// Where a provider goes: after the first providers that sort no later than it, before
/// one that sorts after it.
proof fn lemma_provider_position(sorted: Seq<Provider>, x: Provider)
    ensures
        0 <= provider_position(sorted, x) <= sorted.len(),
        forall|k: int| 0 <= k < provider_position(sorted, x) ==> provider_le(#[trigger] sorted[k], x),
        provider_position(sorted, x) < sorted.len() ==> !provider_le(
            sorted[provider_position(sorted, x)],
            x,
        ),
    decreases sorted.len(),
{
    if sorted.len() > 0 && provider_le(sorted[0], x) {
        let t = sorted.drop_first();
        lemma_provider_position(t, x);
        assert forall|k: int| 0 <= k < provider_position(sorted, x) implies provider_le(
            #[trigger] sorted[k],
            x,
        ) by {
            if k > 0 {
                assert(sorted[k] == t[k - 1]);
            }
        }
        if provider_position(sorted, x) < sorted.len() {
            assert(sorted[provider_position(sorted, x)] == t[provider_position(t, x)]);
        }
    }
}

/// Sorted: each provider sorts no later than every one after it.
pub open spec fn providers_sorted(s: Seq<Provider>) -> bool {
    forall|i: int, j: int| 0 <= i < j < s.len() ==> provider_le(#[trigger] s[i], #[trigger] s[j])
}

/// The providers that sort at one place keep their order where one is inserted after
/// all of them.
proof fn lemma_filter_insert(t: Seq<Provider>, pos: int, x: Provider, f: spec_fn(Provider) -> bool)
    requires
        0 <= pos <= t.len(),
        f(x) ==> forall|j: int| pos <= j < t.len() ==> !f(#[trigger] t[j]),
    ensures
        t.insert(pos, x).filter(f) == if f(x) {
            t.filter(f).push(x)
        } else {
            t.filter(f)
        },
    decreases t.len(),
{
    reveal(Seq::filter);
    if pos == t.len() {
        assert(t.insert(pos, x) =~= t.push(x));
        assert(t.push(x).drop_last() =~= t);
    } else {
        let u = t.drop_last();
        if f(x) {
            assert forall|j: int| pos <= j < u.len() implies !f(#[trigger] u[j]) by {
                assert(u[j] == t[j]);
            }
            assert(!f(t[t.len() - 1]));
        }
        lemma_filter_insert(u, pos, x, f);
        assert(t.insert(pos, x).drop_last() =~= u.insert(pos, x));
        assert(t.insert(pos, x).last() == t.last());
    }
}

/// Sorting the providers gives the same providers, sorted, and stably: the providers
/// that sort at one place come in the order they came in.
pub proof fn lemma_sort_providers(s: Seq<Provider>)
    ensures
        spec_sort_providers(s).to_multiset() == s.to_multiset(),
        providers_sorted(spec_sort_providers(s)),
        forall|k: Provider|
            #[trigger] spec_sort_providers(s).filter(same_place(k)) == s.filter(same_place(k)),
    decreases s.len(),
{
    broadcast use vstd::seq_lib::to_multiset_insert, vstd::seq_lib::to_multiset_build;
    reveal(Seq::filter);
    if s.len() == 0 {
        assert forall|k: Provider| #[trigger] spec_sort_providers(s).filter(same_place(k)) == s.filter(
            same_place(k),
        ) by {}
    } else {
        let d = s.drop_last();
        let x = s.last();
        lemma_sort_providers(d);
        let sorted = spec_sort_providers(d);
        let pos = provider_position(sorted, x);
        lemma_provider_position(sorted, x);
        let r = sorted.insert(pos, x);
        assert(r == spec_sort_providers(s));
        assert(d.push(x) =~= s);
        // after the new place, every provider sorts after it
        assert forall|j: int| pos <= j < sorted.len() implies !provider_le(#[trigger] sorted[j], x)
            && provider_le(x, sorted[j]) by {
            lemma_provider_le_total(sorted[pos], x);
            if j > pos {
                assert(provider_le(sorted[pos], sorted[j]));
                lemma_provider_le_transitive(x, sorted[pos], sorted[j]);
                if provider_le(sorted[j], x) {
                    lemma_provider_le_transitive(sorted[pos], sorted[j], x);
                }
            }
        }
        assert forall|i: int, j: int| 0 <= i < j < r.len() implies provider_le(
            #[trigger] r[i],
            #[trigger] r[j],
        ) by {
            if j < pos {
                assert(r[i] == sorted[i] && r[j] == sorted[j]);
            } else if j == pos {
                assert(r[i] == sorted[i]);
            } else if i < pos {
                assert(r[i] == sorted[i] && r[j] == sorted[j - 1]);
                assert(provider_le(sorted[i], sorted[j - 1]));
            } else if i == pos {
                assert(r[j] == sorted[j - 1]);
            } else {
                assert(r[i] == sorted[i - 1] && r[j] == sorted[j - 1]);
            }
        }
        assert forall|k: Provider| #[trigger] r.filter(same_place(k)) == s.filter(same_place(k)) by {
            let f = same_place(k);
            if f(x) {
                assert forall|j: int| pos <= j < sorted.len() implies !f(#[trigger] sorted[j]) by {
                    if f(sorted[j]) {
                        lemma_provider_le_transitive(sorted[j], k, x);
                    }
                }
            }
            lemma_filter_insert(sorted, pos, x, f);
            assert(s.drop_last() == d);
            assert(sorted.filter(f) == d.filter(f));
        }
    }
}

/// The provider store as read: the stored list, or the built-in provider alone where
/// nothing usable is stored; the built-in provider first, then sorted.
pub open spec fn spec_read_provider_store(stored: Option<Seq<Provider>>) -> Seq<Provider> {
    let s = match stored {
        Some(s) => s,
        None => seq![spec_default_openai_provider(openai_id())],
    };
    spec_sort_providers(spec_ensure_builtin_openai(s))
}

/// The provider store as read from what `providers.json` holds (nothing where the file
/// is missing or does not parse).
pub fn read_provider_store(stored: Option<Vec<ProviderConfig>>) -> (res: Vec<ProviderConfig>)
    ensures
        views(res@) == spec_read_provider_store(
            match stored {
                Some(s) => Some(views(s@)),
                None => None,
            },
        ),
{
    let mut providers = match stored {
        Some(s) => s,
        None => {
            let mut v: Vec<ProviderConfig> = Vec::new();
            v.push(default_openai_provider("openai".to_string()));
            assert(views(v@) =~= seq![spec_default_openai_provider(openai_id())]);
            v
        },
    };
    ensure_builtin_openai(&mut providers);
    sort_providers(&mut providers);
    providers
}


// ---------------------------------------------------------------------------
// Config text
// ---------------------------------------------------------------------------

/// Backslashes and double quotes escaped for a TOML basic string.
pub open spec fn spec_toml_escape(s: Seq<char>) -> Seq<char> {
    replace_char(replace_char(s, '\\', seq!['\\', '\\']), '"', seq!['\\', '"'])
}

/// Backslashes and double quotes escaped for a TOML basic string.
pub fn toml_escape(value: &str) -> (res: String)
    ensures
        res@ == spec_toml_escape(value@),
{
    let cs = chars_of(value);
    let bs = vec!['\\', '\\'];
    let q = vec!['\\', '"'];
    assert(bs@ =~= seq!['\\', '\\']);
    assert(q@ =~= seq!['\\', '"']);
    let a = replace_chars(cs.as_slice(), '\\', bs.as_slice());
    let b = replace_chars(a.as_slice(), '"', q.as_slice());
    string_of(b.as_slice())
}

fn escaped_chars(value: &[char]) -> (res: Vec<char>)
    ensures
        res@ == spec_toml_escape(value@),
{
    let bs = vec!['\\', '\\'];
    let q = vec!['\\', '"'];
    assert(bs@ =~= seq!['\\', '\\']);
    assert(q@ =~= seq!['\\', '"']);
    let a = replace_chars(value, '\\', bs.as_slice());
    replace_chars(a.as_slice(), '"', q.as_slice())
}

pub open spec fn text_or(o: Option<Seq<char>>, d: Seq<char>) -> Seq<char> {
    match o {
        Some(s) => s,
        None => d,
    }
}

pub open spec fn nonempty_or(s: Seq<char>, d: Seq<char>) -> Seq<char> {
    if s.len() == 0 {
        d
    } else {
        s
    }
}

/// The `base_url` line, where the provider has a non-blank base URL.
pub open spec fn base_url_line(b: Option<Seq<char>>) -> Seq<char> {
    match b {
        Some(u) => if trim(u).len() > 0 {
            "base_url = \""@ + spec_toml_escape(trim(u)) + "\"\n"@
        } else {
            Seq::empty()
        },
        None => Seq::empty(),
    }
}

/// The `config.toml` of an API-key provider: the provider as `model_provider` with its
/// model (default `gpt-5.4`), reasoning effort (default `high`), wire API (default
/// `responses`) and base URL, and the features and plugins Codex expects.
pub open spec fn spec_api_key_config(p: Provider) -> Seq<char> {
    let id = trim(p.id);
    let model = nonempty_or(trim(text_or(p.model, "gpt-5.4"@)), "gpt-5.4"@);
    let reasoning = nonempty_or(trim(text_or(p.model_reasoning_effort, "high"@)), "high"@);
    let wire = nonempty_or(trim(text_or(p.wire_api, "responses"@)), "responses"@);
    "model_provider = \""@ + spec_toml_escape(id) + "\"\n"@ + "model = \""@ + spec_toml_escape(
        model,
    ) + "\"\n"@ + "model_reasoning_effort = \""@ + spec_toml_escape(reasoning) + "\"\n"@
        + "disable_response_storage = true\n\n"@ + "[model_providers]\n"@ + "[model_providers."@
        + id + "]\n"@ + "name = \""@ + spec_toml_escape(id) + "\"\n"@ + "wire_api = \""@
        + spec_toml_escape(wire) + "\"\n"@ + "requires_openai_auth = true\n"@ + base_url_line(
        p.base_url,
    ) + "\n[features]\nmulti_agent = true\n\n"@ + "[plugins]\n"@
        + "[plugins.\"github@openai-curated\"]\nenabled = true\n"@
}

/// The trimmed text of an optional string, or `default` where it is missing; and then
/// `default` again where the trimmed text is empty.
fn trimmed_or(o: &Option<String>, default: &str) -> (res: Vec<char>)
    ensures
        res@ == nonempty_or(trim(text_or(opt_text(*o), default@)), default@),
{
    let cs = match o {
        Some(s) => chars_of(s.as_str()),
        None => chars_of(default),
    };
    let t = trim_chars(cs.as_slice());
    if t.len() == 0 {
        chars_of(default)
    } else {
        t
    }
}

/// The `config.toml` of an API-key provider.
pub fn build_api_key_config(provider: &ProviderConfig) -> (res: String)
    ensures
        res@ == spec_api_key_config(provider@),
{
    let idc = chars_of(provider.id.as_str());
    let id = trim_chars(idc.as_slice());
    let model = trimmed_or(&provider.model, "gpt-5.4");
    let reasoning = trimmed_or(&provider.model_reasoning_effort, "high");
    let wire = trimmed_or(&provider.wire_api, "responses");
    let mut out: Vec<char> = Vec::new();
    append_str(&mut out, "model_provider = \"");
    append_chars(&mut out, escaped_chars(id.as_slice()).as_slice());
    append_str(&mut out, "\"\n");
    append_str(&mut out, "model = \"");
    append_chars(&mut out, escaped_chars(model.as_slice()).as_slice());
    append_str(&mut out, "\"\n");
    append_str(&mut out, "model_reasoning_effort = \"");
    append_chars(&mut out, escaped_chars(reasoning.as_slice()).as_slice());
    append_str(&mut out, "\"\n");
    append_str(&mut out, "disable_response_storage = true\n\n");
    append_str(&mut out, "[model_providers]\n");
    append_str(&mut out, "[model_providers.");
    append_chars(&mut out, id.as_slice());
    append_str(&mut out, "]\n");
    append_str(&mut out, "name = \"");
    append_chars(&mut out, escaped_chars(id.as_slice()).as_slice());
    append_str(&mut out, "\"\n");
    append_str(&mut out, "wire_api = \"");
    append_chars(&mut out, escaped_chars(wire.as_slice()).as_slice());
    append_str(&mut out, "\"\n");
    append_str(&mut out, "requires_openai_auth = true\n");
    let ghost before_url = out@;
    match &provider.base_url {
        Some(u) => {
            let uc = chars_of(u.as_str());
            let ut = trim_chars(uc.as_slice());
            if ut.len() > 0 {
                append_str(&mut out, "base_url = \"");
                append_chars(&mut out, escaped_chars(ut.as_slice()).as_slice());
                append_str(&mut out, "\"\n");
            }
        },
        None => {},
    }
    assert(out@ =~= before_url + base_url_line(opt_text(provider.base_url)));
    append_str(&mut out, "\n[features]\nmulti_agent = true\n\n");
    append_str(&mut out, "[plugins]\n");
    append_str(&mut out, "[plugins.\"github@openai-curated\"]\nenabled = true\n");
    assert(out@ =~= spec_api_key_config(provider@));
    string_of(out.as_slice())
}

/// Text that starts with `p` still does with more after it.
proof fn lemma_starts_append(s: Seq<char>, p: Seq<char>, r: Seq<char>)
    ensures
        starts_with(s, p) ==> starts_with(s + r, p),
{
    if starts_with(s, p) {
        assert((s + r).subrange(0, p.len() as int) =~= s.subrange(0, p.len() as int));
    }
}

proof fn lemma_starts_self(s: Seq<char>)
    ensures
        starts_with(s, s),
{
    assert(s.subrange(0, s.len() as int) =~= s);
}

/// Text that holds `n` still does with more after it.
proof fn lemma_contains_append(s: Seq<char>, n: Seq<char>, r: Seq<char>)
    ensures
        crate::text::contains_text(s, n) ==> crate::text::contains_text(s + r, n),
{
    if crate::text::contains_text(s, n) {
        let i = choose|i: int|
            0 <= i && i + n.len() <= s.len() && #[trigger] s.subrange(i, i + n.len()) == n;
        assert((s + r).subrange(i, i + n.len()) =~= s.subrange(i, i + n.len()));
    }
}

proof fn lemma_contains_end3(a: Seq<char>, x: Seq<char>, y: Seq<char>, z: Seq<char>)
    ensures
        crate::text::contains_text(a + x + y + z, x + y + z),
{
    let n = x + y + z;
    assert((a + x + y + z).subrange(a.len() as int, (a.len() + n.len()) as int) =~= n);
}

proof fn lemma_contains_end1(a: Seq<char>, x: Seq<char>)
    ensures
        crate::text::contains_text(a + x, x),
{
    assert((a + x).subrange(a.len() as int, (a.len() + x.len()) as int) =~= x);
}

/// What an API-key provider's `config.toml` says, over every provider: it opens with the
/// provider's trimmed ID as `model_provider` and then the `model` line, which holds the
/// provider's model, trimmed, where it has a non-blank one and `gpt-5.4` otherwise; it has
/// the line `model_reasoning_effort = "<effort>"` for a non-blank reasoning effort, the
/// line `wire_api = "<wire API>"` for a non-blank wire API, the line
/// `base_url = "<base URL>"` for a non-blank base URL, and the table
/// `[model_providers.<ID>]` (each value trimmed and escaped).
pub proof fn lemma_api_key_config_lines(p: Provider)
    ensures
        ({
            let cfg = spec_api_key_config(p);
            let head = "model_provider = \""@ + spec_toml_escape(trim(p.id)) + "\"\n"@;
            &&& (p.model matches Some(m) && trim(m).len() > 0) ==> starts_with(
                cfg,
                head + "model = \""@ + spec_toml_escape(trim(p.model.unwrap())) + "\"\n"@,
            )
            &&& !(p.model matches Some(m) && trim(m).len() > 0) ==> starts_with(
                cfg,
                head + "model = \""@ + spec_toml_escape("gpt-5.4"@) + "\"\n"@,
            )
            &&& (p.model_reasoning_effort matches Some(r) && trim(r).len() > 0)
                ==> crate::text::contains_text(
                cfg,
                "model_reasoning_effort = \""@ + spec_toml_escape(
                    trim(p.model_reasoning_effort.unwrap()),
                ) + "\"\n"@,
            )
            &&& (p.wire_api matches Some(w) && trim(w).len() > 0) ==> crate::text::contains_text(
                cfg,
                "wire_api = \""@ + spec_toml_escape(trim(p.wire_api.unwrap())) + "\"\n"@,
            )
            &&& (p.base_url matches Some(u) && trim(u).len() > 0) ==> crate::text::contains_text(
                cfg,
                "base_url = \""@ + spec_toml_escape(trim(p.base_url.unwrap())) + "\"\n"@,
            )
            &&& crate::text::contains_text(cfg, "[model_providers."@ + trim(p.id) + "]\n"@)
        }),
{
    let cfg = spec_api_key_config(p);
    let id = trim(p.id);
    let model = nonempty_or(trim(text_or(p.model, "gpt-5.4"@)), "gpt-5.4"@);
    let reasoning = nonempty_or(trim(text_or(p.model_reasoning_effort, "high"@)), "high"@);
    let wire = nonempty_or(trim(text_or(p.wire_api, "responses"@)), "responses"@);
    let x1 = "model_provider = \""@;
    let x2 = spec_toml_escape(id);
    let x3 = "\"\n"@;
    let x4 = "model = \""@;
    let x5 = spec_toml_escape(model);
    let x6 = "\"\n"@;
    let x7 = "model_reasoning_effort = \""@;
    let x8 = spec_toml_escape(reasoning);
    let x9 = "\"\n"@;
    let x10 = "disable_response_storage = true\n\n"@;
    let x11 = "[model_providers]\n"@;
    let x12 = "[model_providers."@;
    let x13 = id;
    let x14 = "]\n"@;
    let x15 = "name = \""@;
    let x16 = spec_toml_escape(id);
    let x17 = "\"\n"@;
    let x18 = "wire_api = \""@;
    let x19 = spec_toml_escape(wire);
    let x20 = "\"\n"@;
    let x21 = "requires_openai_auth = true\n"@;
    let x22 = base_url_line(p.base_url);
    let x23 = "\n[features]\nmulti_agent = true\n\n"@;
    let x24 = "[plugins]\n"@;
    let x25 = "[plugins.\"github@openai-curated\"]\nenabled = true\n"@;
    let c1 = x1;
    let c2 = c1 + x2;
    let c3 = c2 + x3;
    let c4 = c3 + x4;
    let c5 = c4 + x5;
    let c6 = c5 + x6;
    let c7 = c6 + x7;
    let c8 = c7 + x8;
    let c9 = c8 + x9;
    let c10 = c9 + x10;
    let c11 = c10 + x11;
    let c12 = c11 + x12;
    let c13 = c12 + x13;
    let c14 = c13 + x14;
    let c15 = c14 + x15;
    let c16 = c15 + x16;
    let c17 = c16 + x17;
    let c18 = c17 + x18;
    let c19 = c18 + x19;
    let c20 = c19 + x20;
    let c21 = c20 + x21;
    let c22 = c21 + x22;
    let c23 = c22 + x23;
    let c24 = c23 + x24;
    let c25 = c24 + x25;
    assert(cfg == c25);
    lemma_starts_self(c6);
    lemma_starts_append(c6, c6, x7);
    lemma_starts_append(c7, c6, x8);
    lemma_starts_append(c8, c6, x9);
    lemma_starts_append(c9, c6, x10);
    lemma_starts_append(c10, c6, x11);
    lemma_starts_append(c11, c6, x12);
    lemma_starts_append(c12, c6, x13);
    lemma_starts_append(c13, c6, x14);
    lemma_starts_append(c14, c6, x15);
    lemma_starts_append(c15, c6, x16);
    lemma_starts_append(c16, c6, x17);
    lemma_starts_append(c17, c6, x18);
    lemma_starts_append(c18, c6, x19);
    lemma_starts_append(c19, c6, x20);
    lemma_starts_append(c20, c6, x21);
    lemma_starts_append(c21, c6, x22);
    lemma_starts_append(c22, c6, x23);
    lemma_starts_append(c23, c6, x24);
    lemma_starts_append(c24, c6, x25);
    lemma_contains_end3(c6, x7, x8, x9);
    lemma_contains_append(c9, x7 + x8 + x9, x10);
    lemma_contains_append(c10, x7 + x8 + x9, x11);
    lemma_contains_append(c11, x7 + x8 + x9, x12);
    lemma_contains_append(c12, x7 + x8 + x9, x13);
    lemma_contains_append(c13, x7 + x8 + x9, x14);
    lemma_contains_append(c14, x7 + x8 + x9, x15);
    lemma_contains_append(c15, x7 + x8 + x9, x16);
    lemma_contains_append(c16, x7 + x8 + x9, x17);
    lemma_contains_append(c17, x7 + x8 + x9, x18);
    lemma_contains_append(c18, x7 + x8 + x9, x19);
    lemma_contains_append(c19, x7 + x8 + x9, x20);
    lemma_contains_append(c20, x7 + x8 + x9, x21);
    lemma_contains_append(c21, x7 + x8 + x9, x22);
    lemma_contains_append(c22, x7 + x8 + x9, x23);
    lemma_contains_append(c23, x7 + x8 + x9, x24);
    lemma_contains_append(c24, x7 + x8 + x9, x25);
    lemma_contains_end3(c17, x18, x19, x20);
    lemma_contains_append(c20, x18 + x19 + x20, x21);
    lemma_contains_append(c21, x18 + x19 + x20, x22);
    lemma_contains_append(c22, x18 + x19 + x20, x23);
    lemma_contains_append(c23, x18 + x19 + x20, x24);
    lemma_contains_append(c24, x18 + x19 + x20, x25);
    lemma_contains_end3(c11, x12, x13, x14);
    lemma_contains_append(c14, x12 + x13 + x14, x15);
    lemma_contains_append(c15, x12 + x13 + x14, x16);
    lemma_contains_append(c16, x12 + x13 + x14, x17);
    lemma_contains_append(c17, x12 + x13 + x14, x18);
    lemma_contains_append(c18, x12 + x13 + x14, x19);
    lemma_contains_append(c19, x12 + x13 + x14, x20);
    lemma_contains_append(c20, x12 + x13 + x14, x21);
    lemma_contains_append(c21, x12 + x13 + x14, x22);
    lemma_contains_append(c22, x12 + x13 + x14, x23);
    lemma_contains_append(c23, x12 + x13 + x14, x24);
    lemma_contains_append(c24, x12 + x13 + x14, x25);
    lemma_contains_end1(c21, x22);
    lemma_contains_append(c22, x22, x23);
    lemma_contains_append(c23, x22, x24);
    lemma_contains_append(c24, x22, x25);
    if !(p.model matches Some(m) && trim(m).len() > 0) {
        if p.model is None {
            reveal_strlit("gpt-5.4");
            crate::text::lemma_trim_plain("gpt-5.4"@);
        }
    }
}

/// The `config.toml` of Codex's own sign-in when nothing better is known.
pub open spec fn spec_default_official_config() -> Seq<char> {
    "model_provider = \"openai\"\nmodel = \"gpt-5.4\"\nmodel_reasoning_effort = \"medium\"\n\n[features]\nmulti_agent = true\n\n[plugins]\n[plugins.\"github@openai-curated\"]\nenabled = true\n"@
}

/// The `config.toml` of Codex's own sign-in when nothing better is known.
pub fn default_official_config() -> (res: String)
    ensures
        res@ == spec_default_official_config(),
{
    "model_provider = \"openai\"\nmodel = \"gpt-5.4\"\nmodel_reasoning_effort = \"medium\"\n\n[features]\nmulti_agent = true\n\n[plugins]\n[plugins.\"github@openai-curated\"]\nenabled = true\n".to_string()
}

// ---------------------------------------------------------------------------
// auth.json and config.toml contents
// ---------------------------------------------------------------------------

/// An `auth.json` of Codex's own ChatGPT sign-in: `auth_mode` is `chatgpt` and it holds
/// tokens.
pub open spec fn spec_is_chatgpt_auth(v: Json) -> bool {
    as_str(get(Some(v), "auth_mode"@)) == Some("chatgpt"@) && get(Some(v), "tokens"@) is Some
}

/// Whether an `auth.json` is that of Codex's own ChatGPT sign-in.
pub fn is_chatgpt_auth_json(value: &JsonValue) -> (res: bool)
    ensures
        res == spec_is_chatgpt_auth(value@),
{
    let is_chatgpt = match json_as_str(json_get(Some(value), "auth_mode")) {
        Some(m) => str_eq(m.as_str(), "chatgpt"),
        None => false,
    };
    let has_tokens = json_get(Some(value), "tokens").is_some();
    is_chatgpt && has_tokens
}

/// The provider brought in line with an `auth.json`: the built-in provider, or any
/// provider under a ChatGPT sign-in, is a ChatGPT provider without API key; any other
/// takes the file's `OPENAI_API_KEY` where it has one.
pub open spec fn spec_sync_from_auth(p: Provider, auth: Json) -> Provider {
    if p.id == openai_id() || spec_is_chatgpt_auth(auth) {
        Provider {
            auth_type: Some("chatgpt"@),
            requires_openai_auth: Some(false),
            api_key: None,
            ..p
        }
    } else {
        Provider {
            auth_type: Some("api_key"@),
            requires_openai_auth: Some(true),
            api_key: or_text(as_str(get(Some(auth), "OPENAI_API_KEY"@)), p.api_key),
            ..p
        }
    }
}

/// Brings the provider in line with an `auth.json`.
pub fn sync_provider_from_auth(provider: &mut ProviderConfig, auth: &JsonValue)
    ensures
        final(provider)@ == spec_sync_from_auth(old(provider)@, auth@),
{
    if str_eq(provider.id.as_str(), "openai") || is_chatgpt_auth_json(auth) {
        provider.auth_type = Some("chatgpt".to_string());
        provider.requires_openai_auth = Some(false);
        provider.api_key = None;
        return ;
    }
    provider.auth_type = Some("api_key".to_string());
    provider.requires_openai_auth = Some(true);
    let key = match json_as_str(json_get(Some(auth), "OPENAI_API_KEY")) {
        Some(k) => Some(k.clone()),
        None => None,
    };
    let old_key = clone_text(&provider.api_key);
    provider.api_key = or_string(key, old_key);
}

/// `model_provider` of a `config.toml`.
pub open spec fn spec_current_provider(doc: Seq<(Seq<char>, Toml)>) -> Option<Seq<char>> {
    item_str(lookup(doc, "model_provider"@))
}

/// `model_provider` of a `config.toml`.
pub fn current_provider_from_document(document: &Vec<(String, TomlItem)>) -> (res: Option<String>)
    ensures
        opt_text(res) == spec_current_provider(table_view(document@)),
{
    match toml_item_str(toml_lookup(document, "model_provider")) {
        Some(s) => Some(s.clone()),
        None => None,
    }
}

fn document_string(document: &Vec<(String, TomlItem)>, key: &str) -> (res: Option<String>)
    ensures
        opt_text(res) == item_str(lookup(table_view(document@), key@)),
{
    match toml_item_str(toml_lookup(document, key)) {
        Some(s) => Some(s.clone()),
        None => None,
    }
}

/// The provider brought in line with a `config.toml`: model and reasoning effort where
/// the file sets them; the built-in provider becomes a ChatGPT provider; any other becomes
/// an API-key provider and takes base URL, wire API and `requires_openai_auth` from its
/// `[model_providers.<id>]` table where that sets them.
pub open spec fn spec_sync_from_document(p: Provider, doc: Seq<(Seq<char>, Toml)>) -> Provider {
    let p1 = Provider {
        model: or_text(item_str(lookup(doc, "model"@)), p.model),
        model_reasoning_effort: or_text(
            item_str(lookup(doc, "model_reasoning_effort"@)),
            p.model_reasoning_effort,
        ),
        ..p
    };
    if p.id == openai_id() {
        Provider { auth_type: Some("chatgpt"@), requires_openai_auth: Some(false), ..p1 }
    } else {
        let p2 = Provider { auth_type: Some("api_key"@), requires_openai_auth: Some(true), ..p1 };
        match as_table(
            match as_table(lookup(doc, "model_providers"@)) {
                Some(t) => lookup(t, p.id),
                None => None,
            },
        ) {
            Some(t) => Provider {
                base_url: or_text(item_str(lookup(t, "base_url"@)), p2.base_url),
                wire_api: or_text(item_str(lookup(t, "wire_api"@)), p2.wire_api),
                requires_openai_auth: match item_bool(lookup(t, "requires_openai_auth"@)) {
                    Some(b) => Some(b),
                    None => p2.requires_openai_auth,
                },
                ..p2
            },
            None => p2,
        }
    }
}

/// Brings the provider in line with a `config.toml`.
pub fn sync_provider_from_document(provider: &mut ProviderConfig, document: &Vec<(String, TomlItem)>)
    ensures
        final(provider)@ == spec_sync_from_document(old(provider)@, table_view(document@)),
{
    let m = document_string(document, "model");
    let old_model = clone_text(&provider.model);
    provider.model = or_string(m, old_model);
    let e = document_string(document, "model_reasoning_effort");
    let old_effort = clone_text(&provider.model_reasoning_effort);
    provider.model_reasoning_effort = or_string(e, old_effort);
    if str_eq(provider.id.as_str(), "openai") {
        provider.auth_type = Some("chatgpt".to_string());
        provider.requires_openai_auth = Some(false);
        return ;
    }
    provider.auth_type = Some("api_key".to_string());
    provider.requires_openai_auth = Some(true);
    let providers_table = toml_as_table(toml_lookup(document, "model_providers"));
    let table = match providers_table {
        Some(t) => toml_as_table(toml_lookup(t, provider.id.as_str())),
        None => None,
    };
    if let Some(t) = table {
        let b = document_string(t, "base_url");
        let old_b = clone_text(&provider.base_url);
        provider.base_url = or_string(b, old_b);
        let w = document_string(t, "wire_api");
        let old_w = clone_text(&provider.wire_api);
        provider.wire_api = or_string(w, old_w);
        match toml_item_bool(toml_lookup(t, "requires_openai_auth")) {
            Some(r) => {
                provider.requires_openai_auth = Some(r);
            },
            None => {},
        }
    }
}

/// What a `config.toml` brings into a provider, over every provider and document: a
/// string `model` or `model_reasoning_effort` in the document replaces the provider's
/// (which stays where the document has none); the ID, name, API key and snapshots stay;
/// `openai` is marked a ChatGPT provider that needs no OpenAI auth, any other an API-key
/// provider, whose base URL, wire API and `requires_openai_auth` come from its table under
/// `model_providers` where that table sets them.
pub proof fn lemma_sync_takes_the_document(p: Provider, doc: Seq<(Seq<char>, Toml)>)
    ensures
        ({
            let r = spec_sync_from_document(p, doc);
            let t = as_table(
                match as_table(lookup(doc, "model_providers"@)) {
                    Some(ps) => lookup(ps, p.id),
                    None => None,
                },
            );
            &&& item_str(lookup(doc, "model"@)) is Some ==> r.model == item_str(
                lookup(doc, "model"@),
            )
            &&& (item_str(lookup(doc, "model"@)) is None ==> r.model == p.model)
            &&& item_str(lookup(doc, "model_reasoning_effort"@)) is Some
                ==> r.model_reasoning_effort == item_str(lookup(doc, "model_reasoning_effort"@))
            &&& (item_str(lookup(doc, "model_reasoning_effort"@)) is None
                ==> r.model_reasoning_effort == p.model_reasoning_effort)
            &&& r.id == p.id && r.name == p.name && r.api_key == p.api_key
            &&& r.auth_json == p.auth_json && r.config_toml == p.config_toml
            &&& p.id == "openai"@ ==> {
                &&& r.auth_type == Some("chatgpt"@)
                &&& r.requires_openai_auth == Some(false)
                &&& r.base_url == p.base_url
                &&& r.wire_api == p.wire_api
            }
            &&& p.id != "openai"@ ==> {
                &&& r.auth_type == Some("api_key"@)
                &&& (t is Some && item_str(lookup(t.unwrap(), "base_url"@)) is Some) ==> r.base_url
                    == item_str(lookup(t.unwrap(), "base_url"@))
                &&& !(t is Some && item_str(lookup(t.unwrap(), "base_url"@)) is Some)
                    ==> r.base_url == p.base_url
                &&& (t is Some && item_str(lookup(t.unwrap(), "wire_api"@)) is Some) ==> r.wire_api
                    == item_str(lookup(t.unwrap(), "wire_api"@))
                &&& !(t is Some && item_str(lookup(t.unwrap(), "wire_api"@)) is Some)
                    ==> r.wire_api == p.wire_api
                &&& (t is Some && item_bool(lookup(t.unwrap(), "requires_openai_auth"@)) is Some)
                    ==> r.requires_openai_auth == item_bool(
                    lookup(t.unwrap(), "requires_openai_auth"@),
                )
                &&& !(t is Some && item_bool(lookup(t.unwrap(), "requires_openai_auth"@)) is Some)
                    ==> r.requires_openai_auth == Some(true)
            }
        }),
{
}


/// What the Codex directory holds, as mathematical values.
pub struct Live {
    pub config_text: Option<Seq<char>>,
    pub config: Option<Seq<(Seq<char>, Toml)>>,
    pub auth: Option<Json>,
}

impl View for LiveFiles {
    type V = Live;

    open spec fn view(&self) -> Live {
        Live {
            config_text: opt_text(self.config_text),
            config: opt_table(self.config),
            auth: opt_json(self.auth),
        }
    }
}

/// What `config.toml` holds as toml_edit parses it, where its text could be read and
/// parses.
pub open spec fn parsed_config(text: Option<Seq<char>>) -> Option<Seq<(Seq<char>, Toml)>> {
    match text {
        Some(t) => if toml_accepts(t) {
            Some(toml_text_table(t))
        } else {
            None
        },
        None => None,
    }
}

/// What the Codex directory holds: the text of `config.toml` where it could be read, with
/// its parse, and `auth.json` read as JSON.
pub fn live_files(config_text: Option<String>, auth_text: Option<String>) -> (res: LiveFiles)
    ensures
        res@ == (Live {
            config_text: opt_text(config_text),
            config: parsed_config(opt_text(config_text)),
            auth: match auth_text {
                Some(t) => crate::json::json_parsed(t@),
                None => None,
            },
        }),
{
    let config = match &config_text {
        Some(t) => crate::toml_doc::parse_toml(t.as_str()),
        None => None,
    };
    let auth = match &auth_text {
        Some(t) => crate::json::parse_json(t.as_str()),
        None => None,
    };
    LiveFiles { config_text, config, auth }
}

/// The provider `config.toml` names, where it can be read.
pub open spec fn live_current(live: Live) -> Option<Seq<char>> {
    match live.config {
        Some(d) => spec_current_provider(d),
        None => None,
    }
}

/// The provider in use, taken to be `openai` where `config.toml` does not say.
pub open spec fn current_or_openai(live: Live) -> Seq<char> {
    text_or(live_current(live), openai_id())
}

/// `auth.json` where it is that of a ChatGPT sign-in.
pub open spec fn live_chatgpt_auth(live: Live) -> Option<Json> {
    match live.auth {
        Some(a) => if spec_is_chatgpt_auth(a) {
            Some(a)
        } else {
            None
        },
        None => None,
    }
}

/// `config.toml` where it is that of the built-in provider.
pub open spec fn live_official_config(live: Live) -> Option<Seq<char>> {
    match (live.config_text, live.config) {
        (Some(t), Some(d)) => if spec_current_provider(d) == Some(openai_id()) {
            Some(t)
        } else {
            None
        },
        _ => None,
    }
}

/// The provider in use, as `config.toml` names it.
pub fn current_provider(live: &LiveFiles) -> (res: Option<String>)
    ensures
        opt_text(res) == live_current(live@),
{
    match &live.config {
        Some(d) => current_provider_from_document(d),
        None => None,
    }
}

fn current_or_openai_exec(live: &LiveFiles) -> (res: String)
    ensures
        res@ == current_or_openai(live@),
{
    match current_provider(live) {
        Some(c) => c,
        None => "openai".to_string(),
    }
}

/// The trimmed text where something is left.
pub open spec fn nonblank(o: Option<Seq<char>>) -> Option<Seq<char>> {
    match o {
        Some(s) => if trim(s).len() > 0 {
            Some(trim(s))
        } else {
            None
        },
        None => None,
    }
}

fn nonblank_exec(o: &Option<String>) -> (res: Option<String>)
    ensures
        opt_text(res) == nonblank(opt_text(*o)),
{
    match o {
        Some(s) => {
            let cs = chars_of(s.as_str());
            let t = trim_chars(cs.as_slice());
            if t.len() > 0 {
                Some(string_of(t.as_slice()))
            } else {
                None
            }
        },
        None => None,
    }
}

/// How the official `config.toml` of a provider is made: the text it starts from, and
/// the model and reasoning effort it sets.
pub struct OfficialConfigPlan {
    pub source: String,
    pub model: Option<String>,
    pub model_reasoning_effort: Option<String>,
}

/// The official config starts from the provider's own snapshot, else from the
/// `config.toml` in use if that is the built-in provider's, else from the default; it
/// sets the provider's model and reasoning effort where they are not blank.
pub open spec fn plan_source(p: Provider, live: Live) -> Seq<char> {
    text_or(or_text(p.config_toml, live_official_config(live)), spec_default_official_config())
}

pub open spec fn plan_matches(plan: OfficialConfigPlan, p: Provider, live: Live) -> bool {
    &&& plan.source@ == plan_source(p, live)
    &&& opt_text(plan.model) == nonblank(p.model)
    &&& opt_text(plan.model_reasoning_effort) == nonblank(p.model_reasoning_effort)
}

/// How the official `config.toml` of a provider is made.
pub fn official_config_plan(provider: &ProviderConfig, live: &LiveFiles) -> (res: OfficialConfigPlan)
    ensures
        plan_matches(res, provider@, live@),
{
    let live_official = match (&live.config_text, &live.config) {
        (Some(t), Some(d)) => match current_provider_from_document(d) {
            Some(c) => if str_eq(c.as_str(), "openai") {
                Some(t.clone())
            } else {
                None
            },
            None => None,
        },
        _ => None,
    };
    let source = match or_string(clone_text(&provider.config_toml), live_official) {
        Some(s) => s,
        None => default_official_config(),
    };
    OfficialConfigPlan {
        source,
        model: nonblank_exec(&provider.model),
        model_reasoning_effort: nonblank_exec(&provider.model_reasoning_effort),
    }
}

/// The text a rewrite of the official config starts from: `source` where toml_edit
/// accepts it, else the default config.
pub open spec fn official_base(source: Seq<char>) -> Seq<char> {
    if toml_accepts(source) {
        source
    } else {
        spec_default_official_config()
    }
}

/// The root table after the rewrite: `model_providers` gone, `model_provider` set to
/// `openai`, then `model` and `model_reasoning_effort` set where they are given; the
/// other entries as they were.
pub open spec fn official_table(
    base: Seq<(Seq<char>, Toml)>,
    model: Option<Seq<char>>,
    effort: Option<Seq<char>>,
) -> Seq<(Seq<char>, Toml)> {
    let t1 = table_with(table_without(base, "model_providers"@), "model_provider"@, Toml::Str(openai_id()));
    let t2 = match model {
        Some(m) => table_with(t1, "model"@, Toml::Str(m)),
        None => t1,
    };
    match effort {
        Some(e) => table_with(t2, "model_reasoning_effort"@, Toml::Str(e)),
        None => t2,
    }
}

/// `text` is toml_edit's rendering of the document parsed from `source` (or from the
/// default config, where `source` does not parse) after the rewrite: its root table as
/// `official_table` says.
pub open spec fn official_rendering(
    text: Seq<char>,
    source: Seq<char>,
    model: Option<Seq<char>>,
    effort: Option<Seq<char>>,
) -> bool {
    exists|d: toml_edit::DocumentMut|
        {
            &&& toml_doc_text(d) == text
            &&& toml_doc_table(d) == official_table(toml_text_table(official_base(source)), model, effort)
        }
}

/// The official `config.toml`: the plan's source (or the default, where the source does
/// not parse) without its `[model_providers]`, with `model_provider = "openai"` and the
/// plan's model and reasoning effort. It fails only where neither text parses.
pub fn render_official_config(plan: &OfficialConfigPlan) -> (res: Result<String, ProviderError>)
    ensures
        res is Err <==> (!toml_accepts(plan.source@) && !toml_accepts(spec_default_official_config())),
        res matches Err(e) ==> e is DefaultConfigUnparsable,
        res matches Ok(t) ==> official_rendering(
            t@,
            plan.source@,
            opt_text(plan.model),
            opt_text(plan.model_reasoning_effort),
        ),
{
    let mut doc = match toml_parse_document(plan.source.as_str()) {
        Some(d) => d,
        None => {
            let fallback = default_official_config();
            match toml_parse_document(fallback.as_str()) {
                Some(d) => d,
                None => {
                    return Err(ProviderError::DefaultConfigUnparsable);
                },
            }
        },
    };
    let ghost base = official_base(plan.source@);
    assert(toml_doc_table(doc) == toml_text_table(base));
    toml_doc_remove(&mut doc, "model_providers");
    toml_doc_put(&mut doc, "model_provider", toml_str_item("openai"));
    if let Some(m) = &plan.model {
        toml_doc_put(&mut doc, "model", toml_str_item(m.as_str()));
    }
    if let Some(e) = &plan.model_reasoning_effort {
        toml_doc_put(&mut doc, "model_reasoning_effort", toml_str_item(e.as_str()));
    }
    let text = toml_render(&doc);
    proof {
        let m = opt_text(plan.model);
        let e = opt_text(plan.model_reasoning_effort);
        assert(toml_doc_table(doc) == official_table(toml_text_table(base), m, e));
        assert(toml_doc_text(doc) == text@);
    }
    Ok(text)
}

/// The `auth.json` of a ChatGPT provider that has none of its own.
pub open spec fn chatgpt_auth_placeholder() -> Json {
    Json::Object(seq![("OPENAI_API_KEY"@, Json::Null), ("auth_mode"@, Json::Str("chatgpt"@))])
}

/// The `auth.json` of an API-key provider.
pub open spec fn api_key_auth(key: Seq<char>) -> Json {
    Json::Object(seq![("OPENAI_API_KEY"@, Json::Str(key))])
}

/// Whether a provider signs in through ChatGPT (a missing auth type means an API key).
pub open spec fn is_chatgpt_provider(p: Provider) -> bool {
    text_or(p.auth_type, "api_key"@) == "chatgpt"@
}

/// The `auth.json` snapshot a provider gets: for a ChatGPT provider its own ChatGPT
/// `auth.json`, else the one in use where that is a ChatGPT one, else a placeholder; for
/// an API-key provider one holding its key (empty where it has none).
pub open spec fn live_auth_for(p: Provider, live: Live) -> Json {
    if is_chatgpt_provider(p) {
        match p.auth_json {
            Some(a) => if spec_is_chatgpt_auth(a) {
                a
            } else {
                match live_chatgpt_auth(live) {
                    Some(l) => l,
                    None => chatgpt_auth_placeholder(),
                }
            },
            None => match live_chatgpt_auth(live) {
                Some(l) => l,
                None => chatgpt_auth_placeholder(),
            },
        }
    } else {
        api_key_auth(text_or(p.api_key, Seq::empty()))
    }
}

/// Filling in a ChatGPT provider's snapshots fails: neither its config source nor the
/// default config parses.
pub open spec fn fill_fails(p: Provider, live: Live) -> bool {
    is_chatgpt_provider(p) && !toml_accepts(plan_source(p, live)) && !toml_accepts(
        spec_default_official_config(),
    )
}

/// `r` is `p` with both snapshots filled in: the `auth.json` as `live_auth_for` says, and
/// the `config.toml` built for an API-key provider, or rendered from the official plan
/// for a ChatGPT provider.
pub open spec fn filled(p: Provider, live: Live, r: Provider) -> bool {
    &&& r.config_toml is Some
    &&& r == Provider { auth_json: Some(live_auth_for(p, live)), config_toml: r.config_toml, ..p }
    &&& if is_chatgpt_provider(p) {
        official_rendering(
            r.config_toml.unwrap(),
            plan_source(p, live),
            nonblank(p.model),
            nonblank(p.model_reasoning_effort),
        )
    } else {
        r.config_toml == Some(spec_api_key_config(p))
    }
}

fn json_text(s: &str) -> (res: JsonValue)
    ensures
        res@ == Json::Str(s@),
{
    JsonValue::Str(s.to_string())
}

fn chatgpt_placeholder_json() -> (res: JsonValue)
    ensures
        res@ == chatgpt_auth_placeholder(),
{
    let mut entries: Vec<(String, JsonValue)> = Vec::new();
    entries.push(("OPENAI_API_KEY".to_string(), JsonValue::Null));
    entries.push(("auth_mode".to_string(), json_text("chatgpt")));
    let res = JsonValue::Object(entries);
    assert(entries@.len() == 2);
    assert(entries@[0].0@ == "OPENAI_API_KEY"@);
    assert(json_view(entries@[0].1) == Json::Null);
    assert(json_view(entries@[1].1) == Json::Str("chatgpt"@));
    assert(res@ == chatgpt_auth_placeholder()) by {
        if let Json::Object(e) = res@ {
            assert(e =~= seq![("OPENAI_API_KEY"@, Json::Null), ("auth_mode"@, Json::Str("chatgpt"@))]);
        }
    }
    res
}

fn api_key_json(key: &Option<String>) -> (res: JsonValue)
    ensures
        res@ == api_key_auth(text_or(opt_text(*key), Seq::empty())),
{
    let k = match key {
        Some(k) => k.clone(),
        None => String::new(),
    };
    let mut entries: Vec<(String, JsonValue)> = Vec::new();
    entries.push(("OPENAI_API_KEY".to_string(), JsonValue::Str(k)));
    let res = JsonValue::Object(entries);
    assert(entries@.len() == 1);
    assert(json_view(entries@[0].1) == Json::Str(text_or(opt_text(*key), Seq::empty())));
    assert(res@ == api_key_auth(text_or(opt_text(*key), Seq::empty()))) by {
        if let Json::Object(e) = res@ {
            assert(e =~= seq![("OPENAI_API_KEY"@, Json::Str(text_or(opt_text(*key), Seq::empty())))]);
        }
    }
    res
}

fn is_chatgpt_provider_exec(p: &ProviderConfig) -> (res: bool)
    ensures
        res == is_chatgpt_provider(p@),
{
    match &p.auth_type {
        Some(t) => str_eq(t.as_str(), "chatgpt"),
        None => {
            proof {
                assert("api_key"@ != "chatgpt"@) by {
                    reveal_strlit("api_key");
                    reveal_strlit("chatgpt");
                    assert("api_key"@[0] != "chatgpt"@[0]);
                }
            }
            false
        },
    }
}

/// The provider with both snapshots filled in from its settings and the files in use.
pub fn with_live_files(provider: ProviderConfig, live: &LiveFiles) -> (res: Result<ProviderConfig, ProviderError>)
    ensures
        res is Err <==> fill_fails(provider@, live@),
        res matches Err(e) ==> e is DefaultConfigUnparsable,
        res matches Ok(r) ==> filled(provider@, live@, r@),
{
    let mut provider = provider;
    let ghost p0 = provider@;
    let chatgpt = is_chatgpt_provider_exec(&provider);
    let auth = if chatgpt {
        let own = match &provider.auth_json {
            Some(a) => if is_chatgpt_auth_json(a) {
                Some(a.clone())
            } else {
                None
            },
            None => None,
        };
        match own {
            Some(a) => a,
            None => {
                let current = match &live.auth {
                    Some(a) => if is_chatgpt_auth_json(a) {
                        Some(a.clone())
                    } else {
                        None
                    },
                    None => None,
                };
                match current {
                    Some(a) => a,
                    None => chatgpt_placeholder_json(),
                }
            },
        }
    } else {
        api_key_json(&provider.api_key)
    };
    let config = if chatgpt {
        let plan = official_config_plan(&provider, live);
        match render_official_config(&plan) {
            Ok(t) => t,
            Err(e) => {
                return Err(e);
            },
        }
    } else {
        build_api_key_config(&provider)
    };
    provider.auth_json = Some(auth);
    provider.config_toml = Some(config);
    Ok(provider)
}

/// The provider in use brought in line with the files in use.
pub open spec fn captured(p: Provider, live: Live) -> Provider {
    let p1 = match live.config_text {
        Some(t) => {
            let p0 = match live.config {
                Some(d) => spec_sync_from_document(p, d),
                None => p,
            };
            Provider { config_toml: Some(t), ..p0 }
        },
        None => p,
    };
    match live.auth {
        Some(a) => Provider { auth_json: Some(a), ..spec_sync_from_auth(p1, a) },
        None => p1,
    }
}

/// The list with the provider in use (the first with its ID) brought in line with the
/// files in use.
pub open spec fn spec_capture(s: Seq<Provider>, live: Live) -> Seq<Provider> {
    match index_of_id(s, current_or_openai(live)) {
        Some(i) => s.update(i, captured(s[i], live)),
        None => s,
    }
}

/// Brings the provider in use up to date with the files in use.
pub fn capture_current_live_config(providers: &mut Vec<ProviderConfig>, live: &LiveFiles)
    ensures
        views(final(providers)@) == spec_capture(views(old(providers)@), live@),
{
    let ghost s = views(providers@);
    proof {
        lemma_index_of_id(s, current_or_openai(live@));
    }
    let current = current_or_openai_exec(live);
    match position_of_id(providers, current.as_str()) {
        None => {},
        Some(i) => {
            let mut p = providers[i].clone();
            if let Some(t) = &live.config_text {
                if let Some(d) = &live.config {
                    sync_provider_from_document(&mut p, d);
                }
                p.config_toml = Some(t.clone());
            }
            if let Some(a) = &live.auth {
                sync_provider_from_auth(&mut p, a);
                p.auth_json = Some(a.clone());
            }
            providers.set(i, p);
            assert(views(providers@) =~= s.update(i as int, captured(s[i as int], live@)));
        },
    }
}


// ---------------------------------------------------------------------------
// Provider operations
// ---------------------------------------------------------------------------

/// A provider lacks one of its snapshots.
pub open spec fn lacks_snapshot(p: Provider) -> bool {
    p.auth_json is None || p.config_toml is None
}

/// Whether the snapshots of `p` are filled in: every provider lacking one, or only the
/// one named `only`.
pub open spec fn wants_fill(p: Provider, only: Option<Seq<char>>) -> bool {
    lacks_snapshot(p) && match only {
        Some(id) => p.id == id,
        None => true,
    }
}

/// `post` is `pre` with the snapshots filled in where `wants_fill` says.
pub open spec fn filled_list(
    pre: Seq<Provider>,
    post: Seq<Provider>,
    live: Live,
    only: Option<Seq<char>>,
) -> bool {
    &&& post.len() == pre.len()
    &&& forall|i: int|
        0 <= i < pre.len() ==> if wants_fill(pre[i], only) {
            filled(pre[i], live, #[trigger] post[i])
        } else {
            post[i] == pre[i]
        }
}

/// Filling in fails for one of the providers of `pre`.
pub open spec fn some_fill_fails(pre: Seq<Provider>, live: Live, only: Option<Seq<char>>) -> bool {
    exists|i: int| 0 <= i < pre.len() && wants_fill(#[trigger] pre[i], only) && fill_fails(pre[i], live)
}

fn lacks_snapshot_exec(p: &ProviderConfig) -> (res: bool)
    ensures
        res == lacks_snapshot(p@),
{
    p.auth_json.is_none() || p.config_toml.is_none()
}

/// Fills in the snapshots of the providers that lack one (of the one named `only`,
/// where it is given).
fn fill_snapshots(providers: &mut Vec<ProviderConfig>, live: &LiveFiles, only: Option<&str>) -> (res:
    Result<(), ProviderError>)
    ensures
        res is Err <==> some_fill_fails(
            views(old(providers)@),
            live@,
            match only {
                Some(o) => Some(o@),
                None => None,
            },
        ),
        res matches Err(e) ==> e is DefaultConfigUnparsable,
        res is Ok ==> filled_list(
            views(old(providers)@),
            views(final(providers)@),
            live@,
            match only {
                Some(o) => Some(o@),
                None => None,
            },
        ),
{
    let ghost pre = views(providers@);
    let ghost sel = match only {
        Some(o) => Some(o@),
        None => None,
    };
    let mut i: usize = 0;
    while i < providers.len()
        invariant
            i <= providers.len() == pre.len(),
            pre == views(old(providers)@),
            sel == match only {
                Some(o) => Some(o@),
                None => None,
            },
            forall|k: int| 0 <= k < i ==> !(wants_fill(pre[k], sel) && fill_fails(pre[k], live@)),
            forall|k: int|
                0 <= k < i ==> if wants_fill(pre[k], sel) {
                    filled(pre[k], live@, #[trigger] views(providers@)[k])
                } else {
                    views(providers@)[k] == pre[k]
                },
            forall|k: int| i <= k < providers.len() ==> #[trigger] views(providers@)[k] == pre[k],
        decreases pre.len() - i,
    {
        let selected = match only {
            Some(o) => str_eq(providers[i].id.as_str(), o),
            None => true,
        };
        assert(views(providers@)[i as int] == pre[i as int]);
        assert(providers@[i as int]@ == pre[i as int]);
        let want = selected && lacks_snapshot_exec(&providers[i]);
        assert(want == wants_fill(pre[i as int], sel));
        if want {
            let p = providers[i].clone();
            match with_live_files(p, live) {
                Ok(r) => {
                    let ghost before = views(providers@);
                    providers.set(i, r);
                    assert(views(providers@) =~= before.update(i as int, r@));
                },
                Err(e) => {
                    assert(wants_fill(pre[i as int], sel) && fill_fails(pre[i as int], live@));
                    assert(some_fill_fails(pre, live@, sel));
                    return Err(e);
                },
            }
        }
        i += 1;
    }
    assert(views(providers@).len() == pre.len());
    Ok(())
}

/// The providers with their snapshots left out, as they are shown.
pub open spec fn without_snapshots(s: Seq<Provider>) -> Seq<Provider> {
    s.map_values(|p: Provider| Provider { auth_json: None, config_toml: None, ..p })
}

fn strip_snapshots(p: &ProviderConfig) -> (res: ProviderConfig)
    ensures
        res@ == (Provider { auth_json: None, config_toml: None, ..p@ }),
{
    let mut r = p.clone();
    r.auth_json = None;
    r.config_toml = None;
    r
}

/// The list before snapshots are filled in: the store with the built-in provider first,
/// the provider in use added second where the store lacks it, then brought in line with
/// the files in use.
pub open spec fn list_prefill(stored: Option<Seq<Provider>>, live: Live) -> Seq<Provider> {
    let current = current_or_openai(live);
    let s1 = spec_ensure_builtin_openai(spec_read_provider_store(stored));
    let s2 = if current != openai_id() && index_of_id(s1, current) is None {
        s1.insert(1, spec_default_api_key_provider(current))
    } else {
        s1
    };
    spec_capture(s2, live)
}

/// The provider list and what is shown of it.
#[derive(Debug)]
pub struct ProviderListing {
    /// The list to store.
    pub store: Vec<ProviderConfig>,
    /// The list as shown: the store without snapshots.
    pub visible: Vec<ProviderConfig>,
}

pub open spec fn stored_views(stored: Option<Vec<ProviderConfig>>) -> Option<Seq<Provider>> {
    match stored {
        Some(s) => Some(views(s@)),
        None => None,
    }
}

proof fn lemma_ensure_nonempty(s: Seq<Provider>)
    ensures
        spec_ensure_builtin_openai(s).len() >= 1,
{
    lemma_index_of_id(s, openai_id());
}

/// Lists the providers: the store as read, with the built-in provider and the provider in
/// use, brought in line with the files in use, every missing snapshot filled in, sorted;
/// and what is shown of it.
pub fn list_providers_impl(stored: Option<Vec<ProviderConfig>>, live: &LiveFiles) -> (res: Result<
    ProviderListing,
    ProviderError,
>)
    ensures
        res is Err <==> some_fill_fails(list_prefill(stored_views(stored), live@), live@, None),
        res matches Ok(l) ==> exists|post: Seq<Provider>|
            {
                &&& filled_list(list_prefill(stored_views(stored), live@), post, live@, None)
                &&& views(l.store@) == spec_sort_providers(post)
                &&& views(l.visible@) == without_snapshots(views(l.store@))
            },
{
    let ghost sv = stored_views(stored);
    let current = current_or_openai_exec(live);
    let mut providers = read_provider_store(stored);
    ensure_builtin_openai(&mut providers);
    proof {
        lemma_ensure_nonempty(spec_read_provider_store(sv));
        lemma_index_of_id(views(providers@), current@);
    }
    if !str_eq(current.as_str(), "openai") && position_of_id(&providers, current.as_str()).is_none() {
        let ghost before = views(providers@);
        providers.insert(1, default_api_key_provider(current));
        assert(views(providers@) =~= before.insert(1, spec_default_api_key_provider(current_or_openai(live@))));
    }
    capture_current_live_config(&mut providers, live);
    let ghost pre = views(providers@);
    assert(pre == list_prefill(sv, live@));
    match fill_snapshots(&mut providers, live, None) {
        Ok(()) => {},
        Err(e) => {
            return Err(e);
        },
    }
    let ghost post = views(providers@);
    sort_providers(&mut providers);
    let mut visible: Vec<ProviderConfig> = Vec::new();
    let mut i: usize = 0;
    while i < providers.len()
        invariant
            i <= providers.len(),
            views(visible@) == without_snapshots(views(providers@)).take(i as int),
        decreases providers.len() - i,
    {
        let v = strip_snapshots(&providers[i]);
        let ghost prev = visible@;
        visible.push(v);
        i += 1;
        proof {
            let target = without_snapshots(views(providers@)).take(i as int);
            assert(visible@ == prev.push(v));
            assert(views(prev).len() == prev.len());
            assert(target.len() == i);
            assert forall|k: int| 0 <= k < i implies views(visible@)[k] == target[k] by {
                if k < i - 1 {
                    assert(visible@[k] == prev[k]);
                    assert(views(prev)[k] == without_snapshots(views(providers@)).take(i - 1)[k]);
                }
            }
            assert(views(visible@) =~= target);
        }
    }
    assert(without_snapshots(views(providers@)).take(i as int) =~= without_snapshots(
        views(providers@),
    ));
    Ok(ProviderListing { store: providers, visible })
}


proof fn lemma_index_exists(s: Seq<Provider>, id: Seq<char>)
    ensures
        index_of_id(s, id) is Some <==> exists|k: int| 0 <= k < s.len() && (#[trigger] s[k]).id == id,
{
    lemma_index_of_id(s, id);
    if index_of_id(s, id) is Some {
        let i = index_of_id(s, id).unwrap();
        assert(s[i].id == id);
    }
}

proof fn lemma_sort_members(s: Seq<Provider>)
    ensures
        spec_sort_providers(s).len() == s.len(),
        forall|k: int|
            0 <= k < s.len() ==> exists|j: int|
                0 <= j < s.len() && #[trigger] spec_sort_providers(s)[j] == #[trigger] s[k],
    decreases s.len(),
{
    if s.len() > 0 {
        let t = s.drop_last();
        lemma_sort_members(t);
        let sorted = spec_sort_providers(t);
        let x = s.last();
        lemma_provider_position_range(sorted, x);
        let pos = provider_position(sorted, x);
        let r = sorted.insert(pos, x);
        assert(spec_sort_providers(s) == r);
        assert forall|k: int| 0 <= k < s.len() implies exists|j: int|
            0 <= j < s.len() && #[trigger] spec_sort_providers(s)[j] == #[trigger] s[k] by {
            if k == s.len() - 1 {
                assert(r[pos] == x);
                assert(spec_sort_providers(s)[pos] == s[k]);
            } else {
                assert(s[k] == t[k]);
                let j0 = choose|j: int| 0 <= j < t.len() && #[trigger] spec_sort_providers(t)[j] == #[trigger] t[k];
                if j0 < pos {
                    assert(r[j0] == sorted[j0]);
                    assert(spec_sort_providers(s)[j0] == s[k]);
                } else {
                    assert(r[j0 + 1] == sorted[j0]);
                    assert(spec_sort_providers(s)[j0 + 1] == s[k]);
                }
            }
        }
    }
}

proof fn lemma_provider_position_range(sorted: Seq<Provider>, x: Provider)
    ensures
        0 <= provider_position(sorted, x) <= sorted.len(),
    decreases sorted.len(),
{
    if sorted.len() > 0 && provider_le(sorted[0], x) {
        lemma_provider_position_range(sorted.drop_first(), x);
    }
}

proof fn lemma_sort_keeps_id(s: Seq<Provider>, id: Seq<char>)
    ensures
        index_of_id(s, id) is Some ==> index_of_id(spec_sort_providers(s), id) is Some,
{
    lemma_index_exists(s, id);
    lemma_index_exists(spec_sort_providers(s), id);
    if index_of_id(s, id) is Some {
        let k = choose|k: int| 0 <= k < s.len() && (#[trigger] s[k]).id == id;
        lemma_sort_members(s);
        let j = choose|j: int| 0 <= j < s.len() && #[trigger] spec_sort_providers(s)[j] == #[trigger] s[k];
        assert(spec_sort_providers(s)[j].id == id);
    }
}

proof fn lemma_filled_keeps_id(pre: Seq<Provider>, post: Seq<Provider>, live: Live, only: Option<Seq<char>>, id: Seq<char>)
    requires
        filled_list(pre, post, live, only),
    ensures
        index_of_id(pre, id) is Some ==> index_of_id(post, id) is Some,
{
    lemma_index_exists(pre, id);
    lemma_index_exists(post, id);
    if index_of_id(pre, id) is Some {
        let k = choose|k: int| 0 <= k < pre.len() && (#[trigger] pre[k]).id == id;
        assert(post[k].id == id);
    }
}

/// The error of a result, if it is one.
pub open spec fn error_of<T>(r: Result<T, ProviderError>) -> Option<ProviderError> {
    match r {
        Ok(_) => None,
        Err(e) => Some(e),
    }
}

/// The first provider of `s` whose ID is `id`.
pub open spec fn find_id(s: Seq<Provider>, id: Seq<char>) -> Provider {
    s[index_of_id(s, id).unwrap()]
}

/// A provider and the store it was read from.
#[derive(Debug)]
pub struct ProviderFetched {
    /// The list to store.
    pub store: Vec<ProviderConfig>,
    /// The provider as shown: without snapshots.
    pub provider: ProviderConfig,
}

/// The store before the provider's snapshots are filled in: the store as read, brought in
/// line with the files in use where the provider is the one in use.
pub open spec fn get_prefill(id: Seq<char>, stored: Option<Seq<Provider>>, live: Live) -> Seq<Provider> {
    let s0 = spec_read_provider_store(stored);
    let s1 = if index_of_id(s0, id) is None && id == openai_id() {
        s0.insert(0, spec_default_openai_provider(openai_id()))
    } else {
        s0
    };
    if live_current(live) == Some(id) {
        spec_capture(s1, live)
    } else {
        s1
    }
}

/// Reads one provider: the store as read, brought in line with the files in use where the
/// provider is the one in use, its missing snapshots filled in, sorted; and the provider as
/// shown.
pub fn get_provider_impl(provider_id: &str, stored: Option<Vec<ProviderConfig>>, live: &LiveFiles) -> (res:
    Result<ProviderFetched, ProviderError>)
    ensures
        spec_validate_provider_id(provider_id@) is Err ==> error_of(res) == error_of(
            spec_validate_provider_id(provider_id@),
        ),
        spec_validate_provider_id(provider_id@) is Ok ==> {
            let s0 = spec_read_provider_store(stored_views(stored));
            let pre = get_prefill(provider_id@, stored_views(stored), live@);
            &&& (index_of_id(s0, provider_id@) is None && provider_id@ != openai_id()) ==> (res
                matches Err(ProviderError::NotFound(n)) && n@ == provider_id@)
            &&& !(index_of_id(s0, provider_id@) is None && provider_id@ != openai_id()) ==> {
                &&& res is Err <==> some_fill_fails(pre, live@, Some(provider_id@))
                &&& res matches Ok(f) ==> exists|post: Seq<Provider>|
                    {
                        &&& filled_list(pre, post, live@, Some(provider_id@))
                        &&& views(f.store@) == spec_sort_providers(post)
                        &&& index_of_id(views(f.store@), provider_id@) is Some
                        &&& f.provider@ == (Provider {
                            auth_json: None,
                            config_toml: None,
                            ..find_id(views(f.store@), provider_id@)
                        })
                    }
            }
        },
{
    match validate_provider_id(provider_id) {
        Ok(()) => {},
        Err(e) => {
            return Err(e);
        },
    }
    let ghost sv = stored_views(stored);
    let mut providers = read_provider_store(stored);
    let ghost s0 = views(providers@);
    proof {
        lemma_index_of_id(s0, provider_id@);
    }
    if position_of_id(&providers, provider_id).is_none() {
        if str_eq(provider_id, "openai") {
            providers.insert(0, default_openai_provider("openai".to_string()));
            assert(views(providers@) =~= s0.insert(0, spec_default_openai_provider(openai_id())));
        } else {
            return Err(ProviderError::NotFound(provider_id.to_string()));
        }
    }
    let ghost s1 = views(providers@);
    let is_current = match current_provider(live) {
        Some(c) => str_eq(c.as_str(), provider_id),
        None => false,
    };
    if is_current {
        capture_current_live_config(&mut providers, live);
    }
    let ghost pre = views(providers@);
    assert(pre == get_prefill(provider_id@, sv, live@));
    proof {
        lemma_index_exists(s0, provider_id@);
        lemma_index_exists(s1, provider_id@);
        lemma_index_exists(pre, provider_id@);
        if index_of_id(s0, provider_id@) is None {
            assert(s1[0].id == provider_id@);
        } else {
            let k = choose|k: int| 0 <= k < s0.len() && (#[trigger] s0[k]).id == provider_id@;
            assert(s1[k].id == provider_id@);
        }
        if is_current {
            match index_of_id(s1, current_or_openai(live@)) {
                Some(i) => {
                    let k = choose|k: int| 0 <= k < s1.len() && (#[trigger] s1[k]).id == provider_id@;
                    assert(pre[k].id == provider_id@);
                },
                None => {},
            }
        }
    }
    match fill_snapshots(&mut providers, live, Some(provider_id)) {
        Ok(()) => {},
        Err(e) => {
            return Err(e);
        },
    }
    let ghost post = views(providers@);
    proof {
        lemma_filled_keeps_id(pre, post, live@, Some(provider_id@), provider_id@);
        lemma_sort_keeps_id(post, provider_id@);
    }
    sort_providers(&mut providers);
    proof {
        lemma_index_of_id(views(providers@), provider_id@);
    }
    match position_of_id(&providers, provider_id) {
        Some(i) => {
            let p = strip_snapshots(&providers[i]);
            Ok(ProviderFetched { store: providers, provider: p })
        },
        None => Err(ProviderError::NotFound(provider_id.to_string())),
    }
}


// ---------------------------------------------------------------------------
// Writing a provider into Codex
// ---------------------------------------------------------------------------

/// `files` are the snapshots of `r`.
pub open spec fn files_of(files: CodexFiles, r: Provider) -> bool {
    r.config_toml == Some(files.config_toml@) && r.auth_json == Some(files.auth_json@)
}

/// The files that switching to the provider writes: its snapshots, filled in first where
/// one is missing.
pub fn apply_provider_to_codex(provider: &ProviderConfig, live: &LiveFiles) -> (res: Result<
    CodexFiles,
    ProviderError,
>)
    ensures
        !lacks_snapshot(provider@) ==> (res matches Ok(f) && files_of(f, provider@)),
        lacks_snapshot(provider@) ==> (res is Err <==> fill_fails(provider@, live@)),
        lacks_snapshot(provider@) ==> (res matches Err(e) ==> e is DefaultConfigUnparsable),
        lacks_snapshot(provider@) ==> (res matches Ok(f) ==> exists|r: Provider|
            filled(provider@, live@, r) && files_of(f, r)),
{
    let p = if !lacks_snapshot_exec(provider) {
        provider.clone()
    } else {
        match with_live_files(provider.clone(), live) {
            Ok(r) => r,
            Err(e) => {
                return Err(e);
            },
        }
    };
    let ghost pv = p@;
    let config = match p.config_toml {
        Some(c) => c,
        None => {
            return Err(ProviderError::MissingConfigSnapshot);
        },
    };
    let auth = match p.auth_json {
        Some(a) => a,
        None => {
            return Err(ProviderError::MissingAuthSnapshot);
        },
    };
    let files = CodexFiles { config_toml: config, auth_json: auth };
    assert(files_of(files, pv));
    Ok(files)
}

/// A saved provider: the list to store, and the files to write into Codex where the saved
/// provider is the one in use.
#[derive(Debug)]
pub struct ProviderSaved {
    pub store: Vec<ProviderConfig>,
    pub codex_files: Option<CodexFiles>,
}

/// The provider to save before its snapshots are filled in: the submitted provider made
/// consistent, keeping the stored snapshots where it brings none.
pub open spec fn save_prefill(p: Provider, s0: Seq<Provider>) -> Provider {
    let p1 = spec_sanitize_provider(p);
    match index_of_id(s0, p1.id) {
        Some(i) => Provider {
            auth_json: match p1.auth_json {
                Some(a) => Some(a),
                None => s0[i].auth_json,
            },
            config_toml: or_text(p1.config_toml, s0[i].config_toml),
            ..p1
        },
        None => p1,
    }
}

/// The store with `p` in the place of the first provider with its ID, or added at the end.
pub open spec fn put_provider(s: Seq<Provider>, p: Provider) -> Seq<Provider> {
    match index_of_id(s, p.id) {
        Some(i) => s.update(i, p),
        None => s.push(p),
    }
}

/// Saves a provider: made consistent, keeping stored snapshots where it brings none, with
/// its snapshots rebuilt, put in the store, the store sorted; and, where it is the provider
/// in use, its files to write into Codex.
pub fn save_provider_impl(provider: ProviderConfig, stored: Option<Vec<ProviderConfig>>, live: &LiveFiles) -> (res:
    Result<ProviderSaved, ProviderError>)
    ensures
        spec_validate_provider_id(provider@.id) is Err ==> error_of(res) == error_of(
            spec_validate_provider_id(provider@.id),
        ),
        spec_validate_provider_id(provider@.id) is Ok ==> {
            let s0 = spec_read_provider_store(stored_views(stored));
            let p2 = save_prefill(provider@, s0);
            &&& res is Err <==> fill_fails(p2, live@)
            &&& res matches Err(e) ==> e is DefaultConfigUnparsable
            &&& res matches Ok(saved) ==> exists|p3: Provider|
                {
                    &&& filled(p2, live@, p3)
                    &&& views(saved.store@) == spec_sort_providers(put_provider(s0, p3))
                    &&& (saved.codex_files is Some <==> live_current(live@) == Some(p3.id))
                    &&& (saved.codex_files matches Some(f) ==> files_of(f, p3))
                }
        },
{
    match validate_provider_id(provider.id.as_str()) {
        Ok(()) => {},
        Err(e) => {
            return Err(e);
        },
    }
    let ghost pv = provider@;
    let mut providers = read_provider_store(stored);
    let ghost s0 = views(providers@);
    proof {
        lemma_index_of_id(s0, spec_sanitize_provider(pv).id);
    }
    let mut p = sanitize_provider(provider);
    match position_of_id(&providers, p.id.as_str()) {
        Some(i) => {
            if p.auth_json.is_none() {
                p.auth_json = clone_json(&providers[i].auth_json);
            }
            if p.config_toml.is_none() {
                p.config_toml = clone_text(&providers[i].config_toml);
            }
        },
        None => {},
    }
    assert(p@ == save_prefill(pv, s0));
    let p3 = match with_live_files(p, live) {
        Ok(r) => r,
        Err(e) => {
            return Err(e);
        },
    };
    let is_current = match current_provider(live) {
        Some(c) => str_eq(c.as_str(), p3.id.as_str()),
        None => false,
    };
    proof {
        lemma_index_of_id(s0, p3@.id);
    }
    let kept = p3.clone();
    match position_of_id(&providers, p3.id.as_str()) {
        Some(i) => {
            providers.set(i, p3);
            assert(views(providers@) =~= s0.update(i as int, kept@));
        },
        None => {
            providers.push(p3);
            assert(views(providers@) =~= s0.push(kept@));
        },
    }
    sort_providers(&mut providers);
    let codex_files = if is_current {
        Some(CodexFiles {
            config_toml: match &kept.config_toml {
                Some(c) => c.clone(),
                None => String::new(),
            },
            auth_json: match &kept.auth_json {
                Some(a) => a.clone(),
                None => JsonValue::Null,
            },
        })
    } else {
        None
    };
    Ok(ProviderSaved { store: providers, codex_files })
}

/// The store without the providers whose ID is `id`.
pub open spec fn without_id(s: Seq<Provider>, id: Seq<char>) -> Seq<Provider>
    decreases s.len(),
{
    if s.len() == 0 {
        s
    } else if s.last().id == id {
        without_id(s.drop_last(), id)
    } else {
        without_id(s.drop_last(), id).push(s.last())
    }
}

/// Deletes a provider: refused for the built-in provider and for the provider in use;
/// otherwise the store as read without every provider of that ID.
pub fn delete_provider_impl(provider_id: &str, stored: Option<Vec<ProviderConfig>>, live: &LiveFiles) -> (res:
    Result<Vec<ProviderConfig>, ProviderError>)
    ensures
        spec_validate_provider_id(provider_id@) is Err ==> error_of(res) == error_of(
            spec_validate_provider_id(provider_id@),
        ),
        spec_validate_provider_id(provider_id@) is Ok && provider_id@ == openai_id() ==> (res
            matches Err(ProviderError::DeleteBuiltin)),
        spec_validate_provider_id(provider_id@) is Ok && provider_id@ != openai_id() && live_current(
            live@,
        ) == Some(provider_id@) ==> (res matches Err(ProviderError::DeleteCurrent(n))
            && n@ == provider_id@),
        spec_validate_provider_id(provider_id@) is Ok && provider_id@ != openai_id() && live_current(
            live@,
        ) != Some(provider_id@) ==> (res matches Ok(store) && views(store@) == without_id(
            spec_read_provider_store(stored_views(stored)),
            provider_id@,
        )),
{
    match validate_provider_id(provider_id) {
        Ok(()) => {},
        Err(e) => {
            return Err(e);
        },
    }
    if str_eq(provider_id, "openai") {
        return Err(ProviderError::DeleteBuiltin);
    }
    let is_current = match current_provider(live) {
        Some(c) => str_eq(c.as_str(), provider_id),
        None => false,
    };
    if is_current {
        return Err(ProviderError::DeleteCurrent(provider_id.to_string()));
    }
    let providers = read_provider_store(stored);
    let ghost s = views(providers@);
    let mut kept: Vec<ProviderConfig> = Vec::new();
    let mut i: usize = 0;
    assert(s.take(0) =~= Seq::<Provider>::empty());
    while i < providers.len()
        invariant
            i <= providers.len(),
            s == views(providers@),
            views(kept@) == without_id(s.take(i as int), provider_id@),
        decreases providers.len() - i,
    {
        let ghost before = views(kept@);
        if !str_eq(providers[i].id.as_str(), provider_id) {
            let c = providers[i].clone();
            kept.push(c);
            assert(views(kept@) =~= before.push(s[i as int]));
        }
        i += 1;
        assert(s.take(i as int).drop_last() =~= s.take(i - 1));
        assert(s.take(i as int).last() == s[i - 1]);
    }
    assert(s.take(i as int) =~= s);
    Ok(kept)
}

/// A provider switch: the list to store, and the files to write into Codex.
#[derive(Debug)]
pub struct ProviderSwitched {
    pub store: Vec<ProviderConfig>,
    pub codex_files: CodexFiles,
}

/// Switches to a provider: the store as read, the provider in use brought in line with the
/// files in use; and the files of the chosen provider (its snapshots, filled in first
/// where one is missing).
pub fn switch_provider_impl(provider_id: &str, stored: Option<Vec<ProviderConfig>>, live: &LiveFiles) -> (res:
    Result<ProviderSwitched, ProviderError>)
    ensures
        ({
            let s1 = spec_capture(spec_read_provider_store(stored_views(stored)), live@);
            &&& index_of_id(s1, provider_id@) is None ==> (res matches Err(ProviderError::NotFound(n))
                && n@ == provider_id@)
            &&& index_of_id(s1, provider_id@) is Some ==> {
                let p = find_id(s1, provider_id@);
                &&& res matches Ok(sw) ==> views(sw.store@) == s1
                &&& !lacks_snapshot(p) ==> (res matches Ok(sw) && files_of(sw.codex_files, p))
                &&& lacks_snapshot(p) ==> (res is Err <==> fill_fails(p, live@))
                &&& lacks_snapshot(p) ==> (res matches Ok(sw) ==> exists|r: Provider|
                    filled(p, live@, r) && files_of(sw.codex_files, r))
            }
        }),
{
    let mut providers = read_provider_store(stored);
    capture_current_live_config(&mut providers, live);
    proof {
        lemma_index_of_id(views(providers@), provider_id@);
    }
    let provider = match position_of_id(&providers, provider_id) {
        Some(i) => providers[i].clone(),
        None => {
            return Err(ProviderError::NotFound(provider_id.to_string()));
        },
    };
    let files = match apply_provider_to_codex(&provider, live) {
        Ok(f) => f,
        Err(e) => {
            return Err(e);
        },
    };
    Ok(ProviderSwitched { store: providers, codex_files: files })
}


// ---------------------------------------------------------------------------
// What holds across calls
// ---------------------------------------------------------------------------

proof fn lemma_openai_le_all(b: Provider, x: Provider)
    requires
        b.id == openai_id(),
    ensures
        provider_le(b, x),
{
    crate::text::lemma_text_less_irreflexive(unicode_lowercase(b.id));
}

proof fn lemma_sort_keeps_first(s: Seq<Provider>)
    requires
        s.len() > 0,
        s[0].id == openai_id(),
    ensures
        spec_sort_providers(s).len() == s.len(),
        spec_sort_providers(s)[0] == s[0],
    decreases s.len(),
{
    lemma_sort_members(s);
    if s.len() == 1 {
        assert(s.drop_last() =~= Seq::<Provider>::empty());
    } else {
        let t = s.drop_last();
        lemma_sort_keeps_first(t);
        let sorted = spec_sort_providers(t);
        lemma_openai_le_all(sorted[0], s.last());
        lemma_provider_position_range(sorted.drop_first(), s.last());
        assert(provider_position(sorted, s.last()) >= 1);
    }
}

/// The provider store as read always starts with the built-in `openai` provider, a
/// ChatGPT provider that needs no OpenAI API auth.
pub proof fn lemma_store_starts_with_builtin(stored: Option<Seq<Provider>>)
    ensures
        spec_read_provider_store(stored).len() >= 1,
        spec_read_provider_store(stored)[0].id == openai_id(),
        spec_read_provider_store(stored)[0].auth_type == Some("chatgpt"@),
        spec_read_provider_store(stored)[0].requires_openai_auth == Some(false),
        spec_read_provider_store(stored)[0].base_url == Some("https://api.openai.com/v1"@),
{
    let s = match stored {
        Some(s) => s,
        None => seq![spec_default_openai_provider(openai_id())],
    };
    let e = spec_ensure_builtin_openai(s);
    lemma_index_of_id(s, openai_id());
    lemma_sort_keeps_first(e);
}

proof fn lemma_without_id(s: Seq<Provider>, id: Seq<char>)
    ensures
        forall|k: int| 0 <= k < without_id(s, id).len() ==> (#[trigger] without_id(s, id)[k]).id != id,
        s.len() > 0 && s[0].id != id ==> without_id(s, id).len() > 0 && without_id(s, id)[0] == s[0],
    decreases s.len(),
{
    if s.len() > 0 {
        lemma_without_id(s.drop_last(), id);
        if s.len() > 1 {
            assert(s.drop_last()[0] == s[0]);
        } else {
            assert(s.drop_last() =~= Seq::<Provider>::empty());
        }
    }
}

/// Deleting a provider leaves no provider of that ID in the store, and the built-in
/// provider, which cannot be deleted, stays first.
pub proof fn lemma_delete_keeps_builtin(stored: Option<Seq<Provider>>, id: Seq<char>)
    requires
        id != openai_id(),
    ensures
        forall|k: int|
            0 <= k < without_id(spec_read_provider_store(stored), id).len() ==> (#[trigger] without_id(
                spec_read_provider_store(stored),
                id,
            )[k]).id != id,
        without_id(spec_read_provider_store(stored), id).len() >= 1,
        without_id(spec_read_provider_store(stored), id)[0] == spec_read_provider_store(stored)[0],
{
    lemma_store_starts_with_builtin(stored);
    lemma_without_id(spec_read_provider_store(stored), id);
}

proof fn lemma_capture_keeps_ids(s: Seq<Provider>, live: Live)
    ensures
        spec_capture(s, live).len() == s.len(),
        forall|k: int| 0 <= k < s.len() ==> (#[trigger] spec_capture(s, live)[k]).id == s[k].id,
{
    lemma_index_of_id(s, current_or_openai(live));
    match index_of_id(s, current_or_openai(live)) {
        Some(i) => {
            assert forall|k: int| 0 <= k < s.len() implies (#[trigger] spec_capture(s, live)[k]).id
                == s[k].id by {
                if k == i {
                    assert(captured(s[i], live).id == s[i].id);
                }
            }
        },
        None => {},
    }
}

/// The listed providers always include the provider in use, and the built-in
/// provider always comes first.
pub proof fn lemma_list_shows_current(stored: Option<Seq<Provider>>, live: Live, post: Seq<Provider>)
    requires
        filled_list(list_prefill(stored, live), post, live, None),
    ensures
        index_of_id(spec_sort_providers(post), current_or_openai(live)) is Some,
        spec_sort_providers(post).len() >= 1,
        spec_sort_providers(post)[0].id == openai_id(),
{
    let current = current_or_openai(live);
    let s0 = spec_read_provider_store(stored);
    lemma_store_starts_with_builtin(stored);
    let s1 = spec_ensure_builtin_openai(s0);
    lemma_index_of_id(s0, openai_id());
    lemma_index_of_id(s1, current);
    let s2 = if current != openai_id() && index_of_id(s1, current) is None {
        s1.insert(1, spec_default_api_key_provider(current))
    } else {
        s1
    };
    assert(s1[0].id == openai_id());
    assert(s2[0].id == openai_id());
    lemma_index_exists(s2, current);
    if current == openai_id() {
        assert(s2[0].id == current);
    } else if index_of_id(s1, current) is None {
        assert(s2[1].id == current);
    } else {
        let i = index_of_id(s1, current).unwrap();
        assert(s2[i].id == current);
    }
    let pre = spec_capture(s2, live);
    lemma_capture_keeps_ids(s2, live);
    lemma_index_exists(pre, current);
    let k = choose|k: int| 0 <= k < s2.len() && (#[trigger] s2[k]).id == current;
    assert(pre[k].id == current);
    lemma_filled_keeps_id(pre, post, live, None, current);
    lemma_sort_keeps_id(post, current);
    assert(pre[0].id == openai_id());
    assert(post[0].id == openai_id());
    lemma_sort_keeps_first(post);
}

/// The built-in `openai` provider, as saved, gets a `config.toml` that toml_edit
/// rendered from a document whose root table has `model_provider = "openai"` and no
/// `model_providers` entry: the reserved provider is never written as a provider table
/// of its own.
pub proof fn lemma_builtin_config_has_no_provider_table(p: Provider, live: Live, r: Provider)
    requires
        p.id == openai_id(),
        filled(spec_sanitize_provider(p), live, r),
    ensures
        exists|d: toml_edit::DocumentMut|
            {
                &&& toml_doc_text(d) == r.config_toml.unwrap()
                &&& lookup(toml_doc_table(d), "model_provider"@) == Some(Toml::Str(openai_id()))
                &&& lookup(toml_doc_table(d), "model_providers"@) is None
            },
{
    let q = spec_sanitize_provider(p);
    assert(is_chatgpt_provider(q));
    let m = nonblank(q.model);
    let e = nonblank(q.model_reasoning_effort);
    let base = toml_text_table(official_base(plan_source(q, live)));
    let d = choose|d: toml_edit::DocumentMut|
        {
            &&& toml_doc_text(d) == r.config_toml.unwrap()
            &&& toml_doc_table(d) == official_table(base, m, e)
        };
    assert("model"@ != "model_provider"@) by {
        reveal_strlit("model");
        reveal_strlit("model_provider");
        assert("model"@.len() != "model_provider"@.len());
    }
    assert("model_reasoning_effort"@ != "model_provider"@) by {
        reveal_strlit("model_reasoning_effort");
        reveal_strlit("model_provider");
        assert("model_reasoning_effort"@.len() != "model_provider"@.len());
    }
    assert("model"@ != "model_providers"@) by {
        reveal_strlit("model");
        reveal_strlit("model_providers");
        assert("model"@.len() != "model_providers"@.len());
    }
    assert("model_provider"@ != "model_providers"@) by {
        reveal_strlit("model_provider");
        reveal_strlit("model_providers");
        assert("model_provider"@.len() != "model_providers"@.len());
    }
    assert("model_reasoning_effort"@ != "model_providers"@) by {
        reveal_strlit("model_reasoning_effort");
        reveal_strlit("model_providers");
        assert("model_reasoning_effort"@.len() != "model_providers"@.len());
    }
    let t0 = table_without(base, "model_providers"@);
    let t1 = table_with(t0, "model_provider"@, Toml::Str(openai_id()));
    lemma_lookup_without(base, "model_providers"@, "model_provider"@);
    lemma_lookup_with(t0, "model_provider"@, Toml::Str(openai_id()), "model_providers"@);
    let t2 = match m {
        Some(mv) => table_with(t1, "model"@, Toml::Str(mv)),
        None => t1,
    };
    match m {
        Some(mv) => {
            lemma_lookup_with(t1, "model"@, Toml::Str(mv), "model_provider"@);
            lemma_lookup_with(t1, "model"@, Toml::Str(mv), "model_providers"@);
        },
        None => {},
    }
    match e {
        Some(ev) => {
            lemma_lookup_with(t2, "model_reasoning_effort"@, Toml::Str(ev), "model_provider"@);
            lemma_lookup_with(t2, "model_reasoning_effort"@, Toml::Str(ev), "model_providers"@);
        },
        None => {},
    }
    assert(lookup(toml_doc_table(d), "model_provider"@) == Some(Toml::Str(openai_id())));
    assert(lookup(toml_doc_table(d), "model_providers"@) is None);
}

/// Before a switch the provider in use keeps what the files in use hold: in the
/// store, its `config.toml` snapshot is the text of `config.toml` and its `auth.json`
/// snapshot that of `auth.json`, where those can be read; no other provider changes.
pub proof fn lemma_switch_keeps_snapshot_of_current(s: Seq<Provider>, live: Live)
    ensures
        spec_capture(s, live).len() == s.len(),
        forall|k: int|
            0 <= k < s.len() && s[k].id != current_or_openai(live) ==> #[trigger] spec_capture(
                s,
                live,
            )[k] == s[k],
        forall|k: int|
            0 <= k < s.len() && index_of_id(s, current_or_openai(live)) == Some(k) ==> {
                &&& (live.config_text matches Some(t) ==> #[trigger] spec_capture(s, live)[k].config_toml
                    == Some(t))
                &&& (live.auth matches Some(a) ==> spec_capture(s, live)[k].auth_json == Some(a))
                &&& spec_capture(s, live)[k].id == s[k].id
            },
{
    lemma_index_of_id(s, current_or_openai(live));
}

} // verus!
