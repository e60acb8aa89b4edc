//! The models a provider offers: the request made for them, and the list read from the
//! answer.
use vstd::prelude::*;
use crate::json::{Json, JsonValue, as_str, get, json_as_str, json_get, json_view};
use crate::providers::{Provider, ProviderConfig};
use crate::text::{
    chars_of, opt_text, str_eq, str_less, string_of, strip_end_char, text_less, trim, trim_chars,
};

verus! {

/// A model a provider offers.
#[derive(Debug)]
pub struct ModelOption {
    pub id: String,
}

/// The request for a provider's models: the endpoint, and the bearer token where the
/// provider has a key.
#[derive(Debug)]
pub struct ModelsRequest {
    pub endpoint: String,
    pub bearer: Option<String>,
}

/// Why the models cannot be had.
#[derive(Debug)]
pub enum ModelsError {
    /// The provider has no base URL.
    EmptyBaseUrl,
    /// The endpoint answered with this status and text.
    Http(u16, String),
    /// The answer does not parse (the parser's message).
    InvalidJson(String),
    /// The answer has no `data` array.
    NoData,
}

pub enum ModelsFault {
    EmptyBaseUrl,
    Http(u16, Seq<char>),
    InvalidJson(Seq<char>),
    NoData,
}

impl View for ModelsError {
    type V = ModelsFault;

    open spec fn view(&self) -> ModelsFault {
        match self {
            ModelsError::EmptyBaseUrl => ModelsFault::EmptyBaseUrl,
            ModelsError::Http(s, t) => ModelsFault::Http(*s, t@),
            ModelsError::InvalidJson(m) => ModelsFault::InvalidJson(m@),
            ModelsError::NoData => ModelsFault::NoData,
        }
    }
}

pub open spec fn nonblank_trimmed(o: Option<Seq<char>>) -> Option<Seq<char>> {
    match o {
        Some(s) => if trim(s).len() > 0 {
            Some(trim(s))
        } else {
            None
        },
        None => None,
    }
}

/// The request for a provider's models: its base URL trimmed, without trailing `/`,
/// followed by `/models`, and its key trimmed as a bearer token where it has one; no
/// request without a base URL.
pub open spec fn spec_models_request(p: Provider) -> Result<(Seq<char>, Option<Seq<char>>), ModelsFault> {
    match nonblank_trimmed(p.base_url) {
        None => Err(ModelsFault::EmptyBaseUrl),
        Some(b) => Ok((strip_end_char(b, '/') + "/models"@, nonblank_trimmed(p.api_key))),
    }
}

fn nonblank_trimmed_exec(o: &Option<String>) -> (res: Option<String>)
    ensures
        opt_text(res) == nonblank_trimmed(opt_text(*o)),
{
    match o {
        Some(s) => {
            let t = crate::text::trim_str(s.as_str());
            if t.as_str().is_empty() {
                None
            } else {
                Some(t)
            }
        },
        None => None,
    }
}

fn strip_end_slashes(cs: &[char]) -> (res: Vec<char>)
    ensures
        res@ == strip_end_char(cs@, '/'),
{
    let mut j: usize = cs.len();
    assert(cs@.take(j as int) =~= cs@);
    while j > 0 && cs[j - 1] == '/'
        invariant
            j <= cs.len(),
            strip_end_char(cs@, '/') == strip_end_char(cs@.take(j as int), '/'),
        decreases j,
    {
        assert(cs@.take(j as int).drop_last() =~= cs@.take(j - 1));
        j -= 1;
    }
    crate::text::sub_chars(cs, 0, j)
}

/// The request for a provider's models.
pub fn models_request(provider: &ProviderConfig) -> (res: Result<ModelsRequest, ModelsError>)
    ensures
        match res {
            Ok(r) => spec_models_request(provider@) == Ok::<
                (Seq<char>, Option<Seq<char>>),
                ModelsFault,
            >((r.endpoint@, opt_text(r.bearer))),
            Err(e) => spec_models_request(provider@) == Err::<
                (Seq<char>, Option<Seq<char>>),
                ModelsFault,
            >(e@),
        },
{
    let base = match nonblank_trimmed_exec(&provider.base_url) {
        Some(b) => b,
        None => return Err(ModelsError::EmptyBaseUrl),
    };
    let bcs = chars_of(base.as_str());
    let mut e = strip_end_slashes(bcs.as_slice());
    crate::text::append_str(&mut e, "/models");
    let bearer = nonblank_trimmed_exec(&provider.api_key);
    Ok(ModelsRequest { endpoint: string_of(e.as_slice()), bearer })
}

/// An ID among the items: an item's `id` string that is not blank.
pub open spec fn offered(items: Seq<Json>, id: Seq<char>) -> bool {
    exists|i: int|
        0 <= i < items.len() && as_str(get(Some(#[trigger] items[i]), "id"@)) == Some(id) && trim(
            id,
        ).len() > 0
}

/// The IDs in strictly ascending order.
pub open spec fn strictly_ascending(ids: Seq<Seq<char>>) -> bool {
    forall|i: int, j: int| 0 <= i < j < ids.len() ==> text_less(#[trigger] ids[i], #[trigger] ids[j])
}

pub open spec fn model_ids(ms: Seq<ModelOption>) -> Seq<Seq<char>> {
    ms.map_values(|m: ModelOption| m.id@)
}

/// The answer's `data` items, where it is an object with a `data` array.
pub open spec fn data_items(v: Json) -> Option<Seq<Json>> {
    match get(Some(v), "data"@) {
        Some(Json::Array(items)) => Some(items),
        _ => None,
    }
}

proof fn lemma_insert_sorted(ids: Seq<Seq<char>>, j: int, x: Seq<char>)
    requires
        strictly_ascending(ids),
        0 <= j <= ids.len(),
        forall|i: int| 0 <= i < j ==> text_less(#[trigger] ids[i], x),
        j < ids.len() ==> text_less(x, ids[j]),
    ensures
        strictly_ascending(ids.insert(j, x)),
{
    let s = ids.insert(j, x);
    assert forall|a: int, b: int| 0 <= a < b < s.len() implies text_less(
        #[trigger] s[a],
        #[trigger] s[b],
    ) by {
        if a < j && b < j {
            assert(s[a] == ids[a] && s[b] == ids[b]);
        } else if a < j && b == j {
        } else if a < j && b > j {
            assert(s[a] == ids[a] && s[b] == ids[b - 1]);
            if b - 1 > a {
                assert(text_less(ids[a], ids[b - 1]));
            }
        } else if a == j {
            assert(s[b] == ids[b - 1]);
            if b - 1 > j {
                assert(text_less(ids[j], ids[b - 1]));
                crate::text::lemma_text_less_transitive(x, ids[j], ids[b - 1]);
            }
        } else {
            assert(s[a] == ids[a - 1] && s[b] == ids[b - 1]);
        }
    }
}

/// The models offered, each ID once, in ascending order.
fn sorted_ids(items: &Vec<JsonValue>) -> (res: Vec<ModelOption>)
    ensures
        strictly_ascending(model_ids(res@)),
        forall|id: Seq<char>|
            model_ids(res@).contains(id) <==> offered(crate::json::values_view(items@), id),
{
    let ghost iv = crate::json::values_view(items@);
    let mut out: Vec<ModelOption> = Vec::new();
    let mut k: usize = 0;
    while k < items.len()
        invariant
            k <= items.len(),
            iv == crate::json::values_view(items@),
            strictly_ascending(model_ids(out@)),
            forall|id: Seq<char>|
                model_ids(out@).contains(id) <==> offered(iv.take(k as int), id),
        decreases items.len() - k,
    {
        assert forall|id: Seq<char>| offered(iv.take(k + 1), id) <==> (offered(iv.take(k as int), id)
            || (as_str(get(Some(iv[k as int]), "id"@)) == Some(id) && trim(id).len() > 0)) by {
            if offered(iv.take(k + 1), id) {
                let i = choose|i: int|
                    0 <= i < iv.take(k + 1).len() && as_str(
                        get(Some(#[trigger] iv.take(k + 1)[i]), "id"@),
                    ) == Some(id) && trim(id).len() > 0;
                if i < k {
                    assert(iv.take(k as int)[i] == iv.take(k + 1)[i]);
                }
            }
            if offered(iv.take(k as int), id) {
                let i = choose|i: int|
                    0 <= i < iv.take(k as int).len() && as_str(
                        get(Some(#[trigger] iv.take(k as int)[i]), "id"@),
                    ) == Some(id) && trim(id).len() > 0;
                assert(iv.take(k + 1)[i] == iv.take(k as int)[i]);
            }
            if as_str(get(Some(iv[k as int]), "id"@)) == Some(id) && trim(id).len() > 0 {
                assert(iv.take(k + 1)[k as int] == iv[k as int]);
            }
        }
        let ghost cond = |x: Seq<char>| as_str(get(Some(iv[k as int]), "id"@)) == Some(x) && trim(x).len() > 0;
        assert(iv[k as int] == json_view(items@[k as int]));
        let found = json_as_str(json_get(Some(&items[k]), "id"));
        let usable = match found {
            Some(s) => !crate::text::is_blank(s.as_str()),
            None => false,
        };
        if !usable {
            assert forall|x: Seq<char>| !#[trigger] cond(x) by {}
            assert forall|x: Seq<char>| model_ids(out@).contains(x) <==> offered(iv.take(k + 1), x) by {}
        } else {
            let id = found.unwrap();
            assert(cond(id@));
            assert forall|x: Seq<char>| #[trigger] cond(x) <==> x == id@ by {}
            let ghost ids = model_ids(out@);
            let mut j: usize = 0;
            while j < out.len() && str_less(out[j].id.as_str(), id.as_str())
                invariant
                    j <= out@.len(),
                    ids == model_ids(out@),
                    forall|i: int| 0 <= i < j ==> text_less(#[trigger] ids[i], id@),
                decreases out.len() - j,
            {
                j += 1;
            }
            let present = j < out.len() && str_eq(out[j].id.as_str(), id.as_str());
            if !present {
                proof {
                    if j < out.len() {
                        assert(!text_less(ids[j as int], id@));
                        assert(ids[j as int] != id@);
                        crate::text::lemma_text_less_total(ids[j as int], id@);
                    }
                    lemma_insert_sorted(ids, j as int, id@);
                }
                out.insert(j, ModelOption { id: id.clone() });
                assert(model_ids(out@) =~= ids.insert(j as int, id@));
                proof {
                    assert forall|x: Seq<char>| model_ids(out@).contains(x) <==> (ids.contains(x)
                        || x == id@) by {
                        if model_ids(out@).contains(x) {
                            let i = choose|i: int|
                                0 <= i < model_ids(out@).len() && model_ids(out@)[i] == x;
                            if i < j {
                                assert(ids[i] == x);
                            } else if i > j {
                                assert(ids[i - 1] == x);
                            }
                        }
                        if ids.contains(x) {
                            let i = choose|i: int| 0 <= i < ids.len() && ids[i] == x;
                            if i < j {
                                assert(model_ids(out@)[i] == x);
                            } else {
                                assert(model_ids(out@)[i + 1] == x);
                            }
                        }
                        if x == id@ {
                            assert(model_ids(out@)[j as int] == x);
                        }
                    }
                }
            } else {
                assert(ids[j as int] == id@);
                assert(ids.contains(id@));
            }
            assert forall|x: Seq<char>| model_ids(out@).contains(x) <==> offered(iv.take(k + 1), x) by {
                assert(cond(x) <==> x == id@);
                assert(ids.contains(x) <==> offered(iv.take(k as int), x));
            }
        }
        k += 1;
    }
    assert(iv.take(k as int) =~= iv);
    out
}

/// The models a provider offers, from its answer: an answer with an error status, one
/// that does not parse, and one without a `data` array are errors, in that order;
/// else the `id` strings of the items that are not blank, each once, in ascending order.
pub open spec fn models_of(
    success: bool,
    status: u16,
    payload: Seq<char>,
    parsed: Result<Json, Seq<char>>,
    res: Result<Seq<Seq<char>>, ModelsFault>,
) -> bool {
    if !success {
        res == Err::<Seq<Seq<char>>, ModelsFault>(ModelsFault::Http(status, payload))
    } else {
        match parsed {
            Err(m) => res == Err::<Seq<Seq<char>>, ModelsFault>(ModelsFault::InvalidJson(m)),
            Ok(v) => match data_items(v) {
                None => res == Err::<Seq<Seq<char>>, ModelsFault>(ModelsFault::NoData),
                Some(items) => match res {
                    Ok(ids) => strictly_ascending(ids) && forall|id: Seq<char>|
                        ids.contains(id) <==> offered(items, id),
                    Err(_) => false,
                },
            },
        }
    }
}

/// The models a provider offers, from the status of its answer and the answer's text,
/// read as JSON by `serde_json`.
pub fn parse_models_response(success: bool, status: u16, payload: &str) -> (res: Result<
    Vec<ModelOption>,
    ModelsError,
>)
    ensures
        models_of(
            success,
            status,
            payload@,
            crate::json::json_parse_result(payload@),
            match res {
                Ok(ms) => Ok(model_ids(ms@)),
                Err(e) => Err(e@),
            },
        ),
{
    if !success {
        return Err(ModelsError::Http(status, payload.to_string()));
    }
    let parsed = crate::json::parse_json_text(payload);
    models_from_payload(success, status, payload, parsed)
}

/// The models a provider offers, from the status of its answer, the answer's text, and
/// the answer as parsed (the parser's message where it does not parse).
pub fn models_from_payload(
    success: bool,
    status: u16,
    payload: &str,
    parsed: Result<JsonValue, String>,
) -> (res: Result<Vec<ModelOption>, ModelsError>)
    ensures
        models_of(
            success,
            status,
            payload@,
            match parsed {
                Ok(v) => Ok(v@),
                Err(m) => Err(m@),
            },
            match res {
                Ok(ms) => Ok(model_ids(ms@)),
                Err(e) => Err(e@),
            },
        ),
{
    if !success {
        return Err(ModelsError::Http(status, payload.to_string()));
    }
    let v = match parsed {
        Ok(v) => v,
        Err(m) => return Err(ModelsError::InvalidJson(m)),
    };
    match json_get(Some(&v), "data") {
        Some(JsonValue::Array(items)) => {
            proof {
                crate::json::lemma_array_view(*items);
            }
            Ok(sorted_ids(items))
        },
        _ => Err(ModelsError::NoData),
    }
}

} // verus!
