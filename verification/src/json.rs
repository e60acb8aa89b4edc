//! A model of a parsed JSON document, holding as plain values what the logic reads,
//! and the lookups the logic performs on it.
use vstd::prelude::*;
use serde_json::Value;
use crate::text::str_eq;

verus! {

/// A JSON number: its text, and its value where it is an integer that fits in `i64`
/// (what `serde_json::Value::as_i64` gives).
#[derive(Debug)]
pub struct JsonNumber {
    pub text: String,
    pub as_i64: Option<i64>,
}

/// A parsed JSON value. Object members keep the order in which the document's map
/// holds them.
#[derive(Debug)]
pub enum JsonValue {
    Null,
    Bool(bool),
    Number(JsonNumber),
    Str(String),
    Array(Vec<JsonValue>),
    Object(Vec<(String, JsonValue)>),
}

/// The mathematical value of a JSON document.
pub enum Json {
    Null,
    Bool(bool),
    Number(Seq<char>, Option<i64>),
    Str(Seq<char>),
    Array(Seq<Json>),
    Object(Seq<(Seq<char>, Json)>),
}

pub open spec fn json_view(v: JsonValue) -> Json
    decreases v,
{
    match v {
        JsonValue::Null => Json::Null,
        JsonValue::Bool(b) => Json::Bool(b),
        JsonValue::Number(n) => Json::Number(n.text@, n.as_i64),
        JsonValue::Str(s) => Json::Str(s@),
        JsonValue::Array(items) => Json::Array(
            Seq::new(
                items.len() as nat,
                |i: int|
                    if 0 <= i < items.len() {
                        json_view(items@[i])
                    } else {
                        Json::Null
                    },
            ),
        ),
        JsonValue::Object(entries) => Json::Object(
            Seq::new(
                entries.len() as nat,
                |i: int|
                    if 0 <= i < entries.len() {
                        (entries@[i].0@, json_view(entries@[i].1))
                    } else {
                        (Seq::empty(), Json::Null)
                    },
            ),
        ),
    }
}

impl View for JsonValue {
    type V = Json;

    open spec fn view(&self) -> Json {
        json_view(*self)
    }
}

/// The value of the first member named `key`.
pub open spec fn member(entries: Seq<(Seq<char>, Json)>, key: Seq<char>) -> Option<Json>
    decreases entries.len(),
{
    if entries.len() == 0 {
        None
    } else if entries[0].0 == key {
        Some(entries[0].1)
    } else {
        member(entries.drop_first(), key)
    }
}

/// `Value::get(key)`: the member `key` of an object; nothing for any other value.
pub open spec fn get(v: Option<Json>, key: Seq<char>) -> Option<Json> {
    match v {
        Some(Json::Object(entries)) => member(entries, key),
        _ => None,
    }
}

/// `Value::as_str`.
pub open spec fn as_str(v: Option<Json>) -> Option<Seq<char>> {
    match v {
        Some(Json::Str(s)) => Some(s),
        _ => None,
    }
}

/// `Value::as_i64`.
pub open spec fn as_i64(v: Option<Json>) -> Option<i64> {
    match v {
        Some(Json::Number(_, n)) => n,
        _ => None,
    }
}

/// `Value::as_bool`.
pub open spec fn as_bool(v: Option<Json>) -> Option<bool> {
    match v {
        Some(Json::Bool(b)) => Some(b),
        _ => None,
    }
}

/// An optional reference seen as an optional mathematical value.
pub open spec fn view_opt(v: Option<&JsonValue>) -> Option<Json> {
    match v {
        Some(x) => Some(x@),
        None => None,
    }
}

impl Clone for JsonNumber {
    fn clone(&self) -> (res: Self)
        ensures
            res.text@ == self.text@,
            res.as_i64 == self.as_i64,
    {
        JsonNumber { text: self.text.clone(), as_i64: self.as_i64 }
    }
}

impl Clone for JsonValue {
    fn clone(&self) -> (res: Self)
        ensures
            res@ == self@,
        decreases self,
    {
        match self {
            JsonValue::Null => JsonValue::Null,
            JsonValue::Bool(b) => JsonValue::Bool(*b),
            JsonValue::Number(n) => JsonValue::Number(n.clone()),
            JsonValue::Str(s) => JsonValue::Str(s.clone()),
            JsonValue::Array(items) => {
                let mut out: Vec<JsonValue> = Vec::new();
                let mut i: usize = 0;
                while i < items.len()
                    invariant
                        i <= items.len(),
                        out.len() == i,
                        forall|k: int| 0 <= k < i ==> json_view(#[trigger] out@[k]) == json_view(items@[k]),
                        *self == JsonValue::Array(*items),
                    decreases items.len() - i,
                {
                    proof {
                        assert(decreases_to!(*self => (*self)->Array_0));
                        assert(decreases_to!(*items => items@[i as int]));
                    }
                    let c = items[i].clone();
                    out.push(c);
                    i += 1;
                }
                let res = JsonValue::Array(out);
                assert(json_view(res) == json_view(*self)) by {
                    if let Json::Array(a) = json_view(res) {
                        if let Json::Array(b) = json_view(*self) {
                            assert(a =~= b);
                        }
                    }
                }
                res
            },
            JsonValue::Object(entries) => {
                let mut out: Vec<(String, JsonValue)> = Vec::new();
                let mut i: usize = 0;
                while i < entries.len()
                    invariant
                        i <= entries.len(),
                        out.len() == i,
                        forall|k: int|
                            0 <= k < i ==> (#[trigger] out@[k]).0@ == entries@[k].0@ && json_view(
                                out@[k].1,
                            ) == json_view(entries@[k].1),
                        *self == JsonValue::Object(*entries),
                    decreases entries.len() - i,
                {
                    proof {
                        assert(decreases_to!(*self => (*self)->Object_0));
                        assert(decreases_to!(*entries => entries@[i as int]));
                        assert(decreases_to!(entries@[i as int] => entries@[i as int].1));
                    }
                    let c = entries[i].1.clone();
                    out.push((entries[i].0.clone(), c));
                    i += 1;
                }
                let res = JsonValue::Object(out);
                assert(json_view(res) == json_view(*self)) by {
                    if let Json::Object(a) = json_view(res) {
                        if let Json::Object(b) = json_view(*self) {
                            assert(a =~= b);
                        }
                    }
                }
                res
            },
        }
    }
}

/// The member `key` of an object.
pub fn json_get<'a>(v: Option<&'a JsonValue>, key: &str) -> (res: Option<&'a JsonValue>)
    ensures
        view_opt(res) == get(view_opt(v), key@),
{
    match v {
        Some(JsonValue::Object(entries)) => {
            let ghost es = match json_view(*v.unwrap()) {
                Json::Object(e) => e,
                _ => Seq::empty(),
            };
            assert(es.len() == entries.len());
            let mut i: usize = 0;
            assert(es.skip(0) =~= es);
            while i < entries.len()
                invariant
                    i <= entries.len() == es.len(),
                    forall|k: int|
                        0 <= k < es.len() ==> (#[trigger] es[k]).0 == entries@[k].0@ && es[k].1
                            == json_view(entries@[k].1),
                    member(es, key@) == member(es.skip(i as int), key@),
                    view_opt(v) == Some(Json::Object(es)),
                decreases entries.len() - i,
            {
                let ghost rest = es.skip(i as int);
                assert(rest.drop_first() =~= es.skip(i + 1));
                assert(rest[0] == es[i as int]);
                if str_eq(entries[i].0.as_str(), key) {
                    return Some(&entries[i].1);
                }
                i += 1;
            }
            None
        },
        _ => None,
    }
}

/// The text of a string value.
pub fn json_as_str(v: Option<&JsonValue>) -> (res: Option<&String>)
    ensures
        res matches Some(r) ==> as_str(view_opt(v)) == Some(r@),
        res is None ==> as_str(view_opt(v)) is None,
{
    match v {
        Some(JsonValue::Str(s)) => Some(s),
        _ => None,
    }
}

/// The integer of a number value that fits in `i64`.
pub fn json_as_i64(v: Option<&JsonValue>) -> (res: Option<i64>)
    ensures
        res == as_i64(view_opt(v)),
{
    match v {
        Some(JsonValue::Number(n)) => n.as_i64,
        _ => None,
    }
}

/// The truth value of a boolean value.
pub fn json_as_bool(v: Option<&JsonValue>) -> (res: Option<bool>)
    ensures
        res == as_bool(view_opt(v)),
{
    match v {
        Some(JsonValue::Bool(b)) => Some(*b),
        _ => None,
    }
}

/// The views of the members of an object.
pub open spec fn entries_view(es: Seq<(String, JsonValue)>) -> Seq<(Seq<char>, Json)> {
    Seq::new(es.len(), |i: int| (es[i].0@, json_view(es[i].1)))
}

/// The views of the items of an array.
pub open spec fn values_view(s: Seq<JsonValue>) -> Seq<Json> {
    s.map_values(|x: JsonValue| json_view(x))
}

/// The view of an object is the object of its members' views.
pub proof fn lemma_object_view(es: Vec<(String, JsonValue)>)
    ensures
        json_view(JsonValue::Object(es)) == Json::Object(entries_view(es@)),
{
    if let Json::Object(a) = json_view(JsonValue::Object(es)) {
        assert(a =~= entries_view(es@));
    }
}

/// The view of an array is the array of its items' views.
pub proof fn lemma_array_view(items: Vec<JsonValue>)
    ensures
        json_view(JsonValue::Array(items)) == Json::Array(values_view(items@)),
{
    if let Json::Array(a) = json_view(JsonValue::Array(items)) {
        assert(a =~= values_view(items@));
    }
}

// ---------------------------------------------------------------------------
// JSON text, as serde_json reads and writes it
// ---------------------------------------------------------------------------

#[verifier::external_type_specification]
#[verifier::external_body]
pub struct ExSerdeValue(serde_json::Value);

/// What `serde_json::from_str::<Value>` gives for `text`, as the library's value: the
/// value read, or the message of the error.
pub uninterp spec fn json_parse_result(text: Seq<char>) -> Result<Json, Seq<char>>;

/// The text that `serde_json::to_string` writes for a value.
pub uninterp spec fn json_written(v: Json) -> Seq<char>;

/// The value that a text holds as JSON, where it is JSON.
pub open spec fn json_parsed(text: Seq<char>) -> Option<Json> {
    match json_parse_result(text) {
        Ok(v) => Some(v),
        Err(_) => None,
    }
}

/// The library's value for a value of `serde_json`, variant for variant: a number as its
/// text (`Number::to_string`) with `Number::as_i64`, an object's members in the order
/// its map gives them.
#[verifier::external_body]
fn value_from_serde(value: &Value) -> JsonValue {
    match value {
        Value::Null => JsonValue::Null,
        Value::Bool(b) => JsonValue::Bool(*b),
        Value::Number(n) => JsonValue::Number(JsonNumber { text: n.to_string(), as_i64: n.as_i64() }),
        Value::String(s) => JsonValue::Str(s.clone()),
        Value::Array(items) => JsonValue::Array(items.iter().map(value_from_serde).collect()),
        Value::Object(map) => JsonValue::Object(map.iter().map(|(k, v)| (k.clone(), value_from_serde(v))).collect()),
    }
}

/// The value of `serde_json` for a value of the library, variant for variant: a number
/// read back from its text (else its integer, else null), members inserted in order.
#[verifier::external_body]
fn value_to_serde(value: &JsonValue) -> Value {
    match value {
        JsonValue::Null => Value::Null,
        JsonValue::Bool(b) => Value::Bool(*b),
        JsonValue::Number(n) => match (n.text.parse::<serde_json::Number>(), n.as_i64) {
            (Ok(parsed), _) => Value::Number(parsed),
            (Err(_), Some(i)) => Value::from(i),
            (Err(_), None) => Value::Null,
        },
        JsonValue::Str(s) => Value::String(s.clone()),
        JsonValue::Array(items) => Value::Array(items.iter().map(value_to_serde).collect()),
        JsonValue::Object(es) => Value::Object(es.iter().map(|(k, v)| (k.clone(), value_to_serde(v))).collect()),
    }
}

/// `serde_json::from_str::<Value>`: the value read from `text` (a function of the text
/// alone), or the message of the error. An empty text is no JSON: it ends before a value.
#[verifier::external_body]
pub(crate) fn parse_json_text(text: &str) -> (res: Result<JsonValue, String>)
    ensures
        match res {
            Ok(v) => json_parse_result(text@) == Ok::<Json, Seq<char>>(v@),
            Err(m) => json_parse_result(text@) == Err::<Json, Seq<char>>(m@),
        },
        text@.len() == 0 ==> res is Err,
{
    match serde_json::from_str::<serde_json::Value>(text) {
        Ok(v) => Ok(value_from_serde(&v)),
        Err(e) => Err(e.to_string()),
    }
}

/// `serde_json::to_string` of a value: its text (a function of the value alone). Writing
/// a `Value` does not fail.
#[verifier::external_body]
pub(crate) fn write_json_text(value: &JsonValue) -> (res: String)
    ensures
        res@ == json_written(value@),
{
    serde_json::to_string(&value_to_serde(value)).unwrap_or_default()
}

/// A text read as JSON: its value, or nothing where it is no JSON.
pub fn parse_json(text: &str) -> (res: Option<JsonValue>)
    ensures
        view_opt_owned(res) == json_parsed(text@),
{
    match parse_json_text(text) {
        Ok(v) => Some(v),
        Err(_) => None,
    }
}

/// An optional value seen as an optional mathematical value.
pub open spec fn view_opt_owned(v: Option<JsonValue>) -> Option<Json> {
    match v {
        Some(x) => Some(x@),
        None => None,
    }
}

} // verus!
