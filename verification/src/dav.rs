//! The WebDAV side of thread sync: URLs of the remote store, and the entries that a
//! `PROPFIND` multistatus answer lists, read from its XML.
use vstd::prelude::*;
use quick_xml::events::Event;
use crate::json::{
    entries_view, json_view, lemma_array_view, lemma_object_view, member, values_view, Json,
    JsonValue,
};
use crate::text::{
    chars_of, find_last, last_index_of, opt_text, str_eq, str_less, string_of, sub_chars,
    text_less,
};

verus! {

// ---------------------------------------------------------------------------
// XML events, as quick-xml reads them
// ---------------------------------------------------------------------------

/// One event of an XML document, its names and text taken as UTF-8 with invalid
/// sequences replaced; `Other` stands for the kinds of event that the tree leaves out
/// (comments, declarations, processing instructions and the like).
#[derive(Debug)]
pub enum XmlEvent {
    Start(String),
    Empty(String),
    Text(String),
    End,
    Eof,
    Other,
    Error(String),
}

/// The mathematical value of an XML event.
pub enum XmlTok {
    Start(Seq<char>),
    Empty(Seq<char>),
    Text(Seq<char>),
    End,
    Eof,
    Other,
    Error(Seq<char>),
}

impl View for XmlEvent {
    type V = XmlTok;

    open spec fn view(&self) -> XmlTok {
        match self {
            XmlEvent::Start(n) => XmlTok::Start(n@),
            XmlEvent::Empty(n) => XmlTok::Empty(n@),
            XmlEvent::Text(t) => XmlTok::Text(t@),
            XmlEvent::End => XmlTok::End,
            XmlEvent::Eof => XmlTok::Eof,
            XmlEvent::Other => XmlTok::Other,
            XmlEvent::Error(m) => XmlTok::Error(m@),
        }
    }
}

/// An event after which the reader is not asked again.
pub open spec fn is_final_event(t: XmlTok) -> bool {
    t is Eof || t is Error
}

/// A run of events that ends with its first end-of-document or error event.
pub open spec fn event_run(toks: Seq<XmlTok>) -> bool {
    &&& toks.len() > 0
    &&& is_final_event(toks.last())
    &&& forall|i: int| 0 <= i < toks.len() - 1 ==> !is_final_event(#[trigger] toks[i])
}

#[verifier::external_type_specification]
#[verifier::external_body]
#[verifier::reject_recursive_types(R)]
pub struct ExXmlReader<R>(quick_xml::Reader<R>);

/// The events that quick-xml's reader, trimming text, reads from `xml`: up to and
/// including the end-of-document event or the first error.
pub uninterp spec fn xml_events(xml: Seq<char>) -> Seq<XmlTok>;

/// The events that a reader has still to give, up to and including the end-of-document
/// event or the first error.
pub uninterp spec fn pending_events(reader: quick_xml::Reader<&[u8]>) -> Seq<XmlTok>;

/// `quick_xml::Reader::from_str`, configured to trim text: the new reader has the events
/// of `xml` still to give, a run that ends with the end of the document or an error.
#[verifier::external_body]
fn open_xml_reader(xml: &str) -> (reader: quick_xml::Reader<&[u8]>)
    ensures
        pending_events(reader) == xml_events(xml@),
        event_run(pending_events(reader)),
{
    let mut reader = quick_xml::Reader::from_str(xml);
    reader.config_mut().trim_text(true);
    reader
}

/// `quick_xml::Reader::read_event`: it gives the first pending event, names and text
/// converted by `String::from_utf8_lossy` and an error as its message, and leaves the
/// rest pending.
#[verifier::external_body]
fn next_xml_event(reader: &mut quick_xml::Reader<&[u8]>) -> (ev: XmlEvent)
    requires
        event_run(pending_events(*old(reader))),
    ensures
        ev@ == pending_events(*old(reader))[0],
        pending_events(*final(reader)) == pending_events(*old(reader)).drop_first(),
{
    match reader.read_event() {
        Ok(Event::Start(e)) => XmlEvent::Start(String::from_utf8_lossy(e.name().as_ref()).into_owned()),
        Ok(Event::Empty(e)) => XmlEvent::Empty(String::from_utf8_lossy(e.name().as_ref()).into_owned()),
        Ok(Event::Text(e)) => XmlEvent::Text(String::from_utf8_lossy(e.as_ref()).into_owned()),
        Ok(Event::End(_)) => XmlEvent::End,
        Ok(Event::Eof) => XmlEvent::Eof,
        Ok(_) => XmlEvent::Other,
        Err(error) => XmlEvent::Error(error.to_string()),
    }
}

// ---------------------------------------------------------------------------
// From XML events to a JSON tree
// ---------------------------------------------------------------------------

/// The part of an element name after its namespace prefix.
pub open spec fn local_name(name: Seq<char>) -> Seq<char> {
    match last_index_of(name, ':') {
        Some(i) => name.skip(i + 1),
        None => name,
    }
}

/// The index of the first member named `key`.
pub open spec fn key_index(entries: Seq<(Seq<char>, Json)>, key: Seq<char>) -> Option<int>
    decreases entries.len(),
{
    if entries.len() == 0 {
        None
    } else if entries[0].0 == key {
        Some(0)
    } else {
        match key_index(entries.drop_first(), key) {
            Some(i) => Some(i + 1),
            None => None,
        }
    }
}

pub proof fn lemma_key_index_bounds(entries: Seq<(Seq<char>, Json)>, key: Seq<char>)
    ensures
        key_index(entries, key) matches Some(i) ==> 0 <= i < entries.len() && entries[i].0 == key,
    decreases entries.len(),
{
    if entries.len() > 0 && entries[0].0 != key {
        lemma_key_index_bounds(entries.drop_first(), key);
    }
}

/// Where a new member `key` goes: after the members whose names sort before it.
pub open spec fn key_slot(entries: Seq<(Seq<char>, Json)>, key: Seq<char>) -> int
    decreases entries.len(),
{
    if entries.len() == 0 || !text_less(entries[0].0, key) {
        0
    } else {
        1 + key_slot(entries.drop_first(), key)
    }
}

/// A repeated member: the values so far and the new one, as an array.
pub open spec fn merge_member(old: Json, v: Json) -> Json {
    match old {
        Json::Array(items) => Json::Array(items.push(v)),
        _ => Json::Array(seq![old, v]),
    }
}

/// The member `key` added to an object: appended to the values already under that name,
/// or placed among the names in order.
pub open spec fn attach_member(entries: Seq<(Seq<char>, Json)>, key: Seq<char>, v: Json) -> Seq<
    (Seq<char>, Json),
> {
    match key_index(entries, key) {
        Some(i) => entries.update(i, (key, merge_member(entries[i].1, v))),
        None => entries.insert(key_slot(entries, key), (key, v)),
    }
}

/// A finished element `name` with value `v` added to the innermost open element, where
/// that is an object.
pub open spec fn attach(stack: Seq<(Seq<char>, Json)>, name: Seq<char>, v: Json) -> Seq<
    (Seq<char>, Json),
> {
    if stack.len() > 0 {
        match stack.last().1 {
            Json::Object(es) => stack.drop_last().push(
                (stack.last().0, Json::Object(attach_member(es, local_name(name), v))),
            ),
            _ => stack,
        }
    } else {
        stack
    }
}

/// Where the reading of the events stands.
pub enum XmlBuild {
    Open(Seq<(Seq<char>, Json)>),
    Done(Json),
    Failed(Seq<char>),
}

/// One event applied to the open elements.
pub open spec fn xml_step(stack: Seq<(Seq<char>, Json)>, tok: XmlTok) -> XmlBuild {
    match tok {
        XmlTok::Start(n) => XmlBuild::Open(stack.push((n, Json::Object(Seq::empty())))),
        XmlTok::Empty(n) => XmlBuild::Open(attach(stack, n, Json::Str(Seq::empty()))),
        XmlTok::Text(t) => XmlBuild::Open(
            if stack.len() > 0 {
                stack.drop_last().push((stack.last().0, Json::Str(t)))
            } else {
                stack
            },
        ),
        XmlTok::End => if stack.len() > 0 {
            if stack.len() == 1 {
                XmlBuild::Done(stack.last().1)
            } else {
                XmlBuild::Open(attach(stack.drop_last(), stack.last().0, stack.last().1))
            }
        } else {
            XmlBuild::Open(stack)
        },
        XmlTok::Eof => XmlBuild::Done(Json::Null),
        XmlTok::Other => XmlBuild::Open(stack),
        XmlTok::Error(m) => XmlBuild::Failed(m),
    }
}

/// The events applied in order, from the given open elements.
pub open spec fn xml_run(stack: Seq<(Seq<char>, Json)>, toks: Seq<XmlTok>) -> XmlBuild
    decreases toks.len(),
{
    if toks.len() == 0 {
        XmlBuild::Done(Json::Null)
    } else {
        match xml_step(stack, toks[0]) {
            XmlBuild::Open(s) => xml_run(s, toks.drop_first()),
            other => other,
        }
    }
}

/// The JSON tree of an XML document: each element an object of its children by local
/// name (repeated names gathered into an array), an empty element or a text the empty
/// string or that text; the outermost element's value once it ends; null where the
/// document ends first; the reader's message where it fails.
pub open spec fn xml_json(xml: Seq<char>) -> Result<Json, Seq<char>> {
    events_json(xml_events(xml))
}

/// The JSON tree that a run of XML events builds, as [`xml_json`] describes it.
pub open spec fn events_json(toks: Seq<XmlTok>) -> Result<Json, Seq<char>> {
    match xml_run(Seq::empty(), toks) {
        XmlBuild::Done(v) => Ok(v),
        XmlBuild::Failed(m) => Err(m),
        XmlBuild::Open(_) => Ok(Json::Null),
    }
}

/// The views of a list of events.
pub open spec fn event_views(events: Seq<XmlEvent>) -> Seq<XmlTok> {
    events.map_values(|e: XmlEvent| e@)
}

fn local_name_of(name: &str) -> (res: String)
    ensures
        res@ == local_name(name@),
{
    let cs = chars_of(name);
    match find_last(cs.as_slice(), ':') {
        Some(i) => {
            let rest = sub_chars(cs.as_slice(), i + 1, cs.len());
            assert(rest@ =~= name@.skip(i + 1));
            string_of(rest.as_slice())
        },
        None => name.to_string(),
    }
}

fn merge_values(old: JsonValue, v: JsonValue) -> (res: JsonValue)
    ensures
        res@ == merge_member(old@, v@),
{
    match old {
        JsonValue::Array(items) => {
            proof {
                lemma_array_view(items);
            }
            let ghost before = items@;
            let mut items = items;
            items.push(v);
            proof {
                lemma_array_view(items);
                assert(items@.map_values(|x: JsonValue| json_view(x)) =~= before.map_values(
                    |x: JsonValue| json_view(x),
                ).push(json_view(v)));
            }
            JsonValue::Array(items)
        },
        other => {
            let mut items: Vec<JsonValue> = Vec::new();
            items.push(other);
            items.push(v);
            proof {
                lemma_array_view(items);
                assert(items@.map_values(|x: JsonValue| json_view(x)) =~= seq![
                    json_view(other),
                    json_view(v),
                ]);
            }
            JsonValue::Array(items)
        },
    }
}

/// `entries` with the member `key` added.
fn attach_member_exec(members: Vec<(String, JsonValue)>, key: String, v: JsonValue) -> (res: Vec<
    (String, JsonValue),
>)
    ensures
        entries_view(res@) == attach_member(entries_view(members@), key@, v@),
{
    let ghost ev = entries_view(members@);
    let mut entries = members;
    let mut i: usize = 0;
    assert(ev.skip(0) =~= ev);
    while i < entries.len()
        invariant
            i <= entries.len() == ev.len(),
            ev == entries_view(entries@),
            ev == entries_view(members@),
            key_index(ev, key@) == match key_index(ev.skip(i as int), key@) {
                Some(j) => Some(j + i),
                None => None,
            },
        decreases entries.len() - i,
    {
        let ghost rest = ev.skip(i as int);
        assert(rest.drop_first() =~= ev.skip(i + 1));
        assert(rest[0] == ev[i as int]);
        if str_eq(entries[i].0.as_str(), key.as_str()) {
            assert(ev[i as int].0 == key@);
            assert(key_index(rest, key@) == Some(0int));
            assert(key_index(ev, key@) == Some(i as int));
            let (k, old) = entries.remove(i);
            let merged = merge_values(old, v);
            entries.insert(i, (k, merged));
            assert(entries_view(entries@) =~= ev.update(
                i as int,
                (key@, merge_member(ev[i as int].1, v@)),
            ));
            return entries;
        }
        i += 1;
    }
    assert(key_index(ev, key@) is None);
    let mut j: usize = 0;
    while j < entries.len() && str_less(entries[j].0.as_str(), key.as_str())
        invariant
            j <= entries.len() == ev.len(),
            ev == entries_view(entries@),
            key_slot(ev, key@) == j + key_slot(ev.skip(j as int), key@),
        decreases entries.len() - j,
    {
        assert(ev.skip(j as int).drop_first() =~= ev.skip(j + 1));
        assert(ev.skip(j as int)[0] == ev[j as int]);
        j += 1;
    }
    proof {
        if j < entries.len() {
            assert(ev.skip(j as int)[0] == ev[j as int]);
        }
    }
    let ghost kv = key@;
    let ghost vv = v@;
    entries.insert(j, (key, v));
    assert(entries_view(entries@) =~= ev.insert(j as int, (kv, vv)));
    entries
}

pub open spec fn stack_view(stack: Seq<(String, JsonValue)>) -> Seq<(Seq<char>, Json)> {
    entries_view(stack)
}

/// The finished element `name` added to the innermost open element.
fn attach_exec(stack: Vec<(String, JsonValue)>, name: &str, v: JsonValue) -> (res: Vec<
    (String, JsonValue),
>)
    ensures
        stack_view(res@) == attach(stack_view(stack@), name@, v@),
{
    let ghost sv = stack_view(stack@);
    let mut stack = stack;
    if stack.len() == 0 {
        return stack;
    }
    let (n, top) = stack.pop().unwrap();
    assert(stack_view(stack@) =~= sv.drop_last());
    match top {
        JsonValue::Object(es) => {
            proof {
                lemma_object_view(es);
            }
            let key = local_name_of(name);
            let es2 = attach_member_exec(es, key, v);
            let obj = JsonValue::Object(es2);
            proof {
                lemma_object_view(es2);
            }
            let ghost nv = n@;
            stack.push((n, obj));
            assert(stack_view(stack@) =~= sv.drop_last().push(
                (nv, Json::Object(attach_member(entries_view(es@), local_name(name@), v@))),
            ));
            stack
        },
        other => {
            stack.push((n, other));
            assert(stack_view(stack@) =~= sv);
            stack
        },
    }
}

/// The events that quick-xml reads from `xml`, up to and including the end of the
/// document or the first error.
fn read_xml_events(xml: &str) -> (res: Vec<XmlEvent>)
    ensures
        event_views(res@) == xml_events(xml@),
{
    let mut reader = open_xml_reader(xml);
    let ghost toks = xml_events(xml@);
    let mut out: Vec<XmlEvent> = Vec::new();
    assert(event_views(out@) =~= toks.take(0));
    assert(toks.skip(0) =~= toks);
    loop
        invariant
            toks == xml_events(xml@),
            event_run(toks),
            out@.len() < toks.len(),
            pending_events(reader) == toks.skip(out@.len() as int),
            event_views(out@) == toks.take(out@.len() as int),
        decreases toks.len() - out@.len(),
    {
        let ghost k = out@.len() as int;
        let ghost rest = toks.skip(k);
        assert(rest.last() == toks.last());
        assert forall|i: int| 0 <= i < rest.len() - 1 implies !is_final_event(#[trigger] rest[i]) by {
            assert(rest[i] == toks[k + i]);
        }
        let ev = next_xml_event(&mut reader);
        assert(rest[0] == toks[k]);
        assert(rest.drop_first() =~= toks.skip(k + 1));
        let last = match ev {
            XmlEvent::Eof => true,
            XmlEvent::Error(_) => true,
            _ => false,
        };
        let ghost before = event_views(out@);
        out.push(ev);
        assert(event_views(out@) =~= before.push(toks[k]));
        assert(toks.take(k + 1) =~= toks.take(k).push(toks[k]));
        if last {
            assert(k == toks.len() - 1);
            assert(toks.take(k + 1) =~= toks);
            return out;
        }
        assert(k < toks.len() - 1);
    }
}

/// The JSON tree that a run of XML events builds, as [`events_json`] describes it.
pub fn json_of_events(events: &Vec<XmlEvent>) -> (res: Result<JsonValue, String>)
    ensures
        match res {
            Ok(v) => events_json(event_views(events@)) == Ok::<Json, Seq<char>>(v@),
            Err(m) => events_json(event_views(events@)) == Err::<Json, Seq<char>>(m@),
        },
{
    let ghost toks = event_views(events@);
    let mut k: usize = 0;
    let mut stack: Vec<(String, JsonValue)> = Vec::new();
    assert(stack_view(stack@) =~= Seq::<(Seq<char>, Json)>::empty());
    assert(toks.skip(0) =~= toks);
    while k < events.len()
        invariant
            toks == event_views(events@),
            k <= events.len(),
            xml_run(Seq::empty(), toks) == xml_run(stack_view(stack@), toks.skip(k as int)),
        decreases events.len() - k,
    {
        let ghost sv = stack_view(stack@);
        let ghost rest = toks.skip(k as int);
        assert(rest[0] == events@[k as int]@);
        assert(rest.drop_first() =~= toks.skip(k + 1));
        match &events[k] {
            XmlEvent::Start(n) => {
                let es: Vec<(String, JsonValue)> = Vec::new();
                let obj = JsonValue::Object(es);
                proof {
                    lemma_object_view(es);
                    assert(entries_view(es@) =~= Seq::<(Seq<char>, Json)>::empty());
                }
                let nc = n.clone();
                stack.push((nc, obj));
                assert(stack_view(stack@) =~= sv.push((n@, Json::Object(Seq::empty()))));
            },
            XmlEvent::Empty(n) => {
                let empty = JsonValue::Str(String::new());
                stack = attach_exec(stack, n.as_str(), empty);
            },
            XmlEvent::Text(t) => {
                if stack.len() > 0 {
                    let (n, _old) = stack.pop().unwrap();
                    let ghost nv = n@;
                    let tc = t.clone();
                    stack.push((n, JsonValue::Str(tc)));
                    assert(stack_view(stack@) =~= sv.drop_last().push((nv, Json::Str(t@))));
                }
            },
            XmlEvent::End => {
                if stack.len() > 0 {
                    let (n, v) = stack.pop().unwrap();
                    if stack.len() == 0 {
                        return Ok(v);
                    }
                    assert(stack_view(stack@) =~= sv.drop_last());
                    stack = attach_exec(stack, n.as_str(), v);
                }
            },
            XmlEvent::Eof => {
                return Ok(JsonValue::Null);
            },
            XmlEvent::Other => {},
            XmlEvent::Error(m) => {
                return Err(m.clone());
            },
        }
        k += 1;
    }
    assert(toks.skip(k as int) =~= Seq::<XmlTok>::empty());
    Ok(JsonValue::Null)
}

/// The JSON tree of an XML document, as `xml_json` describes it.
pub fn xml_to_json(xml: &str) -> (res: Result<JsonValue, String>)
    ensures
        match res {
            Ok(v) => xml_json(xml@) == Ok::<Json, Seq<char>>(v@),
            Err(m) => xml_json(xml@) == Err::<Json, Seq<char>>(m@),
        },
{
    let events = read_xml_events(xml);
    json_of_events(&events)
}

// ---------------------------------------------------------------------------
// The responses of a multistatus answer
// ---------------------------------------------------------------------------

/// What a `response` member holds: its items where it is an array, else itself.
pub open spec fn response_items(v: Option<Json>) -> Seq<Json> {
    match v {
        Some(Json::Array(items)) => items,
        Some(item) => seq![item],
        None => Seq::empty(),
    }
}

/// Every `response` found in a JSON tree: an object's own `response` member first, then
/// those found in each of its members in turn; an array's items in turn.
pub open spec fn responses(v: Json) -> Seq<Json>
    decreases v,
{
    match v {
        Json::Object(es) => response_items(member(es, "response"@)) + responses_of_members(es),
        Json::Array(items) => responses_of_items(items),
        _ => Seq::empty(),
    }
}

pub open spec fn responses_of_items(items: Seq<Json>) -> Seq<Json>
    decreases items,
{
    if items.len() == 0 {
        Seq::empty()
    } else {
        responses_of_items(items.drop_last()) + responses(items.last())
    }
}

pub open spec fn responses_of_members(es: Seq<(Seq<char>, Json)>) -> Seq<Json>
    decreases es,
{
    if es.len() == 0 {
        Seq::empty()
    } else {
        proof {
            assert(decreases_to!(es => es[es.len() - 1]));
        }
        responses_of_members(es.drop_last()) + responses(es.last().1)
    }
}

fn push_view(out: &mut Vec<JsonValue>, v: JsonValue)
    ensures
        values_view(final(out)@) == values_view(old(out)@).push(json_view(v)),
{
    out.push(v);
    assert(values_view(out@) =~= values_view(old(out)@).push(json_view(v)));
}

/// Appends to `out` every `response` found in `v`, in the order `responses` gives.
pub fn collect_responses(v: &JsonValue, out: &mut Vec<JsonValue>)
    ensures
        values_view(final(out)@) == values_view(old(out)@) + responses(v@),
    decreases v,
{
    let ghost start = values_view(out@);
    match v {
        JsonValue::Object(es) => {
            proof {
                lemma_object_view(*es);
            }
            let ghost ev = entries_view(es@);
            match crate::json::json_get(Some(v), "response") {
                Some(JsonValue::Array(items)) => {
                    proof {
                        lemma_array_view(*items);
                    }
                    let mut k: usize = 0;
                    while k < items.len()
                        invariant
                            k <= items.len(),
                            values_view(out@) == start + values_view(items@).take(k as int),
                        decreases items.len() - k,
                    {
                        push_view(out, items[k].clone());
                        k += 1;
                        assert(values_view(items@).take(k as int) =~= values_view(items@).take(
                            k - 1,
                        ).push(json_view(items@[k - 1])));
                    }
                    assert(values_view(items@).take(k as int) =~= values_view(items@));
                    assert(values_view(items@) == response_items(member(ev, "response"@)));
                },
                Some(item) => {
                    push_view(out, item.clone());
                    assert(seq![json_view(*item)] == response_items(member(ev, "response"@)));
                },
                None => {},
            }
            let ghost mid = values_view(out@);
            assert(mid == start + response_items(member(ev, "response"@)));
            let mut k: usize = 0;
            assert(ev.take(0) =~= Seq::<(Seq<char>, Json)>::empty());
            while k < es.len()
                invariant
                    k <= es.len() == ev.len(),
                    ev == entries_view(es@),
                    *v == JsonValue::Object(*es),
                    values_view(out@) == mid + responses_of_members(ev.take(k as int)),
                decreases es.len() - k,
            {
                proof {
                    assert(decreases_to!(*v => (*v)->Object_0));
                    assert(decreases_to!(*es => es@[k as int]));
                    assert(decreases_to!(es@[k as int] => es@[k as int].1));
                }
                collect_responses(&es[k].1, out);
                assert(ev.take(k + 1).drop_last() =~= ev.take(k as int));
                assert(ev.take(k + 1).last() == ev[k as int]);
                k += 1;
            }
            assert(ev.take(k as int) =~= ev);
        },
        JsonValue::Array(items) => {
            proof {
                lemma_array_view(*items);
            }
            let ghost iv = values_view(items@);
            let mut k: usize = 0;
            assert(iv.take(0) =~= Seq::<Json>::empty());
            while k < items.len()
                invariant
                    k <= items.len() == iv.len(),
                    iv == values_view(items@),
                    *v == JsonValue::Array(*items),
                    values_view(out@) == start + responses_of_items(iv.take(k as int)),
                decreases items.len() - k,
            {
                proof {
                    assert(decreases_to!(*v => (*v)->Array_0));
                    assert(decreases_to!(*items => items@[k as int]));
                }
                collect_responses(&items[k], out);
                assert(iv.take(k + 1).drop_last() =~= iv.take(k as int));
                assert(iv.take(k + 1).last() == iv[k as int]);
                k += 1;
            }
            assert(iv.take(k as int) =~= iv);
        },
        _ => {
            assert(values_view(out@) =~= start + responses(v@));
        },
    }
}

// ---------------------------------------------------------------------------
// URLs and the other outside calls
// ---------------------------------------------------------------------------

/// The URL that `text` parses to, written out, and its path; nothing where `text` does
/// not parse.
pub uninterp spec fn url_parsed(text: Seq<char>) -> Option<(Seq<char>, Seq<char>)>;

/// The URL that `text` parses to with its path replaced by `path`, written out, and the
/// path it then has; nothing where `text` does not parse.
pub uninterp spec fn url_with_path(text: Seq<char>, path: Seq<char>) -> Option<
    (Seq<char>, Seq<char>),
>;

/// The URL that `reference` resolves to against the URL `base`, written out; nothing
/// where either does not parse.
pub uninterp spec fn url_joined(base: Seq<char>, reference: Seq<char>) -> Option<Seq<char>>;

/// `text` with its `%XX` escapes decoded and the bytes read as UTF-8, invalid sequences
/// replaced.
pub uninterp spec fn percent_decoded(text: Seq<char>) -> Seq<char>;

/// The instant that an RFC 2822 date-time denotes, in seconds since the Unix epoch;
/// nothing where `text` is not one.
pub uninterp spec fn rfc2822_seconds(text: Seq<char>) -> Option<i64>;

/// `reqwest::Url::parse`, then the URL written out (`to_string`) and `Url::path`: the
/// contract names the pair.
#[verifier::external_body]
pub(crate) fn parse_url(text: &str) -> (res: Option<(String, String)>)
    ensures
        match res {
            Some(r) => url_parsed(text@) == Some((r.0@, r.1@)),
            None => url_parsed(text@) is None,
        },
{
    match reqwest::Url::parse(text) {
        Ok(url) => Some((url.to_string(), url.path().to_string())),
        Err(_) => None,
    }
}

pub open spec fn opt_str(o: Option<&str>) -> Option<Seq<char>> {
    match o {
        Some(s) => Some(s@),
        None => None,
    }
}

/// `reqwest::Url::parse`, then `Url::set_path`, then the URL written out (`to_string`)
/// and `Url::path`: the contract names the pair.
#[verifier::external_body]
pub(crate) fn url_set_path(text: &str, path: &str) -> (res: Option<(String, String)>)
    ensures
        match res {
            Some(r) => url_with_path(text@, path@) == Some((r.0@, r.1@)),
            None => url_with_path(text@, path@) is None,
        },
{
    match reqwest::Url::parse(text) {
        Ok(mut url) => {
            url.set_path(path);
            Some((url.to_string(), url.path().to_string()))
        },
        Err(_) => None,
    }
}

/// `reqwest::Url::parse` of `base`, then `Url::join` with `reference`, written out: the
/// contract names the result.
#[verifier::external_body]
fn join_url_text(base: &str, reference: &str) -> (res: Option<String>)
    ensures
        opt_text(res) == url_joined(base@, reference@),
{
    match reqwest::Url::parse(base) {
        Ok(url) => match url.join(reference) {
            Ok(joined) => Some(joined.to_string()),
            Err(_) => None,
        },
        Err(_) => None,
    }
}

/// `percent_encoding::percent_decode_str`, then `decode_utf8_lossy`: the contract names
/// the result.
#[verifier::external_body]
fn percent_decode(text: &str) -> (res: String)
    ensures
        res@ == percent_decoded(text@),
{
    percent_encoding::percent_decode_str(text).decode_utf8_lossy().to_string()
}

/// `chrono::DateTime::parse_from_rfc2822`, then `timestamp` of the instant: the contract
/// names the result.
#[verifier::external_body]
fn rfc2822_timestamp(text: &str) -> (res: Option<i64>)
    ensures
        res == rfc2822_seconds(text@),
{
    match chrono::DateTime::parse_from_rfc2822(text) {
        Ok(time) => Some(time.with_timezone(&chrono::Utc).timestamp()),
        Err(_) => None,
    }
}

/// A byte that URL encoding keeps: an ASCII letter or digit, `-`, `_`, `.` or `~`.
pub open spec fn url_safe_byte(b: u8) -> bool {
    (48 <= b <= 57) || (65 <= b <= 90) || (97 <= b <= 122) || b == 45 || b == 95 || b == 46
        || b == 126
}

/// An upper-case hexadecimal digit.
pub open spec fn hex_upper(d: int) -> char {
    if d < 10 {
        (48 + d) as char
    } else {
        (55 + d) as char
    }
}

/// The bytes written as text, every byte but the safe ones as `%` and two upper-case
/// hexadecimal digits.
pub open spec fn percent_encoded(bytes: Seq<u8>) -> Seq<char>
    decreases bytes.len(),
{
    if bytes.len() == 0 {
        Seq::empty()
    } else {
        let b = bytes.last();
        percent_encoded(bytes.drop_last()) + if url_safe_byte(b) {
            seq![b as char]
        } else {
            seq!['%', hex_upper((b / 16) as int), hex_upper((b % 16) as int)]
        }
    }
}

/// `urlencoding::encode`: every byte of the UTF-8 text but ASCII letters, digits, `-`,
/// `_`, `.` and `~` written as `%` and two upper-case hexadecimal digits.
#[verifier::external_body]
fn url_encode(text: &str) -> (res: String)
    ensures
        res@ == percent_encoded(vstd::utf8::encode_utf8(text@)),
{
    urlencoding::encode(text).into_owned()
}

// ---------------------------------------------------------------------------
// Remote entries
// ---------------------------------------------------------------------------

/// A file or directory of the remote store, by its path relative to the store's root.
#[derive(Debug)]
pub struct RemoteEntry {
    pub relative_path: String,
    pub is_directory: bool,
    /// Seconds since the Unix epoch.
    pub last_modified: Option<i64>,
    pub size: Option<u64>,
}

pub struct RemoteEntryView {
    pub relative_path: Seq<char>,
    pub is_directory: bool,
    pub last_modified: Option<i64>,
    pub size: Option<u64>,
}

impl View for RemoteEntry {
    type V = RemoteEntryView;

    open spec fn view(&self) -> RemoteEntryView {
        RemoteEntryView {
            relative_path: self.relative_path@,
            is_directory: self.is_directory,
            last_modified: self.last_modified,
            size: self.size,
        }
    }
}

impl Clone for RemoteEntry {
    fn clone(&self) -> (res: Self)
        ensures
            res@ == self@,
    {
        RemoteEntry {
            relative_path: self.relative_path.clone(),
            is_directory: self.is_directory,
            last_modified: self.last_modified,
            size: self.size,
        }
    }
}

/// The first item of an array, or the value itself.
pub open spec fn first_value(v: Json) -> Json {
    match v {
        Json::Array(items) => if items.len() > 0 {
            items[0]
        } else {
            v
        },
        _ => v,
    }
}

pub open spec fn text_of(v: Option<Json>) -> Option<Seq<char>> {
    crate::json::as_str(v)
}

/// The path of a response's `href` relative to the store's root path `base_path`,
/// decoded and without surrounding `/`.
pub open spec fn response_relative(href: Seq<char>, base_path: Seq<char>) -> Seq<char> {
    let href_path = match url_parsed(href) {
        Some((_, p)) => p,
        None => href,
    };
    let decoded = crate::text::trim_char(percent_decoded(href_path), '/');
    if base_path.len() > 0 && crate::text::starts_with(decoded, base_path) {
        crate::text::trim_char(decoded.skip(base_path.len() as int), '/')
    } else {
        decoded
    }
}

/// The entry that one `response` of a multistatus answer describes: nothing where it has
/// no `href`, where its path is the root or the target asked about, or where it has no
/// `propstat` with a `prop` (the first where there are several). A directory where the
/// resource type, written as JSON text (`to_string`), holds `collection`; the size and the time where they are given and
/// read.
pub open spec fn spec_remote_entry(response: Json, base_path: Seq<char>, target: Seq<char>) -> Option<
    RemoteEntryView,
> {
    match text_of(crate::json::get(Some(response), "href"@)) {
        None => None,
        Some(href) => {
            let relative = response_relative(href, base_path);
            if relative.len() == 0 || relative == crate::text::trim_char(target, '/') {
                None
            } else {
                match crate::json::get(Some(response), "propstat"@) {
                    None => None,
                    Some(ps) => match crate::json::get(Some(first_value(ps)), "prop"@) {
                        None => None,
                        Some(prop) => Some(
                            RemoteEntryView {
                                relative_path: relative,
                                is_directory: match crate::json::get(
                                    Some(prop),
                                    "resourcetype"@,
                                ) {
                                    Some(r) => crate::text::contains_text(
                                        crate::json::json_written(r),
                                        "collection"@,
                                    ),
                                    None => false,
                                },
                                last_modified: match text_of(
                                    crate::json::get(Some(prop), "getlastmodified"@),
                                ) {
                                    Some(t) => rfc2822_seconds(t),
                                    None => None,
                                },
                                size: match text_of(
                                    crate::json::get(Some(prop), "getcontentlength"@),
                                ) {
                                    Some(t) => crate::text::parse_u64(t),
                                    None => None,
                                },
                            },
                        ),
                    },
                }
            }
        },
    }
}

fn first_value_of(v: &JsonValue) -> (res: &JsonValue)
    ensures
        res@ == first_value(v@),
{
    match v {
        JsonValue::Array(items) => {
            proof {
                lemma_array_view(*items);
            }
            if items.len() > 0 {
                &items[0]
            } else {
                v
            }
        },
        _ => v,
    }
}

fn relative_of_href(href: &str, base_path: &str) -> (res: String)
    ensures
        res@ == response_relative(href@, base_path@),
{
    let href_path = match parse_url(href) {
        Some((_, p)) => p,
        None => href.to_string(),
    };
    let decoded_text = percent_decode(href_path.as_str());
    let dcs = chars_of(decoded_text.as_str());
    let decoded = crate::text::trim_char_chars(dcs.as_slice(), '/');
    let bcs = chars_of(base_path);
    if bcs.len() > 0 && crate::text::chars_starts_with(decoded.as_slice(), bcs.as_slice()) {
        let rest = sub_chars(decoded.as_slice(), bcs.len(), decoded.len());
        assert(rest@ =~= decoded@.skip(bcs@.len() as int));
        let trimmed = crate::text::trim_char_chars(rest.as_slice(), '/');
        string_of(trimmed.as_slice())
    } else {
        string_of(decoded.as_slice())
    }
}

/// The entry that one `response` of a multistatus answer describes.
pub fn remote_entry_from_response(response: &JsonValue, base_path: &str, target_relative: &str) -> (res:
    Option<RemoteEntry>)
    ensures
        match res {
            Some(e) => spec_remote_entry(response@, base_path@, target_relative@) == Some(e@),
            None => spec_remote_entry(response@, base_path@, target_relative@) is None,
        },
{
    let href = match crate::json::json_as_str(crate::json::json_get(Some(response), "href")) {
        Some(h) => h,
        None => return None,
    };
    let relative = relative_of_href(href.as_str(), base_path);
    let tcs = chars_of(target_relative);
    let target = crate::text::trim_char_chars(tcs.as_slice(), '/');
    let rcs = chars_of(relative.as_str());
    if rcs.len() == 0 || chars_eq_slices(rcs.as_slice(), target.as_slice()) {
        return None;
    }
    let propstat = match crate::json::json_get(Some(response), "propstat") {
        Some(p) => p,
        None => return None,
    };
    let prop = match crate::json::json_get(Some(first_value_of(propstat)), "prop") {
        Some(p) => p,
        None => return None,
    };
    let is_directory = match crate::json::json_get(Some(prop), "resourcetype") {
        Some(r) => {
            let written = crate::json::write_json_text(r);
            let text = chars_of(written.as_str());
            let needle = chars_of("collection");
            crate::text::chars_contains(text.as_slice(), needle.as_slice())
        },
        None => false,
    };
    let last_modified = match crate::json::json_as_str(
        crate::json::json_get(Some(prop), "getlastmodified"),
    ) {
        Some(t) => rfc2822_timestamp(t.as_str()),
        None => None,
    };
    let size = match crate::json::json_as_str(crate::json::json_get(Some(prop), "getcontentlength")) {
        Some(t) => crate::text::parse_u64_text(t.as_str()),
        None => None,
    };
    Some(RemoteEntry { relative_path: relative, is_directory, last_modified, size })
}

fn chars_eq_slices(a: &[char], b: &[char]) -> (res: bool)
    ensures
        res == (a@ == b@),
{
    crate::text::chars_eq(a, b)
}

// ---------------------------------------------------------------------------
// Multistatus answers and URLs of the store
// ---------------------------------------------------------------------------

/// What went wrong reading the store's answers or URLs.
#[derive(Debug)]
pub enum DavError {
    /// A URL that does not parse (or does not resolve against the store's URL).
    InvalidUrl(String),
    /// The XML reader's message.
    Xml(String),
}

pub enum DavFault {
    InvalidUrl(Seq<char>),
    Xml(Seq<char>),
}

impl View for DavError {
    type V = DavFault;

    open spec fn view(&self) -> DavFault {
        match self {
            DavError::InvalidUrl(u) => DavFault::InvalidUrl(u@),
            DavError::Xml(m) => DavFault::Xml(m@),
        }
    }
}

/// The entries that the responses describe, in order, without those that describe none.
pub open spec fn entries_of(rs: Seq<Json>, base_path: Seq<char>, target: Seq<char>) -> Seq<
    RemoteEntryView,
>
    decreases rs.len(),
{
    if rs.len() == 0 {
        Seq::empty()
    } else {
        let head = entries_of(rs.drop_last(), base_path, target);
        match spec_remote_entry(rs.last(), base_path, target) {
            Some(e) => head.push(e),
            None => head,
        }
    }
}

pub open spec fn entry_views(s: Seq<RemoteEntry>) -> Seq<RemoteEntryView> {
    s.map_values(|e: RemoteEntry| e@)
}

/// The entries of a multistatus answer to a request about `target`, relative to the
/// path of `base_url`: the XML reader's failure first, then a base URL that does not
/// parse.
pub open spec fn spec_multistatus(base_url: Seq<char>, xml: Seq<char>, target: Seq<char>) -> Result<
    Seq<RemoteEntryView>,
    DavFault,
> {
    match xml_json(xml) {
        Err(m) => Err(DavFault::Xml(m)),
        Ok(v) => match url_parsed(base_url) {
            None => Err(DavFault::InvalidUrl(base_url)),
            Some((_, p)) => Ok(entries_of(responses(v), crate::text::trim_char(p, '/'), target)),
        },
    }
}

/// The entries of a multistatus answer to a request about `target_relative`.
pub fn parse_multistatus(base_url: &str, xml: &str, target_relative: &str) -> (res: Result<
    Vec<RemoteEntry>,
    DavError,
>)
    ensures
        match res {
            Ok(es) => spec_multistatus(base_url@, xml@, target_relative@) == Ok::<
                Seq<RemoteEntryView>,
                DavFault,
            >(entry_views(es@)),
            Err(e) => spec_multistatus(base_url@, xml@, target_relative@) == Err::<
                Seq<RemoteEntryView>,
                DavFault,
            >(e@),
        },
{
    let value = match xml_to_json(xml) {
        Ok(v) => v,
        Err(m) => return Err(DavError::Xml(m)),
    };
    let path = match parse_url(base_url) {
        Some((_, p)) => p,
        None => return Err(DavError::InvalidUrl(base_url.to_string())),
    };
    let pcs = chars_of(path.as_str());
    let trimmed = crate::text::trim_char_chars(pcs.as_slice(), '/');
    let base_path = string_of(trimmed.as_slice());
    let mut rs: Vec<JsonValue> = Vec::new();
    collect_responses(&value, &mut rs);
    assert(values_view(rs@) =~= responses(value@));
    let ghost rv = values_view(rs@);
    let mut out: Vec<RemoteEntry> = Vec::new();
    let mut k: usize = 0;
    assert(rv.take(0) =~= Seq::<Json>::empty());
    assert(entry_views(out@) =~= Seq::<RemoteEntryView>::empty());
    while k < rs.len()
        invariant
            k <= rs.len() == rv.len(),
            rv == values_view(rs@),
            entry_views(out@) == entries_of(rv.take(k as int), base_path@, target_relative@),
        decreases rs.len() - k,
    {
        assert(rv.take(k + 1).drop_last() =~= rv.take(k as int));
        assert(rv.take(k + 1).last() == json_view(rs@[k as int]));
        let ghost before = entry_views(out@);
        match remote_entry_from_response(&rs[k], base_path.as_str(), target_relative) {
            Some(e) => {
                out.push(e);
                assert(entry_views(out@) =~= before.push(out@[out@.len() - 1]@));
            },
            None => {},
        }
        k += 1;
    }
    assert(rv.take(k as int) =~= rv);
    Ok(out)
}

/// The index of the first entry with the path `relative`.
pub open spec fn entry_index(es: Seq<RemoteEntryView>, relative: Seq<char>) -> Option<int>
    decreases es.len(),
{
    if es.len() == 0 {
        None
    } else if es[0].relative_path == relative {
        Some(0)
    } else {
        match entry_index(es.drop_first(), relative) {
            Some(i) => Some(i + 1),
            None => None,
        }
    }
}

/// The first entry with the path `relative`.
pub fn find_entry(entries: &Vec<RemoteEntry>, relative: &str) -> (res: Option<RemoteEntry>)
    ensures
        match res {
            Some(e) => entry_index(entry_views(entries@), relative@) matches Some(i) && e@
                == entry_views(entries@)[i],
            None => entry_index(entry_views(entries@), relative@) is None,
        },
{
    let ghost ev = entry_views(entries@);
    let mut i: usize = 0;
    assert(ev.skip(0) =~= ev);
    while i < entries.len()
        invariant
            i <= entries.len() == ev.len(),
            ev == entry_views(entries@),
            entry_index(ev, relative@) == match entry_index(ev.skip(i as int), relative@) {
                Some(j) => Some(j + i),
                None => None,
            },
        decreases entries.len() - i,
    {
        let ghost rest = ev.skip(i as int);
        assert(rest.drop_first() =~= ev.skip(i + 1));
        assert(rest[0] == ev[i as int]);
        if str_eq(entries[i].relative_path.as_str(), relative) {
            return Some(entries[i].clone());
        }
        i += 1;
    }
    None
}

/// The pieces that are not empty.
pub open spec fn nonempty_only(ps: Seq<Seq<char>>) -> Seq<Seq<char>>
    decreases ps.len(),
{
    if ps.len() == 0 {
        Seq::empty()
    } else if ps.last().len() == 0 {
        nonempty_only(ps.drop_last())
    } else {
        nonempty_only(ps.drop_last()).push(ps.last())
    }
}

pub open spec fn url_encoded(p: Seq<char>) -> Seq<char> {
    percent_encoded(vstd::utf8::encode_utf8(p))
}

/// A path relative to the store's root written for a URL: its non-empty pieces
/// URL-encoded and joined with `/`, with a `/` at the end where the path has one and
/// something was written.
pub open spec fn encoded_relative(relative: Seq<char>) -> Seq<char> {
    let e = crate::pathparts::join_slash(
        nonempty_only(crate::pathparts::pieces(relative, false)).map_values(
            |p: Seq<char>| url_encoded(p),
        ),
    );
    if relative.len() > 0 && relative.last() == '/' && e.len() > 0 {
        e.push('/')
    } else {
        e
    }
}

/// The URL of `relative_path` in the store at `base_url`.
pub open spec fn spec_join_url(base_url: Seq<char>, relative_path: Seq<char>) -> Option<Seq<char>> {
    url_joined(base_url, encoded_relative(relative_path))
}

fn encode_relative(relative: &str) -> (res: String)
    ensures
        res@ == encoded_relative(relative@),
{
    let cs = chars_of(relative);
    let ps = crate::pathparts::split_pieces(cs.as_slice(), false);
    let ghost all = crate::pathparts::pieces(relative@, false);
    let mut out: Vec<char> = Vec::new();
    let mut k: usize = 0;
    let mut written: usize = 0;
    let ghost enc = |p: Seq<char>| url_encoded(p);
    assert(all.take(0) =~= Seq::<Seq<char>>::empty());
    assert(nonempty_only(all.take(0)).map_values(enc) =~= Seq::<Seq<char>>::empty());
    while k < ps.len()
        invariant
            k <= ps.len() == all.len(),
            forall|i: int| 0 <= i < ps@.len() ==> #[trigger] ps@[i]@ == all[i],
            enc == |p: Seq<char>| url_encoded(p),
            written == nonempty_only(all.take(k as int)).len(),
            written <= k,
            out@ == crate::pathparts::join_slash(nonempty_only(all.take(k as int)).map_values(enc)),
        decreases ps.len() - k,
    {
        let ghost prev = nonempty_only(all.take(k as int)).map_values(enc);
        assert(all.take(k + 1).drop_last() =~= all.take(k as int));
        assert(all.take(k + 1).last() == all[k as int]);
        if ps[k].len() > 0 {
            let piece = string_of(ps[k].as_slice());
            let e = url_encode(piece.as_str());
            if written > 0 {
                out.push('/');
            }
            crate::text::append_str(&mut out, e.as_str());
            let ghost next = nonempty_only(all.take(k + 1)).map_values(enc);
            assert(next =~= prev.push(url_encoded(all[k as int])));
            assert(next.drop_last() =~= prev);
            if written == 0 {
                assert(next.len() == 1);
                assert(out@ =~= next[0]);
            }
            written += 1;
        }
        k += 1;
    }
    assert(all.take(k as int) =~= all);
    let e_len = out.len();
    if cs.len() > 0 && cs[cs.len() - 1] == '/' && e_len > 0 {
        out.push('/');
    }
    string_of(out.as_slice())
}

/// The URL of `relative_path` in the store at `base_url`: its pieces URL-encoded and
/// resolved against the store's URL.
pub fn join_url(base_url: &str, relative_path: &str) -> (res: Result<String, DavError>)
    ensures
        match res {
            Ok(u) => spec_join_url(base_url@, relative_path@) == Some(u@),
            Err(e) => spec_join_url(base_url@, relative_path@) is None && e@ == DavFault::InvalidUrl(
                base_url@,
            ),
        },
{
    let encoded = encode_relative(relative_path);
    match join_url_text(base_url, encoded.as_str()) {
        Some(u) => Ok(u),
        None => Err(DavError::InvalidUrl(base_url.to_string())),
    }
}

} // verus!
