//! TOML documents as toml_edit parses, edits and renders them, read into and written from
//! the plain model of `toml`.
use vstd::prelude::*;
use crate::toml::{table_view, toml_view, Toml, TomlItem};

verus! {

// ---------------------------------------------------------------------------
// toml_edit's types and what they hold
// ---------------------------------------------------------------------------

#[verifier::external_type_specification]
#[verifier::external_body]
pub struct ExDocumentMut(toml_edit::DocumentMut);

#[verifier::external_type_specification]
#[verifier::external_body]
pub struct ExTomlTable(toml_edit::Table);

#[verifier::external_type_specification]
#[verifier::external_body]
pub struct ExTomlItem(toml_edit::Item);

#[verifier::external_type_specification]
#[verifier::external_body]
pub struct ExTomlValue(toml_edit::Value);

#[verifier::external_type_specification]
#[verifier::external_body]
pub struct ExTomlInlineTable(toml_edit::InlineTable);

#[verifier::external_type_specification]
#[verifier::external_body]
pub struct ExTomlArrayOfTables(toml_edit::ArrayOfTables);

/// Whether toml_edit parses `text` as a document.
pub uninterp spec fn toml_accepts(text: Seq<char>) -> bool;

/// The entries of the root table of the document that toml_edit parses from `text`.
pub uninterp spec fn toml_text_table(text: Seq<char>) -> Seq<(Seq<char>, Toml)>;

/// The entries of a document's root table.
pub uninterp spec fn toml_doc_table(doc: toml_edit::DocumentMut) -> Seq<(Seq<char>, Toml)>;

/// The text that toml_edit renders for a document.
pub uninterp spec fn toml_doc_text(doc: toml_edit::DocumentMut) -> Seq<char>;

/// The entries of a table, in the order `Table::iter` gives them: each key, and its item
/// as the model holds it (strings, booleans, tables, inline tables and arrays of tables;
/// any other value as `Other`).
pub uninterp spec fn toml_table_entries(t: toml_edit::Table) -> Seq<(Seq<char>, Toml)>;

/// The entries of an inline table, in the order `InlineTable::iter` gives them.
pub uninterp spec fn toml_inline_entries(t: toml_edit::InlineTable) -> Seq<(Seq<char>, Toml)>;

/// The tables of an array of tables, in the order `ArrayOfTables::iter` gives them.
pub uninterp spec fn toml_tables_of(a: toml_edit::ArrayOfTables) -> Seq<Seq<(Seq<char>, Toml)>>;

/// An item as the model holds it.
pub uninterp spec fn toml_item_of(item: toml_edit::Item) -> Toml;

/// A value as the model holds it.
pub uninterp spec fn toml_value_of(v: toml_edit::Value) -> Toml;

// ---------------------------------------------------------------------------
// Reading
// ---------------------------------------------------------------------------

/// `str::parse::<DocumentMut>`: a document exactly where toml_edit accepts the text,
/// holding the entries that the text gives its root table, each with an item.
#[verifier::external_body]
pub(crate) fn toml_parse_document(text: &str) -> (res: Option<toml_edit::DocumentMut>)
    ensures
        res is Some <==> toml_accepts(text@),
        res matches Some(d) ==> toml_doc_table(d) == toml_text_table(text@) && toml_doc_plain(d),
{
    text.parse::<toml_edit::DocumentMut>().ok()
}

/// `DocumentMut::as_table`: the document's root table.
#[verifier::external_body]
fn toml_root(doc: &toml_edit::DocumentMut) -> (res: &toml_edit::Table)
    ensures
        toml_table_entries(*res) == toml_doc_table(*doc),
{
    doc.as_table()
}

/// `Table::len`: the number of entries.
#[verifier::external_body]
fn toml_table_len(t: &toml_edit::Table) -> (res: usize)
    ensures
        res == toml_table_entries(*t).len(),
{
    t.len()
}

/// `Table::iter`, its entry at `i`: the key and the item.
#[verifier::external_body]
fn toml_table_entry(t: &toml_edit::Table, i: usize) -> (res: (String, &toml_edit::Item))
    requires
        i < toml_table_entries(*t).len(),
    ensures
        res.0@ == toml_table_entries(*t)[i as int].0,
        toml_item_of(*res.1) == toml_table_entries(*t)[i as int].1,
{
    t.iter().nth(i).map(|(k, v)| (k.to_string(), v)).unwrap()
}

/// `InlineTable::len`: the number of entries.
#[verifier::external_body]
fn toml_inline_len(t: &toml_edit::InlineTable) -> (res: usize)
    ensures
        res == toml_inline_entries(*t).len(),
{
    t.len()
}

/// `InlineTable::iter`, its entry at `i`: the key and the value.
#[verifier::external_body]
fn toml_inline_entry(t: &toml_edit::InlineTable, i: usize) -> (res: (String, &toml_edit::Value))
    requires
        i < toml_inline_entries(*t).len(),
    ensures
        res.0@ == toml_inline_entries(*t)[i as int].0,
        toml_value_of(*res.1) == toml_inline_entries(*t)[i as int].1,
{
    t.iter().nth(i).map(|(k, v)| (k.to_string(), v)).unwrap()
}

/// `ArrayOfTables::iter`, counted: the number of tables.
#[verifier::external_body]
fn toml_tables_len(a: &toml_edit::ArrayOfTables) -> (res: usize)
    ensures
        res == toml_tables_of(*a).len(),
{
    a.iter().count()
}

/// `ArrayOfTables::iter`, its table at `i`.
#[verifier::external_body]
fn toml_tables_at(a: &toml_edit::ArrayOfTables, i: usize) -> (res: &toml_edit::Table)
    requires
        i < toml_tables_of(*a).len(),
    ensures
        toml_table_entries(*res) == toml_tables_of(*a)[i as int],
{
    a.iter().nth(i).unwrap()
}

/// What an item is.
pub enum ItemCase<'a> {
    Plain(&'a toml_edit::Value),
    Section(&'a toml_edit::Table),
    Tables(&'a toml_edit::ArrayOfTables),
    Nothing,
}

/// `toml_edit::Item`'s variants told apart.
#[verifier::external_body]
fn toml_item_case(item: &toml_edit::Item) -> (res: ItemCase<'_>)
    ensures
        match res {
            ItemCase::Plain(v) => toml_item_of(*item) == toml_value_of(*v),
            ItemCase::Section(t) => toml_item_of(*item) == Toml::Section(toml_table_entries(*t)),
            ItemCase::Tables(a) => toml_item_of(*item) == Toml::SectionArray(toml_tables_of(*a)),
            ItemCase::Nothing => toml_item_of(*item) == Toml::Other,
        },
{
    match item {
        toml_edit::Item::Value(v) => ItemCase::Plain(v),
        toml_edit::Item::Table(t) => ItemCase::Section(t),
        toml_edit::Item::ArrayOfTables(a) => ItemCase::Tables(a),
        toml_edit::Item::None => ItemCase::Nothing,
    }
}

/// What a value is, as far as the model tells values apart.
pub enum ValueCase<'a> {
    Str(String),
    Bool(bool),
    Inline(&'a toml_edit::InlineTable),
    Other,
}

/// `toml_edit::Value`'s variants told apart: a string with its value, a boolean, an
/// inline table, and any other value.
#[verifier::external_body]
fn toml_value_case(v: &toml_edit::Value) -> (res: ValueCase<'_>)
    ensures
        match res {
            ValueCase::Str(s) => toml_value_of(*v) == Toml::Str(s@),
            ValueCase::Bool(b) => toml_value_of(*v) == Toml::Bool(b),
            ValueCase::Inline(t) => toml_value_of(*v) == Toml::InlineSection(toml_inline_entries(*t)),
            ValueCase::Other => toml_value_of(*v) == Toml::Other,
        },
{
    match v {
        toml_edit::Value::String(s) => ValueCase::Str(s.value().clone()),
        toml_edit::Value::Boolean(b) => ValueCase::Bool(*b.value()),
        toml_edit::Value::InlineTable(t) => ValueCase::Inline(t),
        _ => ValueCase::Other,
    }
}

pub open spec fn tables_view(ts: Seq<Vec<(String, TomlItem)>>) -> Seq<Seq<(Seq<char>, Toml)>> {
    ts.map_values(|e: Vec<(String, TomlItem)>| table_view(e@))
}

proof fn lemma_table_item(es: Vec<(String, TomlItem)>)
    ensures
        toml_view(TomlItem::Section(es)) == Toml::Section(table_view(es@)),
        toml_view(TomlItem::InlineSection(es)) == Toml::InlineSection(table_view(es@)),
{
    if let Toml::Section(a) = toml_view(TomlItem::Section(es)) {
        assert(a =~= table_view(es@));
    }
    if let Toml::InlineSection(a) = toml_view(TomlItem::InlineSection(es)) {
        assert(a =~= table_view(es@));
    }
}

proof fn lemma_tables_item(ts: Vec<Vec<(String, TomlItem)>>)
    ensures
        toml_view(TomlItem::SectionArray(ts)) == Toml::SectionArray(tables_view(ts@)),
{
    if let Toml::SectionArray(a) = toml_view(TomlItem::SectionArray(ts)) {
        assert forall|i: int| 0 <= i < a.len() implies a[i] == tables_view(ts@)[i] by {
            assert(a[i] =~= tables_view(ts@)[i]);
        }
        assert(a =~= tables_view(ts@));
    }
}

fn item_from(item: &toml_edit::Item) -> (res: TomlItem)
    ensures
        toml_view(res) == toml_item_of(*item),
    decreases toml_item_of(*item), 2nat,
{
    match toml_item_case(item) {
        ItemCase::Plain(v) => value_from(v),
        ItemCase::Section(t) => {
            proof {
                let e = toml_table_entries(*t);
                let x = Toml::Section(e);
                assert(decreases_to!(x => x->Section_0));
            }
            let es = table_from(t);
            proof {
                lemma_table_item(es);
            }
            TomlItem::Section(es)
        },
        ItemCase::Tables(a) => {
            proof {
                let e = toml_tables_of(*a);
                let x = Toml::SectionArray(e);
                assert(decreases_to!(x => x->SectionArray_0));
            }
            let ts = tables_from(a);
            proof {
                lemma_tables_item(ts);
            }
            TomlItem::SectionArray(ts)
        },
        ItemCase::Nothing => TomlItem::Other,
    }
}

fn value_from(v: &toml_edit::Value) -> (res: TomlItem)
    ensures
        toml_view(res) == toml_value_of(*v),
    decreases toml_value_of(*v), 1nat,
{
    match toml_value_case(v) {
        ValueCase::Str(s) => TomlItem::Str(s),
        ValueCase::Bool(b) => TomlItem::Bool(b),
        ValueCase::Inline(t) => {
            proof {
                let e = toml_inline_entries(*t);
                let x = Toml::InlineSection(e);
                assert(decreases_to!(x => x->InlineSection_0));
            }
            let es = inline_from(t);
            proof {
                lemma_table_item(es);
            }
            TomlItem::InlineSection(es)
        },
        ValueCase::Other => TomlItem::Other,
    }
}

fn table_from(t: &toml_edit::Table) -> (res: Vec<(String, TomlItem)>)
    ensures
        table_view(res@) == toml_table_entries(*t),
    decreases toml_table_entries(*t), 0nat,
{
    let ghost es = toml_table_entries(*t);
    let n = toml_table_len(t);
    let mut out: Vec<(String, TomlItem)> = Vec::new();
    let mut i: usize = 0;
    while i < n
        invariant
            i <= n == es.len(),
            es == toml_table_entries(*t),
            table_view(out@) == es.take(i as int),
        decreases n - i,
    {
        let (key, item) = toml_table_entry(t, i);
        proof {
            assert(decreases_to!(es => es[i as int]));
            assert(decreases_to!(es[i as int] => es[i as int].1));
        }
        let converted = item_from(item);
        let ghost before = table_view(out@);
        let ghost entry = (key@, toml_view(converted));
        out.push((key, converted));
        assert(table_view(out@) =~= before.push(entry));
        assert(es.take(i + 1) =~= es.take(i as int).push(es[i as int]));
        i += 1;
    }
    assert(es.take(i as int) =~= es);
    out
}

fn inline_from(t: &toml_edit::InlineTable) -> (res: Vec<(String, TomlItem)>)
    ensures
        table_view(res@) == toml_inline_entries(*t),
    decreases toml_inline_entries(*t), 0nat,
{
    let ghost es = toml_inline_entries(*t);
    let n = toml_inline_len(t);
    let mut out: Vec<(String, TomlItem)> = Vec::new();
    let mut i: usize = 0;
    while i < n
        invariant
            i <= n == es.len(),
            es == toml_inline_entries(*t),
            table_view(out@) == es.take(i as int),
        decreases n - i,
    {
        let (key, value) = toml_inline_entry(t, i);
        proof {
            assert(decreases_to!(es => es[i as int]));
            assert(decreases_to!(es[i as int] => es[i as int].1));
        }
        let converted = value_from(value);
        let ghost before = table_view(out@);
        let ghost entry = (key@, toml_view(converted));
        out.push((key, converted));
        assert(table_view(out@) =~= before.push(entry));
        assert(es.take(i + 1) =~= es.take(i as int).push(es[i as int]));
        i += 1;
    }
    assert(es.take(i as int) =~= es);
    out
}

fn tables_from(a: &toml_edit::ArrayOfTables) -> (res: Vec<Vec<(String, TomlItem)>>)
    ensures
        tables_view(res@) == toml_tables_of(*a),
    decreases toml_tables_of(*a), 0nat,
{
    let ghost ts = toml_tables_of(*a);
    let n = toml_tables_len(a);
    let mut out: Vec<Vec<(String, TomlItem)>> = Vec::new();
    let mut i: usize = 0;
    while i < n
        invariant
            i <= n == ts.len(),
            ts == toml_tables_of(*a),
            tables_view(out@) == ts.take(i as int),
        decreases n - i,
    {
        let t = toml_tables_at(a, i);
        proof {
            assert(decreases_to!(ts => ts[i as int]));
        }
        let converted = table_from(t);
        let ghost before = tables_view(out@);
        let ghost entry = table_view(converted@);
        out.push(converted);
        assert(tables_view(out@) =~= before.push(entry));
        assert(ts.take(i + 1) =~= ts.take(i as int).push(ts[i as int]));
        i += 1;
    }
    assert(ts.take(i as int) =~= ts);
    out
}

/// The entries of a document's root table, as the model holds them.
pub fn document_entries(doc: &toml_edit::DocumentMut) -> (res: Vec<(String, TomlItem)>)
    ensures
        table_view(res@) == toml_doc_table(*doc),
{
    table_from(toml_root(doc))
}

/// A TOML text parsed by toml_edit, its root table as the model holds it: nothing where
/// toml_edit does not accept the text.
pub fn parse_toml(text: &str) -> (res: Option<Vec<(String, TomlItem)>>)
    ensures
        res is Some <==> toml_accepts(text@),
        res matches Some(es) ==> table_view(es@) == toml_text_table(text@),
{
    match toml_parse_document(text) {
        Some(doc) => Some(document_entries(&doc)),
        None => None,
    }
}

// ---------------------------------------------------------------------------
// Editing
// ---------------------------------------------------------------------------

/// Every entry of the document's root table holds an item: none was left without one
/// (as indexing a table by a new key without assigning to it leaves it).
pub uninterp spec fn toml_doc_plain(doc: toml_edit::DocumentMut) -> bool;

/// Every entry of the table holds an item.
pub uninterp spec fn toml_table_plain(t: toml_edit::Table) -> bool;

/// The index of the entry named `key`.
pub open spec fn key_position(es: Seq<(Seq<char>, Toml)>, key: Seq<char>) -> Option<int>
    decreases es.len(),
{
    if es.len() == 0 {
        None
    } else if es[0].0 == key {
        Some(0)
    } else {
        match key_position(es.drop_first(), key) {
            Some(i) => Some(i + 1),
            None => None,
        }
    }
}

/// The entries with `key` holding `item`: in its place where the key is there, else
/// added last.
pub open spec fn table_with(es: Seq<(Seq<char>, Toml)>, key: Seq<char>, item: Toml) -> Seq<
    (Seq<char>, Toml),
> {
    match key_position(es, key) {
        Some(i) => es.update(i, (key, item)),
        None => es.push((key, item)),
    }
}

/// The entries without those named `key`.
pub open spec fn table_without(es: Seq<(Seq<char>, Toml)>, key: Seq<char>) -> Seq<(Seq<char>, Toml)>
    decreases es.len(),
{
    if es.len() == 0 {
        es
    } else if es[0].0 == key {
        table_without(es.drop_first(), key)
    } else {
        seq![es[0]] + table_without(es.drop_first(), key)
    }
}

/// No two entries have the same key.
pub open spec fn distinct_keys(es: Seq<(Seq<char>, Toml)>) -> bool {
    forall|i: int, j: int| 0 <= i < j < es.len() ==> es[i].0 != es[j].0
}

pub proof fn lemma_key_position(es: Seq<(Seq<char>, Toml)>, key: Seq<char>)
    ensures
        match key_position(es, key) {
            Some(i) => 0 <= i < es.len() && es[i].0 == key && forall|k: int| 0 <= k < i ==> es[k].0 != key,
            None => forall|k: int| 0 <= k < es.len() ==> es[k].0 != key,
        },
    decreases es.len(),
{
    if es.len() > 0 && es[0].0 != key {
        lemma_key_position(es.drop_first(), key);
        assert forall|k: int| 1 <= k < es.len() implies es[k] == es.drop_first()[k - 1] by {}
    }
}

/// Setting a key finds it where it was set; the other keys are found as before.
pub proof fn lemma_lookup_with(es: Seq<(Seq<char>, Toml)>, key: Seq<char>, item: Toml, other: Seq<char>)
    ensures
        crate::toml::lookup(table_with(es, key, item), key) == Some(item),
        other != key ==> crate::toml::lookup(table_with(es, key, item), other) == crate::toml::lookup(
            es,
            other,
        ),
{
    let t = table_with(es, key, item);
    lemma_key_position(es, key);
    lemma_key_position(t, key);
    lemma_lookup_index(t, key);
    match key_position(es, key) {
        Some(i) => {
            assert(t[i].0 == key);
            match key_position(t, key) {
                Some(j) => {
                    if j < i {
                        assert(t[j] == es[j]);
                    }
                    if j > i {
                        assert(t[i].0 == key);
                    }
                },
                None => {},
            }
        },
        None => {
            assert(t[es.len() as int].0 == key);
            match key_position(t, key) {
                Some(j) => {
                    if j < es.len() {
                        assert(t[j] == es[j]);
                    }
                },
                None => {},
            }
        },
    }
    if other != key {
        lemma_key_position(es, other);
        lemma_key_position(t, other);
        lemma_lookup_index(es, other);
        lemma_lookup_index(t, other);
        assert forall|k: int| 0 <= k < es.len() && es[k].0 != key implies t[k] == es[k] by {}
        assert forall|k: int| 0 <= k < t.len() && t[k].0 == other implies k < es.len() && t[k] == es[k] by {
            if k == es.len() {
                assert(t[k].0 == key);
            }
            match key_position(es, key) {
                Some(i) => if k == i {
                    assert(t[k].0 == key);
                },
                None => {},
            }
        }
        match (key_position(es, other), key_position(t, other)) {
            (Some(a), Some(b)) => {
                if a < b {
                    assert(es[a].0 != key);
                    assert(t[a] == es[a]);
                }
                if b < a {
                    assert(t[b] == es[b]);
                }
            },
            (Some(a), None) => {
                assert(es[a].0 != key);
                assert(t[a] == es[a]);
            },
            (None, Some(b)) => {
                assert(t[b] == es[b]);
            },
            (None, None) => {},
        }
    }
}

/// A removed key is not found; the other keys are found as before.
pub proof fn lemma_lookup_without(es: Seq<(Seq<char>, Toml)>, key: Seq<char>, other: Seq<char>)
    ensures
        crate::toml::lookup(table_without(es, key), key) is None,
        other != key ==> crate::toml::lookup(table_without(es, key), other) == crate::toml::lookup(
            es,
            other,
        ),
    decreases es.len(),
{
    if es.len() > 0 {
        lemma_lookup_without(es.drop_first(), key, other);
        let rest = table_without(es.drop_first(), key);
        if es[0].0 != key {
            assert((seq![es[0]] + rest).drop_first() =~= rest);
        }
    }
}

/// Looking a key up finds the item of its first entry.
proof fn lemma_lookup_index(es: Seq<(Seq<char>, Toml)>, key: Seq<char>)
    ensures
        match key_position(es, key) {
            Some(i) => crate::toml::lookup(es, key) == Some(es[i].1),
            None => crate::toml::lookup(es, key) is None,
        },
    decreases es.len(),
{
    if es.len() > 0 && es[0].0 != key {
        lemma_lookup_index(es.drop_first(), key);
        lemma_key_position(es.drop_first(), key);
        match key_position(es.drop_first(), key) {
            Some(i) => assert(es.drop_first()[i] == es[i + 1]),
            None => {},
        }
    }
}

/// Setting keys that are all new, one after the other, lists them in that order.
proof fn lemma_with_new_key(es: Seq<(Seq<char>, Toml)>, key: Seq<char>, item: Toml)
    requires
        forall|k: int| 0 <= k < es.len() ==> es[k].0 != key,
    ensures
        table_with(es, key, item) == es.push((key, item)),
{
    lemma_key_position(es, key);
}

/// `DocumentMut::as_table_mut` then `Table::insert`: the root table has `key` holding the
/// item, in place where the key was there, else added last; a plain document stays
/// plain. The item is not one that the model holds as `Other` (such as an empty one).
#[verifier::external_body]
pub(crate) fn toml_doc_put(doc: &mut toml_edit::DocumentMut, key: &str, item: toml_edit::Item)
    requires
        toml_doc_plain(*old(doc)),
        !(toml_item_of(item) is Other),
    ensures
        toml_doc_table(*final(doc)) == table_with(toml_doc_table(*old(doc)), key@, toml_item_of(item)),
        toml_doc_plain(*final(doc)),
{
    doc.as_table_mut().insert(key, item);
}

/// `DocumentMut::as_table_mut` then `Table::remove`: the root table loses the entry
/// `key`, the others keep their order; a plain document stays plain.
#[verifier::external_body]
pub(crate) fn toml_doc_remove(doc: &mut toml_edit::DocumentMut, key: &str)
    ensures
        toml_doc_table(*final(doc)) == table_without(toml_doc_table(*old(doc)), key@),
        toml_doc_plain(*old(doc)) ==> toml_doc_plain(*final(doc)),
{
    doc.as_table_mut().remove(key);
}

/// `DocumentMut::to_string`: the rendered text of the document.
#[verifier::external_body]
pub(crate) fn toml_render(doc: &toml_edit::DocumentMut) -> (res: String)
    ensures
        res@ == toml_doc_text(*doc),
{
    doc.to_string()
}

/// `toml_edit::value` of a string: a string item.
#[verifier::external_body]
pub(crate) fn toml_str_item(s: &str) -> (res: toml_edit::Item)
    ensures
        toml_item_of(res) == Toml::Str(s@),
{
    toml_edit::value(s)
}

/// `toml_edit::value` of a boolean: a boolean item.
#[verifier::external_body]
fn toml_bool_item(b: bool) -> (res: toml_edit::Item)
    ensures
        toml_item_of(res) == Toml::Bool(b),
{
    toml_edit::value(b)
}

/// `Table::new`: an empty table, plain.
#[verifier::external_body]
fn toml_new_table() -> (res: toml_edit::Table)
    ensures
        toml_table_entries(res) == Seq::<(Seq<char>, Toml)>::empty(),
        toml_table_plain(res),
{
    toml_edit::Table::new()
}

/// `Table::insert`: the table has `key` holding the item, in place where the key was
/// there, else added last; it stays plain. The item is not one that the model holds as
/// `Other`.
#[verifier::external_body]
fn toml_table_put(t: &mut toml_edit::Table, key: &str, item: toml_edit::Item)
    requires
        toml_table_plain(*old(t)),
        !(toml_item_of(item) is Other),
    ensures
        toml_table_entries(*final(t)) == table_with(toml_table_entries(*old(t)), key@, toml_item_of(item)),
        toml_table_plain(*final(t)),
{
    t.insert(key, item);
}

/// `Item::Table`: a table item.
#[verifier::external_body]
fn toml_table_item(t: toml_edit::Table) -> (res: toml_edit::Item)
    ensures
        toml_item_of(res) == Toml::Section(toml_table_entries(t)),
{
    toml_edit::Item::Table(t)
}

/// `ArrayOfTables::new`: no tables.
#[verifier::external_body]
fn toml_new_tables() -> (res: toml_edit::ArrayOfTables)
    ensures
        toml_tables_of(res) == Seq::<Seq<(Seq<char>, Toml)>>::empty(),
{
    toml_edit::ArrayOfTables::new()
}

/// `ArrayOfTables::push`: the table comes last.
#[verifier::external_body]
fn toml_tables_push(a: &mut toml_edit::ArrayOfTables, t: toml_edit::Table)
    ensures
        toml_tables_of(*final(a)) == toml_tables_of(*old(a)).push(toml_table_entries(t)),
{
    a.push(t);
}

/// `Item::ArrayOfTables`: an array-of-tables item.
#[verifier::external_body]
fn toml_tables_item(a: toml_edit::ArrayOfTables) -> (res: toml_edit::Item)
    ensures
        toml_item_of(res) == Toml::SectionArray(toml_tables_of(a)),
{
    toml_edit::Item::ArrayOfTables(a)
}

/// An item that can be written as it is: a string, a boolean, a table or an array of
/// tables, each table with distinct keys and writable items.
pub open spec fn writable(t: Toml) -> bool
    decreases t, 1nat,
{
    match t {
        Toml::Str(_) => true,
        Toml::Bool(_) => true,
        Toml::Section(es) => distinct_keys(es) && writable_all(es),
        Toml::SectionArray(ts) => writable_tables(ts),
        _ => false,
    }
}

/// Every item of the entries is writable.
pub open spec fn writable_all(es: Seq<(Seq<char>, Toml)>) -> bool
    decreases es, 0nat,
{
    if es.len() == 0 {
        true
    } else {
        proof {
            assert(decreases_to!(es => es.subrange(0, es.len() - 1)));
            assert(decreases_to!(es => es[es.len() - 1]));
        }
        writable_all(es.subrange(0, es.len() - 1)) && writable(es[es.len() - 1].1)
    }
}

/// Every table has distinct keys and writable items.
pub open spec fn writable_tables(ts: Seq<Seq<(Seq<char>, Toml)>>) -> bool
    decreases ts, 0nat,
{
    if ts.len() == 0 {
        true
    } else {
        proof {
            assert(decreases_to!(ts => ts.subrange(0, ts.len() - 1)));
            assert(decreases_to!(ts => ts[ts.len() - 1]));
        }
        writable_tables(ts.subrange(0, ts.len() - 1)) && distinct_keys(ts[ts.len() - 1])
            && writable_all(ts[ts.len() - 1])
    }
}

proof fn lemma_writable_all(es: Seq<(Seq<char>, Toml)>, i: int)
    requires
        writable_all(es),
        0 <= i < es.len(),
    ensures
        writable(es[i].1),
    decreases es.len(),
{
    if i < es.len() - 1 {
        let p = es.subrange(0, es.len() - 1);
        lemma_writable_all(p, i);
        assert(p[i] == es[i]);
    }
}

proof fn lemma_writable_tables(ts: Seq<Seq<(Seq<char>, Toml)>>, i: int)
    requires
        writable_tables(ts),
        0 <= i < ts.len(),
    ensures
        distinct_keys(ts[i]),
        writable_all(ts[i]),
    decreases ts.len(),
{
    if i < ts.len() - 1 {
        let p = ts.subrange(0, ts.len() - 1);
        lemma_writable_tables(p, i);
        assert(p[i] == ts[i]);
    }
}

/// Entries whose items are all strings are writable.
pub proof fn lemma_all_strings_writable(es: Seq<(Seq<char>, Toml)>)
    requires
        forall|i: int| 0 <= i < es.len() ==> es[i].1 is Str,
    ensures
        writable_all(es),
    decreases es.len(),
{
    if es.len() > 0 {
        let p = es.subrange(0, es.len() - 1);
        assert forall|i: int| 0 <= i < p.len() implies p[i].1 is Str by {
            assert(p[i] == es[i]);
        }
        lemma_all_strings_writable(p);
        let last = es[es.len() - 1].1;
        assert(last is Str);
        assert(writable(last));
    }
}

/// Entries whose items are each writable are writable.
pub proof fn lemma_writable_from_items(es: Seq<(Seq<char>, Toml)>)
    requires
        forall|i: int| 0 <= i < es.len() ==> writable(#[trigger] es[i].1),
    ensures
        writable_all(es),
    decreases es.len(),
{
    if es.len() > 0 {
        let p = es.subrange(0, es.len() - 1);
        assert forall|i: int| 0 <= i < p.len() implies writable(#[trigger] p[i].1) by {
            assert(p[i] == es[i]);
        }
        lemma_writable_from_items(p);
    }
}

fn item_to_toml(v: &TomlItem) -> (res: toml_edit::Item)
    requires
        writable(toml_view(*v)),
    ensures
        toml_item_of(res) == toml_view(*v),
    decreases v,
{
    match v {
        TomlItem::Str(s) => toml_str_item(s.as_str()),
        TomlItem::Bool(b) => toml_bool_item(*b),
        TomlItem::Section(es) => {
            proof {
                lemma_table_item(*es);
            }
            let t = table_to_toml(es);
            toml_table_item(t)
        },
        TomlItem::SectionArray(ts) => {
            proof {
                lemma_tables_item(*ts);
            }
            let mut a = toml_new_tables();
            let mut i: usize = 0;
            while i < ts.len()
                invariant
                    i <= ts.len(),
                    *v == TomlItem::SectionArray(*ts),
                    writable_tables(tables_view(ts@)),
                    toml_tables_of(a) == tables_view(ts@).take(i as int),
                decreases ts.len() - i,
            {
                proof {
                    lemma_writable_tables(tables_view(ts@), i as int);
                    let w = *v;
                    assert(decreases_to!(w => w->SectionArray_0));
                    assert(w->SectionArray_0 == *ts);
                    assert(decreases_to!(*ts => ts@));
                    assert(decreases_to!(ts@ => ts@[i as int]));
                }
                let t = table_to_toml(&ts[i]);
                let ghost before = toml_tables_of(a);
                toml_tables_push(&mut a, t);
                assert(tables_view(ts@).take(i + 1) =~= before.push(table_view(ts@[i as int]@)));
                i += 1;
            }
            assert(tables_view(ts@).take(i as int) =~= tables_view(ts@));
            toml_tables_item(a)
        },
        TomlItem::InlineSection(es) => {
            proof {
                lemma_table_item(*es);
            }
            toml_str_item("")
        },
        TomlItem::Other => toml_str_item(""),
    }
}

fn table_to_toml(es: &Vec<(String, TomlItem)>) -> (res: toml_edit::Table)
    requires
        distinct_keys(table_view(es@)),
        writable_all(table_view(es@)),
    ensures
        toml_table_entries(res) == table_view(es@),
        toml_table_plain(res),
    decreases es,
{
    let ghost ev = table_view(es@);
    let mut t = toml_new_table();
    let mut i: usize = 0;
    while i < es.len()
        invariant
            i <= es.len(),
            ev == table_view(es@),
            distinct_keys(ev),
            writable_all(ev),
            toml_table_entries(t) == ev.take(i as int),
            toml_table_plain(t),
        decreases es.len() - i,
    {
        proof {
            lemma_writable_all(ev, i as int);
            assert(ev[i as int].1 == toml_view(es@[i as int].1));
        }
        let item = item_to_toml(&es[i].1);
        proof {
            let prefix = ev.take(i as int);
            assert forall|k: int| 0 <= k < prefix.len() implies prefix[k].0 != ev[i as int].0 by {
                assert(prefix[k] == ev[k]);
            }
            lemma_with_new_key(prefix, ev[i as int].0, ev[i as int].1);
            assert(ev.take(i + 1) =~= prefix.push(ev[i as int]));
        }
        toml_table_put(&mut t, es[i].0.as_str(), item);
        i += 1;
    }
    assert(ev.take(i as int) =~= ev);
    t
}

/// The entries put into the document's root table under `key`, as an array holding the
/// one table of `entries`.
pub(crate) fn toml_doc_put_tables(
    doc: &mut toml_edit::DocumentMut,
    key: &str,
    entries: &Vec<(String, TomlItem)>,
)
    requires
        toml_doc_plain(*old(doc)),
        distinct_keys(table_view(entries@)),
        writable_all(table_view(entries@)),
    ensures
        toml_doc_table(*final(doc)) == table_with(
            toml_doc_table(*old(doc)),
            key@,
            Toml::SectionArray(seq![table_view(entries@)]),
        ),
        toml_doc_plain(*final(doc)),
{
    let t = table_to_toml(entries);
    let mut a = toml_new_tables();
    toml_tables_push(&mut a, t);
    assert(toml_tables_of(a) =~= seq![table_view(entries@)]);
    toml_doc_put(doc, key, toml_tables_item(a));
}

} // verus!
