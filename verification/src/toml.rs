//! A model of a parsed TOML document, holding as plain values what the logic reads,
//! and the lookups the logic performs on it.
use vstd::prelude::*;
use crate::text::{chars_of, str_eq, string_of, trim, trim_chars};

verus! {

/// One item of a TOML document: a string, a boolean, a table (`Section`, written under a
/// `[header]`), an inline table (`{ .. }`) or an array of tables (`[[header]]`), each
/// table as its entries in order. Values of other kinds are kept only as being there.
#[derive(Debug)]
pub enum TomlItem {
    Str(String),
    Bool(bool),
    Other,
    Section(Vec<(String, TomlItem)>),
    InlineSection(Vec<(String, TomlItem)>),
    SectionArray(Vec<Vec<(String, TomlItem)>>),
}

/// The mathematical value of a TOML item.
pub enum Toml {
    Str(Seq<char>),
    Bool(bool),
    Other,
    Section(Seq<(Seq<char>, Toml)>),
    InlineSection(Seq<(Seq<char>, Toml)>),
    SectionArray(Seq<Seq<(Seq<char>, Toml)>>),
}

pub open spec fn toml_view(v: TomlItem) -> Toml
    decreases v,
{
    match v {
        TomlItem::Str(s) => Toml::Str(s@),
        TomlItem::Bool(b) => Toml::Bool(b),
        TomlItem::Other => Toml::Other,
        TomlItem::Section(entries) => Toml::Section(
            Seq::new(
                entries.len() as nat,
                |i: int|
                    if 0 <= i < entries.len() {
                        (entries@[i].0@, toml_view(entries@[i].1))
                    } else {
                        (Seq::empty(), Toml::Other)
                    },
            ),
        ),
        TomlItem::InlineSection(entries) => Toml::InlineSection(
            Seq::new(
                entries.len() as nat,
                |i: int|
                    if 0 <= i < entries.len() {
                        (entries@[i].0@, toml_view(entries@[i].1))
                    } else {
                        (Seq::empty(), Toml::Other)
                    },
            ),
        ),
        TomlItem::SectionArray(tables) => Toml::SectionArray(
            Seq::new(
                tables.len() as nat,
                |i: int|
                    if 0 <= i < tables.len() {
                        Seq::new(
                            tables@[i].len() as nat,
                            |j: int|
                                if 0 <= j < tables@[i].len() {
                                    (tables@[i]@[j].0@, toml_view(tables@[i]@[j].1))
                                } else {
                                    (Seq::empty(), Toml::Other)
                                },
                        )
                    } else {
                        Seq::empty()
                    },
            ),
        ),
    }
}

impl View for TomlItem {
    type V = Toml;

    open spec fn view(&self) -> Toml {
        toml_view(*self)
    }
}

/// The view of the entries of a table.
pub open spec fn table_view(entries: Seq<(String, TomlItem)>) -> Seq<(Seq<char>, Toml)> {
    Seq::new(entries.len(), |i: int| (entries[i].0@, toml_view(entries[i].1)))
}

/// The item of the first entry named `key`.
pub open spec fn lookup(entries: Seq<(Seq<char>, Toml)>, key: Seq<char>) -> Option<Toml>
    decreases entries.len(),
{
    if entries.len() == 0 {
        None
    } else if entries[0].0 == key {
        Some(entries[0].1)
    } else {
        lookup(entries.drop_first(), key)
    }
}

/// `Item::as_table`: the entries of a table (not of an inline table).
pub open spec fn as_table(v: Option<Toml>) -> Option<Seq<(Seq<char>, Toml)>> {
    match v {
        Some(Toml::Section(e)) => Some(e),
        _ => None,
    }
}

/// `Item::as_table_like`: the entries of a table or of an inline table.
pub open spec fn as_table_like(v: Option<Toml>) -> Option<Seq<(Seq<char>, Toml)>> {
    match v {
        Some(Toml::Section(e)) => Some(e),
        Some(Toml::InlineSection(e)) => Some(e),
        _ => None,
    }
}

/// `Item::as_array_of_tables`.
pub open spec fn as_array_of_tables(v: Option<Toml>) -> Option<Seq<Seq<(Seq<char>, Toml)>>> {
    match v {
        Some(Toml::SectionArray(t)) => Some(t),
        _ => None,
    }
}

/// `Item::as_value` followed by `Value::as_str`.
pub open spec fn item_str(v: Option<Toml>) -> Option<Seq<char>> {
    match v {
        Some(Toml::Str(s)) => Some(s),
        _ => None,
    }
}

/// `Item::as_value` followed by `Value::as_bool`.
pub open spec fn item_bool(v: Option<Toml>) -> Option<bool> {
    match v {
        Some(Toml::Bool(b)) => Some(b),
        _ => None,
    }
}

/// A string entry of a table, trimmed, when something is left.
pub open spec fn table_string(entries: Seq<(Seq<char>, Toml)>, key: Seq<char>) -> Option<Seq<char>> {
    match item_str(lookup(entries, key)) {
        Some(s) => if trim(s).len() > 0 {
            Some(trim(s))
        } else {
            None
        },
        None => None,
    }
}

/// The first entry of `entries` named `key`.
pub fn toml_lookup<'a>(entries: &'a Vec<(String, TomlItem)>, key: &str) -> (res: Option<&'a TomlItem>)
    ensures
        match res {
            Some(r) => lookup(table_view(entries@), key@) == Some(r@),
            None => lookup(table_view(entries@), key@) is None,
        },
{
    let ghost es = table_view(entries@);
    let mut i: usize = 0;
    assert(es.skip(0) =~= es);
    while i < entries.len()
        invariant
            i <= entries.len() == es.len(),
            es == table_view(entries@),
            lookup(es, key@) == lookup(es.skip(i as int), key@),
        decreases entries.len() - i,
    {
        let ghost rest = es.skip(i as int);
        assert(rest.drop_first() =~= es.skip(i + 1));
        assert(rest[0] == es[i as int]);
        if str_eq(entries[i].0.as_str(), key) {
            return Some(&entries[i].1);
        }
        i += 1;
    }
    None
}

/// The entries of a table item.
pub fn toml_as_table(v: Option<&TomlItem>) -> (res: Option<&Vec<(String, TomlItem)>>)
    ensures
        match res {
            Some(e) => as_table(match v {
                Some(x) => Some(x@),
                None => None,
            }) == Some(table_view(e@)),
            None => as_table(match v {
                Some(x) => Some(x@),
                None => None,
            }) is None,
        },
{
    match v {
        Some(TomlItem::Section(e)) => {
            assert(toml_view(*v.unwrap()) == Toml::Section(table_view(e@))) by {
                assert(table_view(e@) =~= match toml_view(*v.unwrap()) {
                    Toml::Section(x) => x,
                    _ => Seq::empty(),
                });
            }
            Some(e)
        },
        _ => None,
    }
}

/// The entries of a table or inline table item.
pub fn toml_as_table_like(v: Option<&TomlItem>) -> (res: Option<&Vec<(String, TomlItem)>>)
    ensures
        match res {
            Some(e) => as_table_like(match v {
                Some(x) => Some(x@),
                None => None,
            }) == Some(table_view(e@)),
            None => as_table_like(match v {
                Some(x) => Some(x@),
                None => None,
            }) is None,
        },
{
    match v {
        Some(TomlItem::Section(e)) => {
            assert(toml_view(*v.unwrap()) == Toml::Section(table_view(e@))) by {
                assert(table_view(e@) =~= match toml_view(*v.unwrap()) {
                    Toml::Section(x) => x,
                    _ => Seq::empty(),
                });
            }
            Some(e)
        },
        Some(TomlItem::InlineSection(e)) => {
            assert(toml_view(*v.unwrap()) == Toml::InlineSection(table_view(e@))) by {
                assert(table_view(e@) =~= match toml_view(*v.unwrap()) {
                    Toml::InlineSection(x) => x,
                    _ => Seq::empty(),
                });
            }
            Some(e)
        },
        _ => None,
    }
}

/// The tables of an array-of-tables item.
pub fn toml_as_array_of_tables(v: Option<&TomlItem>) -> (res: Option<&Vec<Vec<(String, TomlItem)>>>)
    ensures
        match res {
            Some(t) => as_array_of_tables(match v {
                Some(x) => Some(x@),
                None => None,
            }) == Some(t@.map_values(|e: Vec<(String, TomlItem)>| table_view(e@))),
            None => as_array_of_tables(match v {
                Some(x) => Some(x@),
                None => None,
            }) is None,
        },
{
    match v {
        Some(TomlItem::SectionArray(t)) => {
            proof {
                let a = t@.map_values(|e: Vec<(String, TomlItem)>| table_view(e@));
                let b = match toml_view(*v.unwrap()) {
                    Toml::SectionArray(x) => x,
                    _ => Seq::empty(),
                };
                assert forall|i: int| 0 <= i < a.len() implies a[i] == b[i] by {
                    assert(a[i] =~= b[i]);
                }
                assert(a =~= b);
            }
            Some(t)
        },
        _ => None,
    }
}

/// The text of a string item.
pub fn toml_item_str(v: Option<&TomlItem>) -> (res: Option<&String>)
    ensures
        match res {
            Some(s) => item_str(match v {
                Some(x) => Some(x@),
                None => None,
            }) == Some(s@),
            None => item_str(match v {
                Some(x) => Some(x@),
                None => None,
            }) is None,
        },
{
    match v {
        Some(TomlItem::Str(s)) => Some(s),
        _ => None,
    }
}

/// The truth value of a boolean item.
pub fn toml_item_bool(v: Option<&TomlItem>) -> (res: Option<bool>)
    ensures
        res == item_bool(match v {
            Some(x) => Some(x@),
            None => None,
        }),
{
    match v {
        Some(TomlItem::Bool(b)) => Some(*b),
        _ => None,
    }
}

/// A string entry of a table, trimmed, when something is left.
pub fn toml_table_string(entries: &Vec<(String, TomlItem)>, key: &str) -> (res: Option<String>)
    ensures
        match res {
            Some(s) => table_string(table_view(entries@), key@) == Some(s@),
            None => table_string(table_view(entries@), key@) is None,
        },
{
    match toml_item_str(toml_lookup(entries, key)) {
        Some(s) => {
            let cs = chars_of(s.as_str());
            let t = trim_chars(cs.as_slice());
            if t.len() > 0 {
                Some(string_of(t.as_slice()))
            } else {
                None
            }
        },
        None => None,
    }
}

} // verus!
