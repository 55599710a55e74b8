//! JSON values as the library sees them, and their nesting depth.

use vstd::prelude::*;
use crate::text::{copy_string, str_eq};

verus! {

/// A JSON value. Numbers are kept as their text.
#[derive(Debug, PartialEq)]
pub enum JsonValue {
    Null,
    Bool(bool),
    Number(String),
    Str(String),
    Array(Vec<JsonValue>),
    Object(Vec<(String, JsonValue)>),
}

/// The nesting depth of a JSON value: scalars 0, containers one more than
/// their deepest element.
pub open spec fn spec_json_depth(v: JsonValue) -> nat
    decreases v,
{
    match v {
        JsonValue::Array(items) => 1 + max_depth_items(items@),
        JsonValue::Object(entries) => 1 + max_depth_entries(entries@),
        _ => 0,
    }
}

pub open spec fn max_depth_items(items: Seq<JsonValue>) -> nat
    decreases items,
{
    if items.len() == 0 {
        0
    } else {
        let a = max_depth_items(items.drop_last());
        let b = spec_json_depth(items.last());
        if a > b { a } else { b }
    }
}

pub open spec fn max_depth_entries(entries: Seq<(String, JsonValue)>) -> nat
    decreases entries,
{
    if entries.len() == 0 {
        0
    } else {
        let a = max_depth_entries(entries.drop_last());
        let b = spec_json_depth(entries.last().1);
        if a > b { a } else { b }
    }
}

/// Measures the nesting depth of a JSON value (saturating at `usize::MAX`).
pub fn json_depth(v: &JsonValue) -> (d: usize)
    ensures
        d as nat == if spec_json_depth(*v) > usize::MAX { usize::MAX as nat } else { spec_json_depth(*v) },
    decreases *v,
{
    match v {
        JsonValue::Array(items) => {
            let mut m: usize = 0;
            let mut i: usize = 0;
            while i < items.len()
                invariant
                    i <= items.len(),
                    *v == JsonValue::Array(*items),
                    m as nat == if max_depth_items(items@.take(i as int)) > usize::MAX {
                        usize::MAX as nat
                    } else {
                        max_depth_items(items@.take(i as int))
                    },
                decreases items.len() - i,
            {
                assert(items@.take(i + 1 as int).drop_last() =~= items@.take(i as int));
                assert(decreases_to!(*v => items@[i as int])) by {
                    assert(decreases_to!(*v => (*v)->Array_0));
                    assert((*v)->Array_0 == *items);
                    assert(decreases_to!(*items => items@));
                    assert(decreases_to!(items@ => items@[i as int]));
                }
                let d = json_depth(&items[i]);
                if d > m {
                    m = d;
                }
                i += 1;
            }
            assert(items@.take(items.len() as int) =~= items@);
            if m == usize::MAX { m } else { m + 1 }
        },
        JsonValue::Object(entries) => {
            let mut m: usize = 0;
            let mut i: usize = 0;
            while i < entries.len()
                invariant
                    i <= entries.len(),
                    *v == JsonValue::Object(*entries),
                    m as nat == if max_depth_entries(entries@.take(i as int)) > usize::MAX {
                        usize::MAX as nat
                    } else {
                        max_depth_entries(entries@.take(i as int))
                    },
                decreases entries.len() - i,
            {
                assert(entries@.take(i + 1 as int).drop_last() =~= entries@.take(i as int));
                assert(decreases_to!(*v => entries@[i as int].1)) by {
                    assert(decreases_to!(*v => (*v)->Object_0));
                    assert((*v)->Object_0 == *entries);
                    assert(decreases_to!(*entries => entries@));
                    assert(decreases_to!(entries@ => entries@[i as int]));
                    assert(decreases_to!(entries@[i as int] => entries@[i as int].1));
                }
                let d = json_depth(&entries[i].1);
                if d > m {
                    m = d;
                }
                i += 1;
            }
            assert(entries@.take(entries.len() as int) =~= entries@);
            if m == usize::MAX { m } else { m + 1 }
        },
        _ => 0,
    }
}

/// The content of a JSON value.
pub enum JsonSpec {
    Null,
    Bool(bool),
    Number(Seq<char>),
    Str(Seq<char>),
    Array(Seq<JsonSpec>),
    Object(Seq<(Seq<char>, JsonSpec)>),
}

pub open spec fn json_view(v: JsonValue) -> JsonSpec
    decreases v,
{
    match v {
        JsonValue::Null => JsonSpec::Null,
        JsonValue::Bool(b) => JsonSpec::Bool(b),
        JsonValue::Number(n) => JsonSpec::Number(n@),
        JsonValue::Str(s) => JsonSpec::Str(s@),
        JsonValue::Array(items) => JsonSpec::Array(items_view(items@)),
        JsonValue::Object(entries) => JsonSpec::Object(entries_view(entries@)),
    }
}

pub open spec fn items_view(items: Seq<JsonValue>) -> Seq<JsonSpec>
    decreases items,
{
    if items.len() == 0 {
        Seq::empty()
    } else {
        items_view(items.drop_last()).push(json_view(items.last()))
    }
}

pub open spec fn entries_view(entries: Seq<(String, JsonValue)>) -> Seq<(Seq<char>, JsonSpec)>
    decreases entries,
{
    if entries.len() == 0 {
        Seq::empty()
    } else {
        entries_view(entries.drop_last()).push((entries.last().0@, json_view(entries.last().1)))
    }
}

pub proof fn lemma_items_view(items: Seq<JsonValue>)
    ensures
        items_view(items).len() == items.len(),
        forall|k: int| 0 <= k < items.len() ==> #[trigger] items_view(items)[k] == json_view(items[k]),
    decreases items.len(),
{
    if items.len() > 0 {
        lemma_items_view(items.drop_last());
    }
}

pub proof fn lemma_entries_view(entries: Seq<(String, JsonValue)>)
    ensures
        entries_view(entries).len() == entries.len(),
        forall|k: int| 0 <= k < entries.len() ==> #[trigger] entries_view(entries)[k] == (entries[k].0@, json_view(entries[k].1)),
    decreases entries.len(),
{
    if entries.len() > 0 {
        lemma_entries_view(entries.drop_last());
    }
}

impl View for JsonValue {
    type V = JsonSpec;

    open spec fn view(&self) -> JsonSpec {
        json_view(*self)
    }
}

/// A deep copy of a JSON value.
pub fn copy_json(v: &JsonValue) -> (r: JsonValue)
    ensures
        r@ == v@,
    decreases *v,
{
    match v {
        JsonValue::Null => JsonValue::Null,
        JsonValue::Bool(b) => JsonValue::Bool(*b),
        JsonValue::Number(n) => JsonValue::Number(copy_string(n)),
        JsonValue::Str(s) => JsonValue::Str(copy_string(s)),
        JsonValue::Array(items) => {
            let mut out: Vec<JsonValue> = Vec::new();
            let mut i: usize = 0;
            while i < items.len()
                invariant
                    i <= items.len(),
                    *v == JsonValue::Array(*items),
                    items_view(out@) == items_view(items@.take(i as int)),
                decreases items.len() - i,
            {
                assert(decreases_to!(*v => items@[i as int])) by {
                    assert(decreases_to!(*v => (*v)->Array_0));
                    assert(decreases_to!(*items => items@));
                    assert(decreases_to!(items@ => items@[i as int]));
                }
                let c = copy_json(&items[i]);
                let ghost before = out@;
                out.push(c);
                assert(out@.drop_last() =~= before);
                assert(items@.take(i + 1 as int).drop_last() =~= items@.take(i as int));
                i += 1;
            }
            assert(items@.take(items.len() as int) =~= items@);
            JsonValue::Array(out)
        },
        JsonValue::Object(entries) => {
            let mut out: Vec<(String, JsonValue)> = Vec::new();
            let mut i: usize = 0;
            while i < entries.len()
                invariant
                    i <= entries.len(),
                    *v == JsonValue::Object(*entries),
                    entries_view(out@) == entries_view(entries@.take(i as int)),
                decreases entries.len() - i,
            {
                assert(decreases_to!(*v => entries@[i as int].1)) by {
                    assert(decreases_to!(*v => (*v)->Object_0));
                    assert(decreases_to!(*entries => entries@));
                    assert(decreases_to!(entries@ => entries@[i as int]));
                    assert(decreases_to!(entries@[i as int] => entries@[i as int].1));
                }
                let c = copy_json(&entries[i].1);
                let ghost before = out@;
                out.push((copy_string(&entries[i].0), c));
                assert(out@.drop_last() =~= before);
                assert(entries@.take(i + 1 as int).drop_last() =~= entries@.take(i as int));
                i += 1;
            }
            assert(entries@.take(entries.len() as int) =~= entries@);
            JsonValue::Object(out)
        },
    }
}

/// The value of the first entry with `key`.
pub open spec fn lookup(entries: Seq<(Seq<char>, JsonSpec)>, key: Seq<char>) -> Option<JsonSpec>
    decreases entries.len(),
{
    if entries.len() == 0 {
        None
    } else if entries[0].0 == key {
        Some(entries[0].1)
    } else {
        lookup(entries.drop_first(), key)
    }
}

/// The value under `key` of an object (`Value::get`), if any.
pub open spec fn spec_get(v: JsonSpec, key: Seq<char>) -> Option<JsonSpec> {
    match v {
        JsonSpec::Object(entries) => lookup(entries, key),
        _ => None,
    }
}

/// The index of the first entry with `key`.
pub fn find_entry(entries: &Vec<(String, JsonValue)>, key: &str) -> (r: Option<usize>)
    ensures
        match r {
            Some(k) => k < entries@.len() && lookup(entries_view(entries@), key@) == Some(entries@[k as int].1@),
            None => lookup(entries_view(entries@), key@) is None,
        },
{
    let ghost ev = entries_view(entries@);
    proof {
        lemma_entries_view(entries@);
        assert(ev.skip(0) =~= ev);
    }
    let mut i: usize = 0;
    while i < entries.len()
        invariant
            i <= entries.len(),
            ev == entries_view(entries@),
            ev.len() == entries@.len(),
            forall|k: int| 0 <= k < entries@.len() ==> #[trigger] ev[k] == (entries@[k].0@, json_view(entries@[k].1)),
            lookup(ev, key@) == lookup(ev.skip(i as int), key@),
        decreases entries.len() - i,
    {
        assert(ev.skip(i as int)[0] == ev[i as int]);
        if str_eq(entries[i].0.as_str(), key) {
            return Some(i);
        }
        assert(ev.skip(i as int).drop_first() =~= ev.skip(i + 1 as int));
        i += 1;
    }
    assert(ev.skip(i as int).len() == 0);
    None
}


/// The nesting depth of JSON content, as `spec_json_depth` measures values.
pub open spec fn spec_depth(j: JsonSpec) -> nat
    decreases j,
{
    match j {
        JsonSpec::Array(items) => 1 + max_spec_items(items),
        JsonSpec::Object(entries) => 1 + max_spec_entries(entries),
        _ => 0,
    }
}

pub open spec fn max_spec_items(items: Seq<JsonSpec>) -> nat
    decreases items,
{
    if items.len() == 0 {
        0
    } else {
        let a = max_spec_items(items.drop_last());
        let b = spec_depth(items.last());
        if a > b { a } else { b }
    }
}

pub open spec fn max_spec_entries(entries: Seq<(Seq<char>, JsonSpec)>) -> nat
    decreases entries,
{
    if entries.len() == 0 {
        0
    } else {
        let a = max_spec_entries(entries.drop_last());
        let b = spec_depth(entries.last().1);
        if a > b { a } else { b }
    }
}

/// A value is as deep as its content.
pub proof fn lemma_depth_view(v: JsonValue)
    ensures
        spec_json_depth(v) == spec_depth(json_view(v)),
    decreases v, 0nat,
{
    match v {
        JsonValue::Array(items) => {
            assert(decreases_to!(v => items));
            lemma_depth_items(items@);
        },
        JsonValue::Object(entries) => {
            assert(decreases_to!(v => entries));
            lemma_depth_entries(entries@);
        },
        _ => {},
    }
}

proof fn lemma_depth_items(items: Seq<JsonValue>)
    ensures
        max_depth_items(items) == max_spec_items(items_view(items)),
    decreases items, 1nat,
{
    if items.len() > 0 {
        lemma_depth_items(items.drop_last());
        lemma_depth_view(items.last());
        let w = items_view(items);
        assert(w.drop_last() =~= items_view(items.drop_last()));
        assert(w.last() == json_view(items.last()));
    }
}

proof fn lemma_depth_entries(entries: Seq<(String, JsonValue)>)
    ensures
        max_depth_entries(entries) == max_spec_entries(entries_view(entries)),
    decreases entries, 1nat,
{
    if entries.len() > 0 {
        lemma_depth_entries(entries.drop_last());
        assert(decreases_to!(entries => entries.last()));
        lemma_depth_view(entries.last().1);
        let w = entries_view(entries);
        assert(w.drop_last() =~= entries_view(entries.drop_last()));
        assert(w.last().1 == json_view(entries.last().1));
    }
}


#[verifier::external_type_specification]
#[verifier::external_body]
pub struct ExSerdeJsonValue(serde_json::Value);

/// What `serde_json::from_str` makes of a text, as the library's JSON
/// content (numbers as the text serde_json prints for them, object members
/// in the order of serde_json's map), or the text of its error.
pub uninterp spec fn parsed_json(text: Seq<char>) -> Result<JsonSpec, Seq<char>>;

/// Turns a `serde_json::Value` into the library's JSON value, variant by
/// variant: numbers by their printed text, object members in the map's
/// order. Nothing is claimed of the result here; `parse_json_text` states
/// what the parse and this conversion give together.
#[verifier::external_body]
fn json_of_document(v: &serde_json::Value) -> JsonValue {
    match v {
        serde_json::Value::Null => JsonValue::Null,
        serde_json::Value::Bool(b) => JsonValue::Bool(*b),
        serde_json::Value::Number(n) => JsonValue::Number(n.to_string()),
        serde_json::Value::String(t) => JsonValue::Str(t.clone()),
        serde_json::Value::Array(items) => JsonValue::Array(items.iter().map(json_of_document).collect()),
        serde_json::Value::Object(map) => JsonValue::Object(map.iter().map(|(k, x)| (k.clone(), json_of_document(x))).collect()),
    }
}

/// Parses JSON text with `serde_json::from_str` into a `serde_json::Value`.
/// The contract claims that the outcome is `parsed_json` of the text: the
/// parsed content on success, the parser's error message on failure. The
/// grammar and the messages themselves are left to that name.
#[verifier::external_body]
pub(crate) fn parse_json_text(text: &str) -> (r: Result<JsonValue, String>)
    ensures
        match r {
            Ok(v) => parsed_json(text@) == Ok::<JsonSpec, Seq<char>>(json_view(v)),
            Err(m) => parsed_json(text@) == Err::<JsonSpec, Seq<char>>(m@),
        },
{
    match serde_json::from_str::<serde_json::Value>(text) {
        Ok(v) => Ok(json_of_document(&v)),
        Err(e) => Err(e.to_string()),
    }
}

} // verus!
