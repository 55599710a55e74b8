//! Field masks: pruning JSON output to dot-notation field paths
//! (`name`, `files.path`, `files.interfaces.name`).

use vstd::prelude::*;
use crate::error::ErrorSpec;
use crate::json::{
    copy_json, entries_view, find_entry, items_view, json_view, lemma_entries_view,
    lemma_items_view, lookup, spec_get, JsonSpec, JsonValue,
};
use crate::path::{pieces_view, split_chars, split_on};
use crate::text::{
    chars_of, chars_lt, copy_string, insert_sorted_unique, seq_lt, str_eq, string_of,
    strictly_sorted, strs, trim, trim_chars,
};
use crate::DomainScanError;

verus! {

// ---------------------------------------------------------------------------
// The mask tree
// ---------------------------------------------------------------------------

/// A parsed field mask: a tree of field names. A node whose `include_all`
/// is set ends a path; a node without children keeps its field whole.
#[derive(Debug)]
pub struct FieldMask {
    pub include_all: bool,
    /// Children by field name, in increasing name order.
    pub children: Vec<(String, FieldMask)>,
}

/// The content of a mask.
pub struct MaskView {
    pub include_all: bool,
    pub children: Seq<(Seq<char>, MaskView)>,
}

pub open spec fn mask_view(m: FieldMask) -> MaskView
    decreases m,
{
    MaskView { include_all: m.include_all, children: children_view(m.children@) }
}

pub open spec fn children_view(cs: Seq<(String, FieldMask)>) -> Seq<(Seq<char>, MaskView)>
    decreases cs,
{
    if cs.len() == 0 {
        Seq::empty()
    } else {
        children_view(cs.drop_last()).push((cs.last().0@, mask_view(cs.last().1)))
    }
}

impl View for FieldMask {
    type V = MaskView;

    open spec fn view(&self) -> MaskView {
        mask_view(*self)
    }
}

pub proof fn lemma_children_view(cs: Seq<(String, FieldMask)>)
    ensures
        children_view(cs).len() == cs.len(),
        forall|k: int| 0 <= k < cs.len() ==> #[trigger] children_view(cs)[k] == (cs[k].0@, mask_view(cs[k].1)),
    decreases cs.len(),
{
    if cs.len() > 0 {
        lemma_children_view(cs.drop_last());
    }
}

pub open spec fn empty_mask() -> MaskView {
    MaskView { include_all: false, children: Seq::empty() }
}

/// Adding the path `parts` below a mask node.
pub open spec fn mask_insert(m: MaskView, parts: Seq<Seq<char>>) -> MaskView
    decreases parts.len(), m.children.len() + 1,
{
    if parts.len() == 0 {
        MaskView { include_all: true, children: m.children }
    } else {
        MaskView { include_all: m.include_all, children: ins_child(m.children, parts[0], parts.drop_first()) }
    }
}

/// Adding the path `rest` below the child `key`, creating it in its place
/// in the name order when it is missing.
pub open spec fn ins_child(cs: Seq<(Seq<char>, MaskView)>, key: Seq<char>, rest: Seq<Seq<char>>) -> Seq<
    (Seq<char>, MaskView),
>
    decreases rest.len() + 1, cs.len(),
{
    if cs.len() == 0 {
        seq![(key, mask_insert(empty_mask(), rest))]
    } else if cs[0].0 == key {
        seq![(key, mask_insert(cs[0].1, rest))] + cs.drop_first()
    } else if seq_lt(key, cs[0].0) {
        seq![(key, mask_insert(empty_mask(), rest))] + cs
    } else {
        seq![cs[0]] + ins_child(cs.drop_first(), key, rest)
    }
}

pub proof fn lemma_ins_child_at(cs: Seq<(Seq<char>, MaskView)>, key: Seq<char>, rest: Seq<Seq<char>>, i: int)
    requires
        0 <= i <= cs.len(),
        forall|k: int| 0 <= k < i ==> seq_lt(#[trigger] cs[k].0, key),
        i < cs.len() ==> !seq_lt(cs[i].0, key),
    ensures
        ins_child(cs, key, rest) == cs.take(i) + (if i < cs.len() && cs[i].0 == key {
            seq![(key, mask_insert(cs[i].1, rest))] + cs.skip(i + 1)
        } else {
            seq![(key, mask_insert(empty_mask(), rest))] + cs.skip(i)
        }),
    decreases i,
{
    if i == 0 {
        assert(cs.take(0) =~= Seq::<(Seq<char>, MaskView)>::empty());
        assert(cs.skip(0) =~= cs);
        if cs.len() > 0 {
            assert(cs.skip(1) =~= cs.drop_first());
            if cs[0].0 != key {
                crate::text::lemma_seq_lt_total(cs[0].0, key);
            }
        }
    } else {
        crate::text::lemma_seq_lt_asymmetric(cs[0].0, key);
        let t = cs.drop_first();
        assert forall|k: int| 0 <= k < i - 1 implies seq_lt(#[trigger] t[k].0, key) by {
            assert(t[k] == cs[k + 1]);
        }
        lemma_ins_child_at(t, key, rest, i - 1);
        assert(t.skip(i - 1) =~= cs.skip(i));
        if i < cs.len() {
            assert(t.skip(i) =~= cs.skip(i + 1));
        }
        assert(cs.take(i) =~= seq![cs[0]] + t.take(i - 1));
    }
}

/// A mask with no field.
pub fn empty_field_mask() -> (m: FieldMask)
    ensures
        m@ == empty_mask(),
{
    let m = FieldMask { include_all: false, children: Vec::new() };
    assert(children_view(m.children@) =~= Seq::<(Seq<char>, MaskView)>::empty());
    m
}

impl FieldMask {
    /// Inserts the field path `parts[from..]` into the mask tree.
    pub fn insert(&mut self, parts: &Vec<String>, from: usize)
        requires
            from <= parts@.len(),
        ensures
            final(self)@ == mask_insert(old(self)@, strs(parts@).skip(from as int)),
        decreases parts@.len() - from,
    {
        let ghost pv = strs(parts@);
        if from == parts.len() {
            self.include_all = true;
            assert(pv.skip(from as int).len() == 0);
            return;
        }
        let ghost old_view = self@;
        let key = &parts[from];
        assert(pv.skip(from as int)[0] == key@);
        assert(pv.skip(from as int).drop_first() =~= pv.skip(from + 1 as int));
        let ghost cv = children_view(self.children@);
        proof {
            lemma_children_view(self.children@);
        }
        let kc = chars_of(key.as_str());
        let mut j: usize = 0;
        while j < self.children.len() && chars_lt(&chars_of(self.children[j].0.as_str()), &kc)
            invariant
                j <= self.children.len(),
                cv == children_view(self.children@),
                cv.len() == self.children@.len(),
                forall|k: int| 0 <= k < self.children@.len() ==> #[trigger] cv[k] == (self.children@[k].0@, mask_view(self.children@[k].1)),
                kc@ == key@,
                forall|k: int| 0 <= k < j ==> seq_lt(#[trigger] cv[k].0, key@),
            decreases self.children.len() - j,
        {
            j += 1;
        }
        let ghost rest = pv.skip(from + 1 as int);
        if j < self.children.len() && str_eq(self.children[j].0.as_str(), key.as_str()) {
            let (k, mut child) = self.children.remove(j);
            child.insert(parts, from + 1);
            self.children.insert(j, (k, child));
            proof {
                lemma_children_view(self.children@);
                lemma_ins_child_at(cv, key@, rest, j as int);
                assert(children_view(self.children@) =~= cv.take(j as int) + (seq![(key@, mask_insert(cv[j as int].1, rest))] + cv.skip(j + 1 as int)));
            }
        } else {
            let mut child = empty_field_mask();
            child.insert(parts, from + 1);
            self.children.insert(j, (copy_string(key), child));
            proof {
                lemma_children_view(self.children@);
                lemma_ins_child_at(cv, key@, rest, j as int);
                assert(children_view(self.children@) =~= cv.take(j as int) + (seq![(key@, mask_insert(empty_mask(), rest))] + cv.skip(j as int)));
            }
        }
    }
}

// ---------------------------------------------------------------------------
// Parsing
// ---------------------------------------------------------------------------

/// The mask built from the comma-separated paths of `fields`: each piece
/// trimmed, empty ones skipped, split on `.`.
pub open spec fn mask_of_pieces(pieces: Seq<Seq<char>>) -> MaskView
    decreases pieces.len(),
{
    if pieces.len() == 0 {
        empty_mask()
    } else {
        let prev = mask_of_pieces(pieces.drop_last());
        let t = trim(pieces.last());
        if t.len() == 0 {
            prev
        } else {
            mask_insert(prev, split_on(t, '.'))
        }
    }
}

pub open spec fn spec_parse_mask(fields: Seq<char>) -> MaskView {
    mask_of_pieces(split_on(fields, ','))
}

impl FieldMask {
    /// Parses a comma-separated list of dot-notation field paths. An error
    /// when no path remains after trimming.
    pub fn parse(fields: &str) -> (r: Result<Self, DomainScanError>)
        ensures
            spec_parse_mask(fields@).children.len() == 0 ==> (r matches Err(e) && e@ == ErrorSpec::FieldMask(
                "No valid field paths provided"@,
            )),
            spec_parse_mask(fields@).children.len() > 0 ==> (r matches Ok(m) && m@ == spec_parse_mask(fields@)),
    {
        let pieces = split_chars(&chars_of(fields), ',');
        let ghost pv = pieces_view(pieces@);
        let mut root = empty_field_mask();
        let mut i: usize = 0;
        while i < pieces.len()
            invariant
                i <= pieces.len(),
                pv == pieces_view(pieces@),
                pv == split_on(fields@, ','),
                root@ == mask_of_pieces(pv.take(i as int)),
            decreases pieces.len() - i,
        {
            assert(pv.take(i + 1 as int).drop_last() =~= pv.take(i as int));
            assert(pv.take(i + 1 as int).last() == pieces@[i as int]@);
            let t = trim_chars(&pieces[i]);
            if t.len() > 0 {
                let parts_chars = split_chars(&t, '.');
                let mut parts: Vec<String> = Vec::new();
                let mut k: usize = 0;
                while k < parts_chars.len()
                    invariant
                        k <= parts_chars.len(),
                        strs(parts@) == pieces_view(parts_chars@).take(k as int),
                    decreases parts_chars.len() - k,
                {
                    let ghost b = strs(parts@);
                    parts.push(string_of(&parts_chars[k]));
                    assert(strs(parts@) =~= b.push(parts_chars@[k as int]@));
                    k += 1;
                    assert(strs(parts@) =~= pieces_view(parts_chars@).take(k as int));
                }
                assert(pieces_view(parts_chars@).take(parts_chars.len() as int) =~= pieces_view(parts_chars@));
                assert(strs(parts@).skip(0) =~= strs(parts@));
                root.insert(&parts, 0);
            }
            i += 1;
        }
        assert(pv.take(pieces.len() as int) =~= pv);
        proof {
            lemma_children_view(root.children@);
        }
        if root.children.len() == 0 {
            return Err(DomainScanError::FieldMask(string_of(&chars_of("No valid field paths provided"))));
        }
        Ok(root)
    }

    /// Whether the mask has a top-level field `name`.
    pub fn has_child(&self, name: &str) -> (r: bool)
        ensures
            r == exists|k: int| 0 <= k < self@.children.len() && #[trigger] self@.children[k].0 == name@,
    {
        proof {
            lemma_children_view(self.children@);
        }
        let mut i: usize = 0;
        while i < self.children.len()
            invariant
                i <= self.children.len(),
                children_view(self.children@).len() == self.children@.len(),
                forall|k: int| 0 <= k < self.children@.len() ==> #[trigger] children_view(self.children@)[k] == (self.children@[k].0@, mask_view(self.children@[k].1)),
                forall|k: int| 0 <= k < i ==> self@.children[k].0 != name@,
            decreases self.children.len() - i,
        {
            if str_eq(self.children[i].0.as_str(), name) {
                assert(self@.children[i as int].0 == name@);
                return true;
            }
            i += 1;
        }
        false
    }

    /// The sub-mask of the top-level field `name`, if any.
    pub fn child(&self, name: &str) -> (r: Option<&FieldMask>)
        ensures
            match r {
                Some(c) => exists|k: int| 0 <= k < self.children@.len() && self.children@[k].0@ == name@ && self.children@[k].1 == *c,
                None => forall|k: int| 0 <= k < self.children@.len() ==> self.children@[k].0@ != name@,
            },
    {
        let mut i: usize = 0;
        while i < self.children.len()
            invariant
                i <= self.children.len(),
                forall|k: int| 0 <= k < i ==> self.children@[k].0@ != name@,
            decreases self.children.len() - i,
        {
            if str_eq(self.children[i].0.as_str(), name) {
                return Some(&self.children[i].1);
            }
            i += 1;
        }
        None
    }

    /// The number of top-level fields.
    pub fn child_count(&self) -> (n: usize)
        ensures
            n == self@.children.len(),
    {
        proof {
            lemma_children_view(self.children@);
        }
        self.children.len()
    }

    /// The top-level field names, in increasing order.
    pub fn top_level_fields(&self) -> (r: Vec<String>)
        ensures
            strs(r@) == self@.children.map_values(|c: (Seq<char>, MaskView)| c.0),
    {
        proof {
            lemma_children_view(self.children@);
        }
        let mut r: Vec<String> = Vec::new();
        let mut i: usize = 0;
        while i < self.children.len()
            invariant
                i <= self.children.len(),
                children_view(self.children@).len() == self.children@.len(),
                forall|k: int| 0 <= k < self.children@.len() ==> #[trigger] children_view(self.children@)[k] == (self.children@[k].0@, mask_view(self.children@[k].1)),
                strs(r@) == self@.children.map_values(|c: (Seq<char>, MaskView)| c.0).take(i as int),
            decreases self.children.len() - i,
        {
            let ghost b = strs(r@);
            r.push(copy_string(&self.children[i].0));
            assert(strs(r@) =~= b.push(self@.children[i as int].0));
            i += 1;
            assert(strs(r@) =~= self@.children.map_values(|c: (Seq<char>, MaskView)| c.0).take(i as int));
        }
        assert(self@.children.map_values(|c: (Seq<char>, MaskView)| c.0).take(self.children.len() as int) =~= self@.children.map_values(|c: (Seq<char>, MaskView)| c.0));
        r
    }
}

// ---------------------------------------------------------------------------
// Applying a mask
// ---------------------------------------------------------------------------

/// A JSON value pruned to the fields of a mask: objects keep the mask's
/// fields they have (in the mask's order), whole for a field without
/// sub-fields and pruned further otherwise; arrays are pruned element by
/// element; scalars are kept.
pub open spec fn spec_apply(m: MaskView, v: JsonSpec) -> JsonSpec
    decreases m, v,
{
    match v {
        JsonSpec::Object(entries) => JsonSpec::Object(apply_children(m.children, entries)),
        JsonSpec::Array(items) => JsonSpec::Array(apply_items(m, items)),
        _ => v,
    }
}

pub open spec fn apply_children(cs: Seq<(Seq<char>, MaskView)>, entries: Seq<(Seq<char>, JsonSpec)>) -> Seq<
    (Seq<char>, JsonSpec),
>
    decreases cs, entries,
{
    if cs.len() == 0 {
        Seq::empty()
    } else {
        let prev = apply_children(cs.drop_last(), entries);
        let key = cs.last().0;
        let c = cs.last().1;
        match lookup(entries, key) {
            None => prev,
            Some(val) => if c.children.len() == 0 {
                prev.push((key, val))
            } else {
                prev.push((key, spec_apply(c, val)))
            },
        }
    }
}

pub open spec fn apply_items(m: MaskView, items: Seq<JsonSpec>) -> Seq<JsonSpec>
    decreases m, items,
{
    if items.len() == 0 {
        Seq::empty()
    } else {
        apply_items(m, items.drop_last()).push(spec_apply(m, items.last()))
    }
}

impl FieldMask {
    /// Applies the mask to a JSON value (see `spec_apply`).
    pub fn apply(&self, value: &JsonValue) -> (r: JsonValue)
        ensures
            r@ == spec_apply(self@, value@),
        decreases self, value,
    {
        match value {
            JsonValue::Object(entries) => {
                proof {
                    lemma_children_view(self.children@);
                    lemma_entries_view(entries@);
                }
                let ghost cv = self@.children;
                let ghost ev = entries_view(entries@);
                let mut out: Vec<(String, JsonValue)> = Vec::new();
                let mut i: usize = 0;
                while i < self.children.len()
                    invariant
                        i <= self.children.len(),
                        *value == JsonValue::Object(*entries),
                        cv == self@.children,
                        cv.len() == self.children@.len(),
                        forall|k: int| 0 <= k < self.children@.len() ==> #[trigger] cv[k] == (self.children@[k].0@, mask_view(self.children@[k].1)),
                        ev == entries_view(entries@),
                        entries_view(out@) == apply_children(cv.take(i as int), ev),
                    decreases self.children.len() - i,
                {
                    assert(cv.take(i + 1 as int).drop_last() =~= cv.take(i as int));
                    assert(cv.take(i + 1 as int).last() == cv[i as int]);
                    let key = &self.children[i].0;
                    let c = &self.children[i].1;
                    proof {
                        lemma_children_view(c.children@);
                    }
                    let ghost before = entries_view(out@);
                    let ghost out_before = out@;
                    match find_entry(entries, key.as_str()) {
                        None => {},
                        Some(k) => {
                            let val = &entries[k].1;
                            if c.children.len() == 0 {
                                out.push((copy_string(key), copy_json(val)));
                            } else {
                                assert(decreases_to!(*self => *c)) by {
                                    assert(decreases_to!(*self => self.children));
                                    assert(decreases_to!(self.children => self.children@));
                                    assert(decreases_to!(self.children@ => self.children@[i as int]));
                                    assert(decreases_to!(self.children@[i as int] => self.children@[i as int].1));
                                }
                                let pruned = c.apply(val);
                                out.push((copy_string(key), pruned));
                            }
                            assert(out@.drop_last() =~= out_before);
                            assert(entries_view(out@) == before.push((out@.last().0@, json_view(out@.last().1))));
                        },
                    }
                    i += 1;
                }
                assert(cv.take(self.children.len() as int) =~= cv);
                JsonValue::Object(out)
            },
            JsonValue::Array(items) => {
                proof {
                    lemma_items_view(items@);
                }
                let mut out: Vec<JsonValue> = Vec::new();
                let mut i: usize = 0;
                while i < items.len()
                    invariant
                        i <= items.len(),
                        *value == JsonValue::Array(*items),
                        items_view(out@) == apply_items(self@, items_view(items@.take(i as int))),
                    decreases items.len() - i,
                {
                    assert(decreases_to!(*value => items@[i as int])) by {
                        assert(decreases_to!(*value => (*value)->Array_0));
                        assert(decreases_to!(*items => items@));
                        assert(decreases_to!(items@ => items@[i as int]));
                    }
                    let e = self.apply(&items[i]);
                    let ghost before = out@;
                    out.push(e);
                    assert(out@.drop_last() =~= before);
                    assert(items@.take(i + 1 as int).drop_last() =~= items@.take(i as int));
                    assert(items_view(out@) == items_view(before).push(json_view(out@.last())));
                    assert(items_view(items@.take(i + 1 as int)) == items_view(items@.take(i as int)).push(json_view(items@[i as int])));
                    let ghost nv = items_view(items@.take(i + 1 as int));
                    assert(nv.drop_last() =~= items_view(items@.take(i as int)));
                    assert(nv.last() == json_view(items@[i as int]));
                    assert(apply_items(self@, nv) == apply_items(self@, nv.drop_last()).push(spec_apply(self@, nv.last())));
                    i += 1;
                }
                assert(items@.take(items.len() as int) =~= items@);
                JsonValue::Array(out)
            },
            _ => copy_json(value),
        }
    }
}

// ---------------------------------------------------------------------------
// Validating masks against a JSON schema
// ---------------------------------------------------------------------------

pub open spec fn get_opt(v: Option<JsonSpec>, key: Seq<char>) -> Option<JsonSpec> {
    match v {
        Some(x) => spec_get(x, key),
        None => None,
    }
}

/// The keys of an object (none for anything else).
pub open spec fn object_keys(v: Option<JsonSpec>) -> Set<Seq<char>> {
    match v {
        Some(JsonSpec::Object(es)) => Set::new(|k: Seq<char>| exists|i: int| 0 <= i < es.len() && (#[trigger] es[i]).0 == k),
        _ => Set::empty(),
    }
}

/// The prefix of schema references to definitions.
pub open spec fn definitions_prefix() -> Seq<char> {
    "#/definitions/"@
}

/// The properties of the definition a `$ref` string value points to.
pub open spec fn ref_properties(schema: JsonSpec, r: Option<JsonSpec>) -> Option<JsonSpec> {
    match r {
        Some(JsonSpec::Str(s)) => {
            let p = definitions_prefix();
            if p.len() <= s.len() && s.take(p.len() as int) == p {
                get_opt(get_opt(spec_get(schema, "definitions"@), s.skip(p.len() as int)), "properties"@)
            } else {
                None
            }
        },
        _ => None,
    }
}

/// The field names a schema declares: its properties, its items'
/// properties, and the properties of the definitions its `$ref` and its
/// items' `$ref` point to.
pub open spec fn schema_fields(schema: JsonSpec) -> Set<Seq<char>> {
    let items = spec_get(schema, "items"@);
    object_keys(spec_get(schema, "properties"@)).union(object_keys(get_opt(items, "properties"@))).union(
        object_keys(ref_properties(schema, spec_get(schema, "$ref"@))),
    ).union(object_keys(ref_properties(schema, get_opt(items, "$ref"@))))
}

fn get_value<'a>(v: &'a JsonValue, key: &str) -> (r: Option<&'a JsonValue>)
    ensures
        match r {
            Some(x) => spec_get(v@, key@) == Some(x@),
            None => spec_get(v@, key@) is None,
        },
{
    match v {
        JsonValue::Object(entries) => match find_entry(entries, key) {
            Some(k) => Some(&entries[k].1),
            None => None,
        },
        _ => None,
    }
}

fn get_opt_value<'a>(v: Option<&'a JsonValue>, key: &str) -> (r: Option<&'a JsonValue>)
    ensures
        match r {
            Some(x) => get_opt(opt_json(v), key@) == Some(x@),
            None => get_opt(opt_json(v), key@) is None,
        },
{
    match v {
        Some(x) => get_value(x, key),
        None => None,
    }
}

pub open spec fn opt_json(v: Option<&JsonValue>) -> Option<JsonSpec> {
    match v {
        Some(x) => Some(x@),
        None => None,
    }
}

fn add_keys(v: Option<&JsonValue>, out: &mut Vec<String>)
    requires
        strictly_sorted(strs(old(out)@)),
    ensures
        strictly_sorted(strs(final(out)@)),
        strs(final(out)@).to_set() == strs(old(out)@).to_set().union(object_keys(opt_json(v))),
{
    match v {
        Some(JsonValue::Object(entries)) => {
            proof {
                lemma_entries_view(entries@);
            }
            let ghost es = entries_view(entries@);
            let mut i: usize = 0;
            while i < entries.len()
                invariant
                    i <= entries.len(),
                    es == entries_view(entries@),
                    es.len() == entries@.len(),
                    forall|k: int| 0 <= k < entries@.len() ==> #[trigger] es[k] == (entries@[k].0@, json_view(entries@[k].1)),
                    strictly_sorted(strs(out@)),
                    strs(out@).to_set() == strs(old(out)@).to_set().union(
                        Set::new(|k: Seq<char>| exists|j: int| 0 <= j < i && (#[trigger] es[j]).0 == k),
                    ),
                decreases entries.len() - i,
            {
                let ghost before = strs(out@).to_set();
                insert_sorted_unique(out, copy_string(&entries[i].0));
                assert(strs(out@).to_set() =~= strs(old(out)@).to_set().union(
                    Set::new(|k: Seq<char>| exists|j: int| 0 <= j < i + 1 && (#[trigger] es[j]).0 == k),
                )) by {
                    assert(es[i as int].0 == entries@[i as int].0@);
                }
                i += 1;
            }
            assert(Set::new(|k: Seq<char>| exists|j: int| 0 <= j < entries@.len() && (#[trigger] es[j]).0 == k)
                =~= object_keys(opt_json(v)));
        },
        _ => {
            assert(strs(out@).to_set().union(object_keys(opt_json(v))) =~= strs(out@).to_set());
        },
    }
}

fn ref_properties_value<'a>(schema: &'a JsonValue, r: Option<&'a JsonValue>) -> (p: Option<&'a JsonValue>)
    ensures
        match p {
            Some(x) => ref_properties(schema@, opt_json(r)) == Some(x@),
            None => ref_properties(schema@, opt_json(r)) is None,
        },
{
    match r {
        Some(JsonValue::Str(s)) => {
            let pre = "#/definitions/";
            proof {
                reveal_strlit("#/definitions/");
            }
            let sc = chars_of(s.as_str());
            let pc = chars_of(pre);
            if pc.len() <= sc.len() && crate::text::chars_eq(&take_chars(&sc, pc.len()), &pc) {
                let name = string_of(&skip_chars(&sc, pc.len()));
                let defs = get_value(schema, "definitions");
                let def = get_opt_value(defs, name.as_str());
                get_opt_value(def, "properties")
            } else {
                None
            }
        },
        _ => None,
    }
}

fn take_chars(v: &Vec<char>, n: usize) -> (r: Vec<char>)
    requires
        n <= v.len(),
    ensures
        r@ == v@.take(n as int),
{
    let mut r: Vec<char> = Vec::new();
    let mut i: usize = 0;
    while i < n
        invariant
            i <= n <= v.len(),
            r@ == v@.take(i as int),
        decreases n - i,
    {
        r.push(v[i]);
        i += 1;
        assert(r@ =~= v@.take(i as int));
    }
    r
}

fn skip_chars(v: &Vec<char>, n: usize) -> (r: Vec<char>)
    requires
        n <= v.len(),
    ensures
        r@ == v@.skip(n as int),
{
    let mut r: Vec<char> = Vec::new();
    let mut i: usize = n;
    while i < v.len()
        invariant
            n <= i <= v.len(),
            r@ == v@.subrange(n as int, i as int),
        decreases v.len() - i,
    {
        r.push(v[i]);
        i += 1;
        assert(r@ =~= v@.subrange(n as int, i as int));
    }
    assert(v@.subrange(n as int, v.len() as int) =~= v@.skip(n as int));
    r
}

/// The field names a schema declares (see `schema_fields`), sorted and
/// each once.
pub fn extract_valid_fields_from_schema(schema: &JsonValue) -> (r: Vec<String>)
    ensures
        strictly_sorted(strs(r@)),
        strs(r@).to_set() == schema_fields(schema@),
{
    let mut out: Vec<String> = Vec::new();
    assert(strs(out@).to_set() =~= Set::<Seq<char>>::empty());
    let props = get_value(schema, "properties");
    add_keys(props, &mut out);
    let items = get_value(schema, "items");
    let item_props = get_opt_value(items, "properties");
    add_keys(item_props, &mut out);
    let r1 = get_value(schema, "$ref");
    let d1 = ref_properties_value(schema, r1);
    add_keys(d1, &mut out);
    let r2 = get_opt_value(items, "$ref");
    let d2 = ref_properties_value(schema, r2);
    add_keys(d2, &mut out);
    assert(strs(out@).to_set() =~= schema_fields(schema@));
    out
}

/// The top-level fields of the mask, in order, that the schema does not
/// declare.
pub open spec fn invalid_fields(cs: Seq<(Seq<char>, MaskView)>, valid: Set<Seq<char>>) -> Seq<Seq<char>>
    decreases cs.len(),
{
    if cs.len() == 0 {
        Seq::empty()
    } else if valid.contains(cs.last().0) {
        invalid_fields(cs.drop_last(), valid)
    } else {
        invalid_fields(cs.drop_last(), valid).push(cs.last().0)
    }
}

/// Checks the mask's top-level fields against a schema; the fields it does
/// not declare, in order (empty when all are valid).
pub fn validate_fields_against_schema(mask: &FieldMask, schema: &JsonValue) -> (r: Vec<String>)
    ensures
        strs(r@) == invalid_fields(mask@.children, schema_fields(schema@)),
{
    let valid = extract_valid_fields_from_schema(schema);
    proof {
        lemma_children_view(mask.children@);
    }
    let ghost cv = mask@.children;
    let mut r: Vec<String> = Vec::new();
    let mut i: usize = 0;
    while i < mask.children.len()
        invariant
            i <= mask.children.len(),
            cv == mask@.children,
            cv.len() == mask.children@.len(),
            forall|k: int| 0 <= k < mask.children@.len() ==> #[trigger] cv[k] == (mask.children@[k].0@, mask_view(mask.children@[k].1)),
            strs(valid@).to_set() == schema_fields(schema@),
            strs(r@) == invalid_fields(cv.take(i as int), schema_fields(schema@)),
        decreases mask.children.len() - i,
    {
        assert(cv.take(i + 1 as int).drop_last() =~= cv.take(i as int));
        assert(cv.take(i + 1 as int).last() == cv[i as int]);
        let key = &mask.children[i].0;
        let known = crate::manifest::strings_contain(&valid, key);
        if !known {
            let ghost b = strs(r@);
            r.push(copy_string(key));
            assert(strs(r@) =~= b.push(key@));
        }
        i += 1;
    }
    assert(cv.take(mask.children.len() as int) =~= cv);
    r
}

proof fn lemma_lookup_first(entries: Seq<(Seq<char>, JsonSpec)>, key: Seq<char>)
    ensures
        match lookup(entries, key) {
            None => forall|e: int| 0 <= e < entries.len() ==> (#[trigger] entries[e]).0 != key,
            Some(v) => exists|e: int|
                0 <= e < entries.len() && #[trigger] entries[e] == (key, v) && forall|f: int|
                    0 <= f < e ==> (#[trigger] entries[f]).0 != key,
        },
    decreases entries.len(),
{
    if entries.len() > 0 {
        let t = entries.drop_first();
        lemma_lookup_first(t, key);
        assert forall|e: int| 0 <= e < t.len() implies #[trigger] t[e] == entries[e + 1] by {}
        if entries[0].0 != key {
            match lookup(t, key) {
                None => {
                    assert forall|e: int| 0 <= e < entries.len() implies (#[trigger] entries[e]).0 != key by {
                        if e > 0 {
                            assert(entries[e] == t[e - 1]);
                        }
                    }
                },
                Some(v) => {
                    let e = choose|e: int| 0 <= e < t.len() && #[trigger] t[e] == (key, v) && forall|f: int|
                        0 <= f < e ==> (#[trigger] t[f]).0 != key;
                    assert(entries[e + 1] == (key, v));
                    assert forall|f: int| 0 <= f < e + 1 implies (#[trigger] entries[f]).0 != key by {
                        if f > 0 {
                            assert(entries[f] == t[f - 1]);
                        }
                    }
                },
            }
        } else {
            assert(entries[0] == (key, entries[0].1));
        }
    }
}

/// What masking an object keeps: only fields that are both asked for by
/// the mask and present in the object; and every field the mask asks for
/// without sub-fields, when the object has it, is kept with the object's
/// (first) value under that name.
pub proof fn lemma_mask_object(m: MaskView, entries: Seq<(Seq<char>, JsonSpec)>)
    ensures
        ({
            let out = apply_children(m.children, entries);
            &&& forall|k: int|
                0 <= k < out.len() ==> (exists|c: int| 0 <= c < m.children.len() && (#[trigger] m.children[c]).0
                    == (#[trigger] out[k]).0) && (exists|e: int| 0 <= e < entries.len() && (#[trigger] entries[e]).0
                    == out[k].0)
            &&& forall|c: int, e: int|
                0 <= c < m.children.len() && (#[trigger] m.children[c]).1.children.len() == 0 && 0 <= e
                    < entries.len() && (#[trigger] entries[e]).0 == m.children[c].0 && (forall|f: int|
                    0 <= f < e ==> (#[trigger] entries[f]).0 != m.children[c].0) ==> out.contains(entries[e])
        }),
    decreases m.children.len(),
{
    let cs = m.children;
    if cs.len() > 0 {
        let m2 = MaskView { include_all: m.include_all, children: cs.drop_last() };
        lemma_mask_object(m2, entries);
        let prev = apply_children(cs.drop_last(), entries);
        let out = apply_children(cs, entries);
        let key = cs.last().0;
        lemma_lookup_first(entries, key);
        assert forall|c: int| 0 <= c < cs.len() - 1 implies #[trigger] cs[c] == cs.drop_last()[c] by {}
        assert(cs[cs.len() - 1] == cs.last());
        assert forall|k: int| 0 <= k < out.len() implies (exists|c: int| 0 <= c < cs.len() && (#[trigger] cs[c]).0
            == (#[trigger] out[k]).0) && (exists|e: int| 0 <= e < entries.len() && (#[trigger] entries[e]).0 == out[k].0) by {
            if k < prev.len() {
                assert(out[k] == prev[k]);
                let c = choose|c: int| 0 <= c < cs.drop_last().len() && (#[trigger] cs.drop_last()[c]).0 == prev[k].0;
                assert(cs[c] == cs.drop_last()[c]);
            } else {
                assert(out[k].0 == key);
                assert(cs[cs.len() - 1].0 == key);
                let v = lookup(entries, key)->0;
                let e = choose|e: int| 0 <= e < entries.len() && #[trigger] entries[e] == (key, v) && forall|f: int|
                    0 <= f < e ==> (#[trigger] entries[f]).0 != key;
                assert(entries[e].0 == key);
            }
        }
        assert forall|c: int, e: int|
            0 <= c < cs.len() && (#[trigger] cs[c]).1.children.len() == 0 && 0 <= e < entries.len()
                && (#[trigger] entries[e]).0 == cs[c].0 && (forall|f: int| 0 <= f < e ==> (#[trigger] entries[f]).0
                != cs[c].0) implies out.contains(entries[e]) by {
            if c < cs.len() - 1 {
                assert(cs.drop_last()[c] == cs[c]);
                assert(prev.contains(entries[e]));
                let k = choose|k: int| 0 <= k < prev.len() && prev[k] == entries[e];
                assert(out[k] == prev[k]);
            } else {
                let v = lookup(entries, key)->0;
                let e2 = choose|e2: int| 0 <= e2 < entries.len() && #[trigger] entries[e2] == (key, v) && forall|f: int|
                    0 <= f < e2 ==> (#[trigger] entries[f]).0 != key;
                if e2 < e {
                    assert(entries[e2].0 == key);
                } else if e < e2 {
                    assert(entries[e].0 == key);
                }
                assert(entries[e] == (key, v));
                assert(out[out.len() - 1] == (key, v));
            }
        }
    }
}

} // verus!
