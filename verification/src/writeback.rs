//! Write-back: recording matched entities in the manifest they matched.
//!
//! Write-back is additive: it only appends names to the `interfaces`,
//! `operations` and `tables` lists of subsystems, never removes or reorders
//! anything, never touches the human-authored fields (id, name, domain,
//! status, file path, events, dependencies) and never appends a name that
//! is already listed.
//!
//! Within one list of siblings, the first subsystem whose id is the matched
//! one receives the entity; siblings before it are searched recursively
//! through their children.

use vstd::prelude::*;
use crate::ir::{EntityKind, MatchResult, MatchedEntity, ScanIndex};
use crate::manifest::{
    lemma_subs_view_index, lemma_subs_view_len, strings_contain, strs, subs_view, Manifest,
    ManifestSubsystem, SubsystemView, SystemManifest,
};
use crate::matching::{matched_view, with_parens, MatchedSpec};
use crate::text::copy_string;

verus! {

// ---------------------------------------------------------------------------
// The model
// ---------------------------------------------------------------------------

/// `s` with its interfaces replaced.
pub open spec fn with_interfaces(s: SubsystemView, v: Seq<Seq<char>>) -> SubsystemView {
    SubsystemView {
        id: s.id,
        name: s.name,
        domain: s.domain,
        status: s.status,
        file_path: s.file_path,
        interfaces: v,
        operations: s.operations,
        tables: s.tables,
        events: s.events,
        children: s.children,
        dependencies: s.dependencies,
    }
}

/// `s` with its operations replaced.
pub open spec fn with_operations(s: SubsystemView, v: Seq<Seq<char>>) -> SubsystemView {
    SubsystemView {
        id: s.id,
        name: s.name,
        domain: s.domain,
        status: s.status,
        file_path: s.file_path,
        interfaces: s.interfaces,
        operations: v,
        tables: s.tables,
        events: s.events,
        children: s.children,
        dependencies: s.dependencies,
    }
}

/// `s` with its tables replaced.
pub open spec fn with_tables(s: SubsystemView, v: Seq<Seq<char>>) -> SubsystemView {
    SubsystemView {
        id: s.id,
        name: s.name,
        domain: s.domain,
        status: s.status,
        file_path: s.file_path,
        interfaces: s.interfaces,
        operations: s.operations,
        tables: v,
        events: s.events,
        children: s.children,
        dependencies: s.dependencies,
    }
}

/// `s` with its children replaced.
pub open spec fn with_children(s: SubsystemView, c: Seq<SubsystemView>) -> SubsystemView {
    SubsystemView {
        id: s.id,
        name: s.name,
        domain: s.domain,
        status: s.status,
        file_path: s.file_path,
        interfaces: s.interfaces,
        operations: s.operations,
        tables: s.tables,
        events: s.events,
        children: c,
        dependencies: s.dependencies,
    }
}

/// `v` with `x` appended unless it is already there.
pub open spec fn add_unique(v: Seq<Seq<char>>, x: Seq<char>) -> Seq<Seq<char>> {
    if v.contains(x) {
        v
    } else {
        v.push(x)
    }
}

/// Recording an entity in one subsystem: interfaces go to `interfaces`,
/// methods and functions to `operations` as `name()`, schemas to `tables`;
/// other kinds are not recorded.
pub open spec fn add_entity(s: SubsystemView, kind: EntityKind, name: Seq<char>) -> SubsystemView {
    match kind {
        EntityKind::Interface => with_interfaces(s, add_unique(s.interfaces, name)),
        EntityKind::Method | EntityKind::Function => with_operations(
            s,
            add_unique(s.operations, with_parens(name)),
        ),
        EntityKind::Schema => with_tables(s, add_unique(s.tables, name)),
        _ => s,
    }
}

/// Write-back of one entity into a list of sibling subsystems.
pub open spec fn wb_list(ss: Seq<SubsystemView>, id: Seq<char>, kind: EntityKind, name: Seq<char>) -> Seq<
    SubsystemView,
>
    decreases ss,
{
    if ss.len() == 0 {
        ss
    } else {
        let s = ss[0];
        if s.id == id {
            seq![add_entity(s, kind, name)] + ss.drop_first()
        } else {
            proof {
                assert(decreases_to!(ss => ss[0]));
            }
            seq![with_children(s, wb_list(s.children, id, kind, name))] + wb_list(
                ss.drop_first(),
                id,
                kind,
                name,
            )
        }
    }
}

/// Write-back of one matched entity.
pub open spec fn wb_one(ss: Seq<SubsystemView>, m: MatchedSpec) -> Seq<SubsystemView> {
    wb_list(ss, m.subsystem_id, m.entity.kind, m.entity.name)
}

/// Write-back of all matched entities, in order.
pub open spec fn wb_all(ss: Seq<SubsystemView>, ms: Seq<MatchedSpec>) -> Seq<SubsystemView>
    decreases ms.len(),
{
    if ms.len() == 0 {
        ss
    } else {
        wb_one(wb_all(ss, ms.drop_last()), ms.last())
    }
}

/// The subsystems before position `i` hold no subsystem with id `id`, so
/// write-back descends into each of them.
pub open spec fn descended(s: SubsystemView, id: Seq<char>, kind: EntityKind, name: Seq<char>) -> SubsystemView {
    with_children(s, wb_list(s.children, id, kind, name))
}

pub proof fn lemma_wb_list_prefix(
    ss: Seq<SubsystemView>,
    id: Seq<char>,
    kind: EntityKind,
    name: Seq<char>,
    i: int,
)
    requires
        0 <= i <= ss.len(),
        forall|k: int| 0 <= k < i ==> (#[trigger] ss[k]).id != id,
    ensures
        wb_list(ss, id, kind, name) == ss.take(i).map_values(
            |s: SubsystemView| descended(s, id, kind, name),
        ) + wb_list(ss.skip(i), id, kind, name),
    decreases i,
{
    if i == 0 {
        assert(ss.skip(0) =~= ss);
        assert(ss.take(0).map_values(|s: SubsystemView| descended(s, id, kind, name))
            + wb_list(ss, id, kind, name) =~= wb_list(ss, id, kind, name));
    } else {
        let t = ss.drop_first();
        assert forall|k: int| 0 <= k < i - 1 implies (#[trigger] t[k]).id != id by {
            assert(t[k] == ss[k + 1]);
        }
        lemma_wb_list_prefix(t, id, kind, name, i - 1);
        assert(t.skip(i - 1) =~= ss.skip(i));
        assert(ss[0].id != id);
        assert(ss.take(i).map_values(|s: SubsystemView| descended(s, id, kind, name)) =~= seq![
            descended(ss[0], id, kind, name),
        ] + t.take(i - 1).map_values(|s: SubsystemView| descended(s, id, kind, name)));
    }
}

// ---------------------------------------------------------------------------
// The executable write-back
// ---------------------------------------------------------------------------

fn add_entity_exec(s: &mut ManifestSubsystem, kind: EntityKind, name: &String)
    ensures
        final(s)@ == add_entity(old(s)@, kind, name@),
{
    match kind {
        EntityKind::Interface => {
            if !strings_contain(&s.interfaces, name) {
                let ghost before = s.interfaces@;
                s.interfaces.push(copy_string(name));
                assert(strs(s.interfaces@) =~= strs(before).push(name@));
            }
        },
        EntityKind::Method | EntityKind::Function => {
            let mut op = copy_string(name);
            op.push('(');
            op.push(')');
            assert(op@ =~= with_parens(name@));
            if !strings_contain(&s.operations, &op) {
                let ghost before = s.operations@;
                s.operations.push(op);
                assert(strs(s.operations@) =~= strs(before).push(with_parens(name@)));
            }
        },
        EntityKind::Schema => {
            if !strings_contain(&s.tables, name) {
                let ghost before = s.tables@;
                s.tables.push(copy_string(name));
                assert(strs(s.tables@) =~= strs(before).push(name@));
            }
        },
        _ => {},
    }
}

fn write_back_list(subs: &mut Vec<ManifestSubsystem>, id: &String, kind: EntityKind, name: &String)
    ensures
        subs_view(final(subs)@) == wb_list(subs_view(old(subs)@), id@, kind, name@),
    decreases old(subs)@,
{
    let ghost ov = subs_view(old(subs)@);
    let ghost n = old(subs)@.len();
    proof {
        lemma_subs_view_len(old(subs)@);
    }
    let mut i: usize = 0;
    while i < subs.len()
        invariant
            i <= subs.len(),
            subs@.len() == n,
            n == old(subs)@.len(),
            ov.len() == n,
            ov == subs_view(old(subs)@),
            forall|k: int| 0 <= k < i ==> (#[trigger] ov[k]).id != id@,
            forall|k: int| 0 <= k < i ==> (#[trigger] subs@[k])@ == descended(ov[k], id@, kind, name@),
            forall|k: int| i <= k < n ==> #[trigger] subs@[k] == old(subs)@[k],
        decreases subs.len() - i,
    {
        proof {
            lemma_subs_view_index(old(subs)@, i as int);
        }
        let mut s = subs.remove(i);
        assert(s == old(subs)@[i as int]);
        if s.id == *id {
            add_entity_exec(&mut s, kind, name);
            subs.insert(i, s);
            proof {
                lemma_wb_list_prefix(ov, id@, kind, name@, i as int);
                assert(ov.skip(i as int)[0] == ov[i as int]);
                assert(ov.skip(i as int).drop_first() =~= ov.skip(i + 1 as int));
                lemma_subs_view_len(subs@);
                assert forall|k: int| 0 <= k < n implies subs_view(subs@)[k] == wb_list(
                    ov,
                    id@,
                    kind,
                    name@,
                )[k] by {
                    lemma_subs_view_index(subs@, k);
                    if k > i {
                        lemma_subs_view_index(old(subs)@, k);
                    }
                }
                assert(subs_view(subs@) =~= wb_list(ov, id@, kind, name@));
            }
            return;
        }
        assert(decreases_to!(old(subs)@ => old(subs)@[i as int]));
        write_back_list(&mut s.children, id, kind, name);
        subs.insert(i, s);
        i += 1;
    }
    proof {
        lemma_wb_list_prefix(ov, id@, kind, name@, n as int);
        assert(ov.skip(n as int) =~= Seq::<SubsystemView>::empty());
        lemma_subs_view_len(subs@);
        assert forall|k: int| 0 <= k < n implies subs_view(subs@)[k] == wb_list(ov, id@, kind, name@)[k] by {
            lemma_subs_view_index(subs@, k);
        }
        assert(subs_view(subs@) =~= wb_list(ov, id@, kind, name@));
    }
}

fn write_back_all(subs: &mut Vec<ManifestSubsystem>, matched: &Vec<MatchedEntity>)
    ensures
        subs_view(final(subs)@) == wb_all(subs_view(old(subs)@), matched_view(matched@)),
{
    let ghost mv = matched_view(matched@);
    let mut i: usize = 0;
    while i < matched.len()
        invariant
            i <= matched.len(),
            mv == matched_view(matched@),
            subs_view(subs@) == wb_all(subs_view(old(subs)@), mv.take(i as int)),
        decreases matched.len() - i,
    {
        let m = &matched[i];
        proof {
            assert(mv.take(i + 1 as int).drop_last() =~= mv.take(i as int));
            assert(mv.take(i + 1 as int).last() == m@);
        }
        write_back_list(subs, &m.subsystem_id, m.entity.kind, &m.entity.name);
        i += 1;
    }
    assert(mv.take(matched.len() as int) =~= mv);
}

/// Write-back: record every matched entity in the manifest, in the order
/// of the match result (see the module documentation for the rules).
pub fn write_back(manifest: &mut Manifest, match_result: &MatchResult, index: &ScanIndex)
    ensures
        subs_view(final(manifest).subsystems@) == wb_all(
            subs_view(old(manifest).subsystems@),
            matched_view(match_result.matched@),
        ),
{
    write_back_all(&mut manifest.subsystems, &match_result.matched);
}

/// Write-back into a system manifest; its meta, domains and connections
/// are kept as they are.
pub fn write_back_system(manifest: &mut SystemManifest, match_result: &MatchResult, index: &ScanIndex)
    ensures
        subs_view(final(manifest).subsystems@) == wb_all(
            subs_view(old(manifest).subsystems@),
            matched_view(match_result.matched@),
        ),
        final(manifest).meta == old(manifest).meta,
        final(manifest).domains == old(manifest).domains,
        final(manifest).connections == old(manifest).connections,
{
    write_back_all(&mut manifest.subsystems, &match_result.matched);
}

// ---------------------------------------------------------------------------
// Laws
// ---------------------------------------------------------------------------

/// `o` is a prefix of `n`.
pub open spec fn is_prefix(o: Seq<Seq<char>>, n: Seq<Seq<char>>) -> bool {
    o.len() <= n.len() && n.take(o.len() as int) == o
}

/// `n` is `o` with entries possibly appended to its interfaces, operations
/// and tables, here and in its descendants; everything else is the same.
pub open spec fn extends(n: SubsystemView, o: SubsystemView) -> bool
    decreases o,
{
    &&& n.id == o.id
    &&& n.name == o.name
    &&& n.domain == o.domain
    &&& n.status == o.status
    &&& n.file_path == o.file_path
    &&& n.events == o.events
    &&& n.dependencies == o.dependencies
    &&& is_prefix(o.interfaces, n.interfaces)
    &&& is_prefix(o.operations, n.operations)
    &&& is_prefix(o.tables, n.tables)
    &&& extends_list(n.children, o.children)
}

/// Sibling lists extending one another position by position.
pub open spec fn extends_list(n: Seq<SubsystemView>, o: Seq<SubsystemView>) -> bool
    decreases o,
{
    &&& n.len() == o.len()
    &&& o.len() > 0 ==> {
        &&& extends(n[0], o[0])
        &&& extends_list(n.drop_first(), o.drop_first())
    }
}

pub proof fn lemma_extends_refl(s: SubsystemView)
    ensures
        extends(s, s),
    decreases s,
{
    assert(s.interfaces.take(s.interfaces.len() as int) =~= s.interfaces);
    assert(s.operations.take(s.operations.len() as int) =~= s.operations);
    assert(s.tables.take(s.tables.len() as int) =~= s.tables);
    lemma_extends_list_refl(s.children);
}

pub proof fn lemma_extends_list_refl(ss: Seq<SubsystemView>)
    ensures
        extends_list(ss, ss),
    decreases ss,
{
    if ss.len() > 0 {
        lemma_extends_refl(ss[0]);
        lemma_extends_list_refl(ss.drop_first());
    }
}

proof fn lemma_prefix_trans(a: Seq<Seq<char>>, b: Seq<Seq<char>>, c: Seq<Seq<char>>)
    requires
        is_prefix(a, b),
        is_prefix(b, c),
    ensures
        is_prefix(a, c),
{
    assert(c.take(a.len() as int) =~= b.take(a.len() as int));
}

pub proof fn lemma_extends_trans(a: SubsystemView, b: SubsystemView, c: SubsystemView)
    requires
        extends(b, a),
        extends(c, b),
    ensures
        extends(c, a),
    decreases a,
{
    lemma_prefix_trans(a.interfaces, b.interfaces, c.interfaces);
    lemma_prefix_trans(a.operations, b.operations, c.operations);
    lemma_prefix_trans(a.tables, b.tables, c.tables);
    lemma_extends_list_trans(a.children, b.children, c.children);
}

pub proof fn lemma_extends_list_trans(a: Seq<SubsystemView>, b: Seq<SubsystemView>, c: Seq<SubsystemView>)
    requires
        extends_list(b, a),
        extends_list(c, b),
    ensures
        extends_list(c, a),
    decreases a,
{
    if a.len() > 0 {
        lemma_extends_trans(a[0], b[0], c[0]);
        lemma_extends_list_trans(a.drop_first(), b.drop_first(), c.drop_first());
    }
}

proof fn lemma_add_unique_prefix(v: Seq<Seq<char>>, x: Seq<char>)
    ensures
        is_prefix(v, add_unique(v, x)),
        add_unique(v, x).contains(x),
{
    assert(add_unique(v, x).take(v.len() as int) =~= v);
    if !v.contains(x) {
        assert(add_unique(v, x)[v.len() as int] == x);
    }
}

proof fn lemma_add_entity_extends(s: SubsystemView, kind: EntityKind, name: Seq<char>)
    ensures
        extends(add_entity(s, kind, name), s),
{
    lemma_extends_refl(s);
    lemma_add_unique_prefix(s.interfaces, name);
    lemma_add_unique_prefix(s.operations, with_parens(name));
    lemma_add_unique_prefix(s.tables, name);
}

/// Write-back of one entity is additive and leaves human-authored fields
/// alone.
pub proof fn lemma_wb_list_extends(ss: Seq<SubsystemView>, id: Seq<char>, kind: EntityKind, name: Seq<char>)
    ensures
        extends_list(wb_list(ss, id, kind, name), ss),
    decreases ss,
{
    if ss.len() > 0 {
        let r = wb_list(ss, id, kind, name);
        if ss[0].id == id {
            lemma_add_entity_extends(ss[0], kind, name);
            assert(r[0] == add_entity(ss[0], kind, name));
            assert(extends(r[0], ss[0]));
            assert(r.drop_first() =~= ss.drop_first());
            lemma_extends_list_refl(ss.drop_first());
            assert(extends_list(r.drop_first(), ss.drop_first()));
        } else {
            assert(decreases_to!(ss => ss[0]));
            lemma_wb_list_extends(ss[0].children, id, kind, name);
            lemma_wb_list_extends(ss.drop_first(), id, kind, name);
            let d = descended(ss[0], id, kind, name);
            assert(d.interfaces.take(d.interfaces.len() as int) =~= d.interfaces);
            assert(d.operations.take(d.operations.len() as int) =~= d.operations);
            assert(d.tables.take(d.tables.len() as int) =~= d.tables);
            assert(r[0] == d);
            assert(extends(d, ss[0]));
            assert(r.drop_first() =~= wb_list(ss.drop_first(), id, kind, name));
            assert(extends_list(r.drop_first(), ss.drop_first()));
        }
    }
}

/// Write-back is additive: whatever the matched entities, the result only
/// appends entries to the interfaces, operations and tables lists, and
/// every other field of every subsystem (ids, names, domains, statuses,
/// file paths, events, dependencies, the tree shape) stays as it was.
pub proof fn lemma_write_back_additive(ss: Seq<SubsystemView>, ms: Seq<MatchedSpec>)
    ensures
        extends_list(wb_all(ss, ms), ss),
    decreases ms.len(),
{
    if ms.len() == 0 {
        lemma_extends_list_refl(ss);
    } else {
        lemma_write_back_additive(ss, ms.drop_last());
        let prev = wb_all(ss, ms.drop_last());
        let m = ms.last();
        lemma_wb_list_extends(prev, m.subsystem_id, m.entity.kind, m.entity.name);
        lemma_extends_list_trans(ss, prev, wb_all(ss, ms));
    }
}

/// The subsystem records the entity in the list for its kind.
pub open spec fn records(s: SubsystemView, kind: EntityKind, name: Seq<char>) -> bool {
    match kind {
        EntityKind::Interface => s.interfaces.contains(name),
        EntityKind::Method | EntityKind::Function => s.operations.contains(with_parens(name)),
        EntityKind::Schema => s.tables.contains(name),
        _ => true,
    }
}

/// Every subsystem that write-back of this entity would touch already
/// records it.
pub open spec fn absorbed(ss: Seq<SubsystemView>, id: Seq<char>, kind: EntityKind, name: Seq<char>) -> bool
    decreases ss,
{
    ss.len() > 0 ==> if ss[0].id == id {
        records(ss[0], kind, name)
    } else {
        proof {
            assert(decreases_to!(ss => ss[0]));
        }
        absorbed(ss[0].children, id, kind, name) && absorbed(ss.drop_first(), id, kind, name)
    }
}

pub proof fn lemma_absorbed_fixed(ss: Seq<SubsystemView>, id: Seq<char>, kind: EntityKind, name: Seq<char>)
    requires
        absorbed(ss, id, kind, name),
    ensures
        wb_list(ss, id, kind, name) == ss,
    decreases ss,
{
    if ss.len() > 0 {
        let s = ss[0];
        if s.id == id {
            assert(add_entity(s, kind, name) == s);
        } else {
            assert(decreases_to!(ss => ss[0]));
            lemma_absorbed_fixed(s.children, id, kind, name);
            lemma_absorbed_fixed(ss.drop_first(), id, kind, name);
            assert(with_children(s, s.children) == s);
        }
        assert(wb_list(ss, id, kind, name) =~= ss);
    }
}

pub proof fn lemma_wb_list_absorbs(ss: Seq<SubsystemView>, id: Seq<char>, kind: EntityKind, name: Seq<char>)
    ensures
        absorbed(wb_list(ss, id, kind, name), id, kind, name),
    decreases ss,
{
    if ss.len() > 0 {
        let r = wb_list(ss, id, kind, name);
        if ss[0].id == id {
            lemma_add_unique_prefix(ss[0].interfaces, name);
            lemma_add_unique_prefix(ss[0].operations, with_parens(name));
            lemma_add_unique_prefix(ss[0].tables, name);
            assert(r[0] == add_entity(ss[0], kind, name));
        } else {
            assert(decreases_to!(ss => ss[0]));
            lemma_wb_list_absorbs(ss[0].children, id, kind, name);
            lemma_wb_list_absorbs(ss.drop_first(), id, kind, name);
            assert(r.drop_first() =~= wb_list(ss.drop_first(), id, kind, name));
        }
    }
}

proof fn lemma_prefix_contains(o: Seq<Seq<char>>, n: Seq<Seq<char>>, x: Seq<char>)
    requires
        is_prefix(o, n),
        o.contains(x),
    ensures
        n.contains(x),
{
    let k = choose|k: int| 0 <= k < o.len() && o[k] == x;
    assert(n.take(o.len() as int)[k] == x);
}

pub proof fn lemma_absorbed_extends(
    n: Seq<SubsystemView>,
    o: Seq<SubsystemView>,
    id: Seq<char>,
    kind: EntityKind,
    name: Seq<char>,
)
    requires
        extends_list(n, o),
        absorbed(o, id, kind, name),
    ensures
        absorbed(n, id, kind, name),
    decreases o,
{
    if o.len() > 0 {
        assert(extends(n[0], o[0]));
        assert(extends_list(n.drop_first(), o.drop_first()));
        assert(is_prefix(o[0].interfaces, n[0].interfaces));
        assert(is_prefix(o[0].operations, n[0].operations));
        assert(is_prefix(o[0].tables, n[0].tables));
        assert(extends_list(n[0].children, o[0].children));
        if o[0].id == id {
            match kind {
                EntityKind::Interface => lemma_prefix_contains(o[0].interfaces, n[0].interfaces, name),
                EntityKind::Method | EntityKind::Function => lemma_prefix_contains(
                    o[0].operations,
                    n[0].operations,
                    with_parens(name),
                ),
                EntityKind::Schema => lemma_prefix_contains(o[0].tables, n[0].tables, name),
                _ => {},
            }
        } else {
            assert(decreases_to!(o => o[0]));
            lemma_absorbed_extends(n[0].children, o[0].children, id, kind, name);
            lemma_absorbed_extends(n.drop_first(), o.drop_first(), id, kind, name);
        }
    }
}

pub open spec fn absorbed_one(ss: Seq<SubsystemView>, m: MatchedSpec) -> bool {
    absorbed(ss, m.subsystem_id, m.entity.kind, m.entity.name)
}

/// After write-back, every matched entity is recorded wherever write-back
/// of it would put it: writing it back again changes nothing.
pub proof fn lemma_write_back_records_all(ss: Seq<SubsystemView>, ms: Seq<MatchedSpec>)
    ensures
        forall|k: int| 0 <= k < ms.len() ==> absorbed_one(wb_all(ss, ms), #[trigger] ms[k]),
    decreases ms.len(),
{
    if ms.len() > 0 {
        lemma_write_back_records_all(ss, ms.drop_last());
        let prev = wb_all(ss, ms.drop_last());
        let m = ms.last();
        let r = wb_all(ss, ms);
        lemma_wb_list_extends(prev, m.subsystem_id, m.entity.kind, m.entity.name);
        lemma_wb_list_absorbs(prev, m.subsystem_id, m.entity.kind, m.entity.name);
        assert forall|k: int| 0 <= k < ms.len() implies absorbed_one(r, #[trigger] ms[k]) by {
            if k < ms.len() - 1 {
                assert(ms[k] == ms.drop_last()[k]);
                lemma_absorbed_extends(r, prev, ms[k].subsystem_id, ms[k].entity.kind, ms[k].entity.name);
            }
        }
    }
}

proof fn lemma_wb_all_fixed(r: Seq<SubsystemView>, ms: Seq<MatchedSpec>)
    requires
        forall|k: int| 0 <= k < ms.len() ==> absorbed_one(r, #[trigger] ms[k]),
    ensures
        wb_all(r, ms) == r,
    decreases ms.len(),
{
    if ms.len() > 0 {
        assert forall|k: int| 0 <= k < ms.len() - 1 implies absorbed_one(r, #[trigger] ms.drop_last()[k]) by {
            assert(ms.drop_last()[k] == ms[k]);
        }
        lemma_wb_all_fixed(r, ms.drop_last());
        let m = ms.last();
        assert(absorbed_one(r, ms[ms.len() - 1]));
        lemma_absorbed_fixed(r, m.subsystem_id, m.entity.kind, m.entity.name);
    }
}

/// Write-back is idempotent: writing the same match result back a second
/// time leaves the manifest unchanged, so no duplicates appear.
pub proof fn lemma_write_back_idempotent(ss: Seq<SubsystemView>, ms: Seq<MatchedSpec>)
    ensures
        wb_all(wb_all(ss, ms), ms) == wb_all(ss, ms),
{
    lemma_write_back_records_all(ss, ms);
    lemma_wb_all_fixed(wb_all(ss, ms), ms);
}

/// The list that write-back records an entity of this kind in: 0 for
/// interfaces, 1 for operations, 2 for tables; 3 for kinds it does not record.
pub open spec fn list_slot(kind: EntityKind) -> int {
    match kind {
        EntityKind::Interface => 0,
        EntityKind::Method | EntityKind::Function => 1,
        EntityKind::Schema => 2,
        _ => 3,
    }
}

/// The entry write-back records for an entity: `name()` for methods and
/// functions, the bare name otherwise.
pub open spec fn entry_of(kind: EntityKind, name: Seq<char>) -> Seq<char> {
    if list_slot(kind) == 1 {
        with_parens(name)
    } else {
        name
    }
}

/// `x` is the entry of some matched entity of subsystem `id` whose kind
/// goes to list `slot`.
pub open spec fn sourced(ms: Seq<MatchedSpec>, id: Seq<char>, slot: int, x: Seq<char>) -> bool {
    exists|k: int|
        0 <= k < ms.len() && #[trigger] ms[k].subsystem_id == id && list_slot(ms[k].entity.kind) == slot
            && entry_of(ms[k].entity.kind, ms[k].entity.name) == x
}

/// `n` is `o` with entries appended, each of which was not yet in the list
/// when it was appended (neither in `o` nor among the earlier additions).
pub open spec fn fresh(o: Seq<Seq<char>>, n: Seq<Seq<char>>) -> bool {
    &&& is_prefix(o, n)
    &&& forall|i: int| #![trigger n[i]] o.len() <= i < n.len() ==> !n.take(i).contains(n[i])
}

/// Each entry appended to `o` is the entry of a matched entity of this
/// subsystem whose kind goes to list `slot`.
pub open spec fn appended_sourced(
    o: Seq<Seq<char>>,
    n: Seq<Seq<char>>,
    ms: Seq<MatchedSpec>,
    id: Seq<char>,
    slot: int,
) -> bool {
    forall|i: int| #![trigger n[i]] o.len() <= i < n.len() ==> sourced(ms, id, slot, n[i])
}

/// `n` is `o`, here and in its descendants, with only fresh entries of
/// matched entities appended to its interfaces, operations and tables.
pub open spec fn grows(n: SubsystemView, o: SubsystemView, ms: Seq<MatchedSpec>) -> bool
    decreases o,
{
    &&& n.id == o.id
    &&& fresh(o.interfaces, n.interfaces)
    &&& fresh(o.operations, n.operations)
    &&& fresh(o.tables, n.tables)
    &&& appended_sourced(o.interfaces, n.interfaces, ms, o.id, 0)
    &&& appended_sourced(o.operations, n.operations, ms, o.id, 1)
    &&& appended_sourced(o.tables, n.tables, ms, o.id, 2)
    &&& grows_list(n.children, o.children, ms)
}

/// Sibling lists growing position by position.
pub open spec fn grows_list(n: Seq<SubsystemView>, o: Seq<SubsystemView>, ms: Seq<MatchedSpec>) -> bool
    decreases o,
{
    &&& n.len() == o.len()
    &&& o.len() > 0 ==> {
        &&& grows(n[0], o[0], ms)
        &&& grows_list(n.drop_first(), o.drop_first(), ms)
    }
}

proof fn lemma_fresh_refl(v: Seq<Seq<char>>)
    ensures
        fresh(v, v),
{
    assert(v.take(v.len() as int) =~= v);
}

proof fn lemma_grows_refl(s: SubsystemView, ms: Seq<MatchedSpec>)
    ensures
        grows(s, s, ms),
    decreases s,
{
    lemma_fresh_refl(s.interfaces);
    lemma_fresh_refl(s.operations);
    lemma_fresh_refl(s.tables);
    lemma_grows_list_refl(s.children, ms);
}

proof fn lemma_grows_list_refl(ss: Seq<SubsystemView>, ms: Seq<MatchedSpec>)
    ensures
        grows_list(ss, ss, ms),
    decreases ss,
{
    if ss.len() > 0 {
        lemma_grows_refl(ss[0], ms);
        lemma_grows_list_refl(ss.drop_first(), ms);
    }
}

proof fn lemma_sourced_mono(ms: Seq<MatchedSpec>, id: Seq<char>, slot: int, x: Seq<char>, m: MatchedSpec)
    requires
        sourced(ms, id, slot, x),
    ensures
        sourced(ms.push(m), id, slot, x),
{
    let k = choose|k: int|
        0 <= k < ms.len() && #[trigger] ms[k].subsystem_id == id && list_slot(ms[k].entity.kind) == slot
            && entry_of(ms[k].entity.kind, ms[k].entity.name) == x;
    assert(ms.push(m)[k] == ms[k]);
}

proof fn lemma_appended_mono(
    o: Seq<Seq<char>>,
    n: Seq<Seq<char>>,
    ms: Seq<MatchedSpec>,
    id: Seq<char>,
    slot: int,
    m: MatchedSpec,
)
    requires
        appended_sourced(o, n, ms, id, slot),
    ensures
        appended_sourced(o, n, ms.push(m), id, slot),
{
    assert forall|i: int| #![trigger n[i]] o.len() <= i < n.len() implies sourced(ms.push(m), id, slot, n[i]) by {
        lemma_sourced_mono(ms, id, slot, n[i], m);
    }
}

proof fn lemma_grows_mono(n: SubsystemView, o: SubsystemView, ms: Seq<MatchedSpec>, m: MatchedSpec)
    requires
        grows(n, o, ms),
    ensures
        grows(n, o, ms.push(m)),
    decreases o,
{
    lemma_appended_mono(o.interfaces, n.interfaces, ms, o.id, 0, m);
    lemma_appended_mono(o.operations, n.operations, ms, o.id, 1, m);
    lemma_appended_mono(o.tables, n.tables, ms, o.id, 2, m);
    lemma_grows_list_mono(n.children, o.children, ms, m);
}

proof fn lemma_grows_list_mono(n: Seq<SubsystemView>, o: Seq<SubsystemView>, ms: Seq<MatchedSpec>, m: MatchedSpec)
    requires
        grows_list(n, o, ms),
    ensures
        grows_list(n, o, ms.push(m)),
    decreases o,
{
    if o.len() > 0 {
        lemma_grows_mono(n[0], o[0], ms, m);
        lemma_grows_list_mono(n.drop_first(), o.drop_first(), ms, m);
    }
}

proof fn lemma_fresh_trans(a: Seq<Seq<char>>, b: Seq<Seq<char>>, c: Seq<Seq<char>>)
    requires
        fresh(a, b),
        fresh(b, c),
    ensures
        fresh(a, c),
{
    lemma_prefix_trans(a, b, c);
    assert forall|i: int| #![trigger c[i]] a.len() <= i < c.len() implies !c.take(i).contains(c[i]) by {
        if i < b.len() {
            assert(c.take(b.len() as int) == b);
            assert(c[i] == b[i]);
            assert(c.take(i) =~= b.take(i));
        }
    }
}

proof fn lemma_appended_trans(
    a: Seq<Seq<char>>,
    b: Seq<Seq<char>>,
    c: Seq<Seq<char>>,
    ms: Seq<MatchedSpec>,
    id: Seq<char>,
    slot: int,
)
    requires
        is_prefix(a, b),
        is_prefix(b, c),
        appended_sourced(a, b, ms, id, slot),
        appended_sourced(b, c, ms, id, slot),
    ensures
        appended_sourced(a, c, ms, id, slot),
{
    assert forall|i: int| #![trigger c[i]] a.len() <= i < c.len() implies sourced(ms, id, slot, c[i]) by {
        if i < b.len() {
            assert(c.take(b.len() as int) == b);
            assert(c[i] == b[i]);
        }
    }
}

proof fn lemma_grows_trans(a: SubsystemView, b: SubsystemView, c: SubsystemView, ms: Seq<MatchedSpec>)
    requires
        grows(b, a, ms),
        grows(c, b, ms),
    ensures
        grows(c, a, ms),
    decreases a,
{
    lemma_fresh_trans(a.interfaces, b.interfaces, c.interfaces);
    lemma_fresh_trans(a.operations, b.operations, c.operations);
    lemma_fresh_trans(a.tables, b.tables, c.tables);
    lemma_appended_trans(a.interfaces, b.interfaces, c.interfaces, ms, a.id, 0);
    lemma_appended_trans(a.operations, b.operations, c.operations, ms, a.id, 1);
    lemma_appended_trans(a.tables, b.tables, c.tables, ms, a.id, 2);
    lemma_grows_list_trans(a.children, b.children, c.children, ms);
}

proof fn lemma_grows_list_trans(
    a: Seq<SubsystemView>,
    b: Seq<SubsystemView>,
    c: Seq<SubsystemView>,
    ms: Seq<MatchedSpec>,
)
    requires
        grows_list(b, a, ms),
        grows_list(c, b, ms),
    ensures
        grows_list(c, a, ms),
    decreases a,
{
    if a.len() > 0 {
        lemma_grows_trans(a[0], b[0], c[0], ms);
        lemma_grows_list_trans(a.drop_first(), b.drop_first(), c.drop_first(), ms);
    }
}

proof fn lemma_add_unique_fresh(v: Seq<Seq<char>>, x: Seq<char>, ms: Seq<MatchedSpec>, id: Seq<char>, slot: int)
    requires
        !v.contains(x) ==> sourced(ms, id, slot, x),
    ensures
        fresh(v, add_unique(v, x)),
        appended_sourced(v, add_unique(v, x), ms, id, slot),
{
    lemma_add_unique_prefix(v, x);
    lemma_fresh_refl(v);
    if !v.contains(x) {
        let n = add_unique(v, x);
        assert(n.take(v.len() as int) =~= v);
    }
}

proof fn lemma_add_entity_grows(s: SubsystemView, ms: Seq<MatchedSpec>, k: int)
    requires
        0 <= k < ms.len(),
        ms[k].subsystem_id == s.id,
    ensures
        grows(add_entity(s, ms[k].entity.kind, ms[k].entity.name), s, ms),
{
    let kind = ms[k].entity.kind;
    let name = ms[k].entity.name;
    lemma_grows_refl(s, ms);
    match kind {
        EntityKind::Interface => {
            assert(sourced(ms, s.id, 0, name));
            lemma_add_unique_fresh(s.interfaces, name, ms, s.id, 0);
        },
        EntityKind::Method | EntityKind::Function => {
            assert(sourced(ms, s.id, 1, with_parens(name)));
            lemma_add_unique_fresh(s.operations, with_parens(name), ms, s.id, 1);
        },
        EntityKind::Schema => {
            assert(sourced(ms, s.id, 2, name));
            lemma_add_unique_fresh(s.tables, name, ms, s.id, 2);
        },
        _ => {},
    }
}

proof fn lemma_wb_list_grows(ss: Seq<SubsystemView>, ms: Seq<MatchedSpec>, k: int)
    requires
        0 <= k < ms.len(),
    ensures
        grows_list(wb_list(ss, ms[k].subsystem_id, ms[k].entity.kind, ms[k].entity.name), ss, ms),
    decreases ss,
{
    let id = ms[k].subsystem_id;
    let kind = ms[k].entity.kind;
    let name = ms[k].entity.name;
    if ss.len() > 0 {
        let r = wb_list(ss, id, kind, name);
        if ss[0].id == id {
            lemma_add_entity_grows(ss[0], ms, k);
            assert(r.drop_first() =~= ss.drop_first());
            lemma_grows_list_refl(ss.drop_first(), ms);
        } else {
            assert(decreases_to!(ss => ss[0]));
            lemma_wb_list_grows(ss[0].children, ms, k);
            lemma_wb_list_grows(ss.drop_first(), ms, k);
            let d = descended(ss[0], id, kind, name);
            lemma_fresh_refl(d.interfaces);
            lemma_fresh_refl(d.operations);
            lemma_fresh_refl(d.tables);
            assert(r[0] == d);
            assert(grows(d, ss[0], ms));
            assert(r.drop_first() =~= wb_list(ss.drop_first(), id, kind, name));
        }
    }
}

/// Write-back appends only what a list lacked: whatever the manifest and
/// the matched entities, every entry appended to a subsystem's interfaces,
/// operations or tables (at any depth) is the name of an entity matched to
/// that very subsystem, of the kind that list records (interfaces:
/// `name`; methods and functions, in operations: `name()`; schemas, in
/// tables: `name`), and it was in that list neither before write-back nor
/// among the entries appended ahead of it. With `lemma_write_back_additive`,
/// nothing else changes.
pub proof fn lemma_write_back_gains_only(ss: Seq<SubsystemView>, ms: Seq<MatchedSpec>)
    ensures
        grows_list(wb_all(ss, ms), ss, ms),
    decreases ms.len(),
{
    if ms.len() == 0 {
        lemma_grows_list_refl(ss, ms);
    } else {
        let init = ms.drop_last();
        lemma_write_back_gains_only(ss, init);
        let prev = wb_all(ss, init);
        assert(init.push(ms.last()) =~= ms);
        lemma_grows_list_mono(prev, ss, init, ms.last());
        lemma_wb_list_grows(prev, ms, ms.len() - 1);
        lemma_grows_list_trans(ss, prev, wb_all(ss, ms), ms);
    }
}

} // verus!
