//! Matching extracted entities onto the subsystems of a manifest.
//!
//! The manifest tree is flattened depth-first. An entity goes to the
//! subsystem whose resolved `filePath` covers its file (a component prefix,
//! or a glob match when the path holds glob metacharacters); among several,
//! the one whose path has the most components wins, the first one on a tie.
//! Without a path match, the first subsystem that lists the entity's name
//! (as an interface, an operation with or without `()`, a table for a
//! schema, or an event) takes it. Otherwise the entity is unmatched, with
//! the sorted, duplicate-free ids of the subsystems whose id or name
//! overlaps its name case-insensitively.

use vstd::prelude::*;
use vstd::multiset::Multiset;
use crate::glob::{glob_check, glob_error, glob_is_match, glob_match};
use crate::index::{all_summaries, summaries_view, SummarySpec};
use crate::ir::{
    EntityKind, EntitySummary, FilterParams, MatchResult, MatchStrategy, MatchedEntity, ScanIndex,
    UnmatchedEntity,
};
use crate::manifest::{
    flatten_list, flatten_manifest, flatten_sub, lemma_subs_view_take, spec_is_glob_pattern,
    is_glob_pattern, strings_contain, copy_strings, strs, subs_view, Manifest, ManifestSubsystem,
    SubsystemView,
};
use crate::path::{components, join, path_component_count, path_join, path_starts_with, starts_with};
use crate::text::{
    contains_seq, copy_string, insert_sorted_unique, lowercase, str_contains, strictly_sorted,
    to_lowercase,
};

verus! {

// ---------------------------------------------------------------------------
// Flattened subsystems
// ---------------------------------------------------------------------------

/// The part of a subsystem that matching reads.
pub struct FlatView {
    pub id: Seq<char>,
    pub name: Seq<char>,
    pub file_path: Seq<char>,
    pub interfaces: Seq<Seq<char>>,
    pub operations: Seq<Seq<char>>,
    pub tables: Seq<Seq<char>>,
    pub events: Seq<Seq<char>>,
}

pub open spec fn flat_of(s: SubsystemView) -> FlatView {
    FlatView {
        id: s.id,
        name: s.name,
        file_path: s.file_path,
        interfaces: s.interfaces,
        operations: s.operations,
        tables: s.tables,
        events: s.events,
    }
}

pub open spec fn flat_views_of(ss: Seq<SubsystemView>) -> Seq<FlatView> {
    ss.map_values(|s: SubsystemView| flat_of(s))
}

/// The flattened manifest as matching sees it.
pub open spec fn manifest_flat(m: Manifest) -> Seq<FlatView> {
    flat_views_of(flatten_manifest(m))
}

/// A subsystem flattened for matching.
pub struct FlatSubsystem {
    pub id: String,
    pub name: String,
    pub file_path: String,
    pub interfaces: Vec<String>,
    pub operations: Vec<String>,
    pub tables: Vec<String>,
    pub events: Vec<String>,
}

impl View for FlatSubsystem {
    type V = FlatView;

    open spec fn view(&self) -> FlatView {
        FlatView {
            id: self.id@,
            name: self.name@,
            file_path: self.file_path@,
            interfaces: strs(self.interfaces@),
            operations: strs(self.operations@),
            tables: strs(self.tables@),
            events: strs(self.events@),
        }
    }
}

pub open spec fn flats_view(v: Seq<FlatSubsystem>) -> Seq<FlatView> {
    v.map_values(|f: FlatSubsystem| f@)
}

pub proof fn lemma_flat_views_append(a: Seq<SubsystemView>, b: Seq<SubsystemView>)
    ensures
        flat_views_of(a + b) == flat_views_of(a) + flat_views_of(b),
{
    assert(flat_views_of(a + b) =~= flat_views_of(a) + flat_views_of(b));
}

fn flatten_node(s: &ManifestSubsystem, out: &mut Vec<FlatSubsystem>)
    ensures
        flats_view(final(out)@) == flats_view(old(out)@) + flat_views_of(flatten_sub(s@)),
    decreases *s,
{
    let ghost before = flats_view(out@);
    out.push(
        FlatSubsystem {
            id: copy_string(&s.id),
            name: copy_string(&s.name),
            file_path: copy_string(&s.file_path),
            interfaces: copy_strings(&s.interfaces),
            operations: copy_strings(&s.operations),
            tables: copy_strings(&s.tables),
            events: copy_strings(&s.events),
        },
    );
    assert(flats_view(out@) =~= before + flat_views_of(seq![s@]));
    flatten_children(&s.children, out);
    proof {
        lemma_flat_views_append(seq![s@], flatten_list(s@.children));
        assert(flats_view(out@) =~= flats_view(old(out)@) + flat_views_of(flatten_sub(s@)));
    }
}

fn flatten_children(subs: &Vec<ManifestSubsystem>, out: &mut Vec<FlatSubsystem>)
    ensures
        flats_view(final(out)@) == flats_view(old(out)@) + flat_views_of(
            flatten_list(subs_view(subs@)),
        ),
    decreases subs@,
{
    let mut i: usize = 0;
    proof {
        assert(subs_view(subs@.take(0)) =~= Seq::<SubsystemView>::empty());
        assert(flats_view(out@) =~= flats_view(old(out)@) + flat_views_of(
            flatten_list(subs_view(subs@.take(0))),
        ));
    }
    while i < subs.len()
        invariant
            i <= subs.len(),
            flats_view(out@) == flats_view(old(out)@) + flat_views_of(
                flatten_list(subs_view(subs@.take(i as int))),
            ),
        decreases subs.len() - i,
    {
        assert(decreases_to!(subs@ => subs@[i as int]));
        flatten_node(&subs[i], out);
        proof {
            lemma_subs_view_take(subs@, i as int);
            let prefix = subs_view(subs@.take(i as int));
            let next = subs_view(subs@.take(i + 1 as int));
            assert(next.drop_last() =~= prefix);
            assert(next.last() == subs@[i as int]@);
            lemma_flat_views_append(flatten_list(prefix), flatten_sub(subs@[i as int]@));
            assert(flats_view(out@) =~= flats_view(old(out)@) + flat_views_of(
                flatten_list(next),
            ));
        }
        i += 1;
    }
    assert(subs@.take(subs.len() as int) =~= subs@);
}

/// The manifest tree flattened depth-first.
pub fn flatten(manifest: &Manifest) -> (r: Vec<FlatSubsystem>)
    ensures
        flats_view(r@) == manifest_flat(*manifest),
{
    let mut out: Vec<FlatSubsystem> = Vec::new();
    flatten_children(&manifest.subsystems, &mut out);
    assert(flats_view(out@) =~= manifest_flat(*manifest));
    out
}

// ---------------------------------------------------------------------------
// Path matching
// ---------------------------------------------------------------------------

/// A subsystem's `filePath` resolved against the scan root.
pub open spec fn resolved_path(root: Seq<char>, fp: Seq<char>) -> Seq<char> {
    join(root, fp)
}

/// Whether the subsystem's resolved path covers `file`.
pub open spec fn path_covers(root: Seq<char>, s: FlatView, file: Seq<char>) -> bool {
    let r = resolved_path(root, s.file_path);
    if spec_is_glob_pattern(r) {
        glob_error(r) is None && glob_match(r, file)
    } else {
        starts_with(file, r)
    }
}

/// How specific a subsystem's path is: its number of components.
pub open spec fn specificity(root: Seq<char>, s: FlatView) -> int {
    components(resolved_path(root, s.file_path)).len() as int
}

/// The index of the most specific subsystem whose path covers `file`; the
/// first such on a tie.
pub open spec fn best_path_index(root: Seq<char>, flat: Seq<FlatView>, file: Seq<char>) -> Option<
    int,
>
    decreases flat.len(),
{
    if flat.len() == 0 {
        None
    } else {
        let prev = best_path_index(root, flat.drop_last(), file);
        let i = flat.len() - 1;
        if path_covers(root, flat.last(), file) {
            match prev {
                None => Some(i),
                Some(j) => if specificity(root, flat.last()) > specificity(root, flat[j]) {
                    Some(i)
                } else {
                    Some(j)
                },
            }
        } else {
            prev
        }
    }
}

pub proof fn lemma_best_path_index_bound(root: Seq<char>, flat: Seq<FlatView>, file: Seq<char>)
    ensures
        best_path_index(root, flat, file) matches Some(j) ==> 0 <= j < flat.len() && path_covers(
            root,
            flat[j],
            file,
        ),
    decreases flat.len(),
{
    if flat.len() > 0 {
        lemma_best_path_index_bound(root, flat.drop_last(), file);
    }
}

fn covers(root: &str, s: &FlatSubsystem, file: &str) -> (r: bool)
    ensures
        r == path_covers(root@, s@, file@),
{
    let resolved = path_join(root, s.file_path.as_str());
    if is_glob_pattern(resolved.as_str()) {
        match glob_check(resolved.as_str()) {
            Ok(()) => glob_is_match(resolved.as_str(), file),
            Err(_) => false,
        }
    } else {
        path_starts_with(file, resolved.as_str())
    }
}

fn specificity_of(root: &str, s: &FlatSubsystem) -> (n: usize)
    ensures
        n == specificity(root@, s@),
{
    let resolved = path_join(root, s.file_path.as_str());
    path_component_count(resolved.as_str())
}

// ---------------------------------------------------------------------------
// Name matching
// ---------------------------------------------------------------------------

/// `name()`: the operation form of a name.
pub open spec fn with_parens(name: Seq<char>) -> Seq<char> {
    name + seq!['(', ')']
}

/// Whether a subsystem lists the entity's name.
pub open spec fn names_entity(s: FlatView, name: Seq<char>, kind: EntityKind) -> bool {
    ||| s.interfaces.contains(name)
    ||| s.operations.contains(with_parens(name))
    ||| s.operations.contains(name)
    ||| (kind == EntityKind::Schema && s.tables.contains(name))
    ||| s.events.contains(name)
}

/// The index of the first subsystem that lists the entity's name.
pub open spec fn first_name_index(flat: Seq<FlatView>, name: Seq<char>, kind: EntityKind) -> Option<
    int,
>
    decreases flat.len(),
{
    if flat.len() == 0 {
        None
    } else if names_entity(flat[0], name, kind) {
        Some(0)
    } else {
        match first_name_index(flat.drop_first(), name, kind) {
            None => None,
            Some(j) => Some(j + 1),
        }
    }
}

pub proof fn lemma_first_name_index(flat: Seq<FlatView>, name: Seq<char>, kind: EntityKind)
    ensures
        match first_name_index(flat, name, kind) {
            None => forall|k: int| 0 <= k < flat.len() ==> !names_entity(#[trigger] flat[k], name, kind),
            Some(j) => 0 <= j < flat.len() && names_entity(flat[j], name, kind) && forall|k: int|
                0 <= k < j ==> !names_entity(#[trigger] flat[k], name, kind),
        },
    decreases flat.len(),
{
    if flat.len() > 0 && !names_entity(flat[0], name, kind) {
        lemma_first_name_index(flat.drop_first(), name, kind);
        assert forall|k: int| 1 <= k < flat.len() implies flat[k] == flat.drop_first()[k - 1] by {}
    }
}

/// Where an entity goes: the subsystem's id and name and how it was found.
pub open spec fn spec_find_match(e: SummarySpec, flat: Seq<FlatView>, root: Seq<char>) -> Option<
    (Seq<char>, Seq<char>, MatchStrategy),
> {
    match best_path_index(root, flat, e.file) {
        Some(j) => Some((flat[j].id, flat[j].name, MatchStrategy::FilePath)),
        None => match first_name_index(flat, e.name, e.kind) {
            Some(j) => Some((flat[j].id, flat[j].name, MatchStrategy::NameMatch)),
            None => None,
        },
    }
}

fn names_entity_exec(s: &FlatSubsystem, name: &String, kind: EntityKind) -> (r: bool)
    ensures
        r == names_entity(s@, name@, kind),
{
    let mut op = copy_string(name);
    op.push('(');
    op.push(')');
    assert(op@ =~= with_parens(name@));
    strings_contain(&s.interfaces, name) || strings_contain(&s.operations, &op) || strings_contain(
        &s.operations,
        name,
    ) || (kind == EntityKind::Schema && strings_contain(&s.tables, name)) || strings_contain(
        &s.events,
        name,
    )
}

/// Finds the subsystem an entity belongs to.
pub fn find_match(entity: &EntitySummary, flat: &Vec<FlatSubsystem>, scan_root: &str) -> (r: Option<
    (String, String, MatchStrategy),
>)
    ensures
        match r {
            None => spec_find_match(entity@, flats_view(flat@), scan_root@) is None,
            Some((id, name, st)) => spec_find_match(entity@, flats_view(flat@), scan_root@)
                == Some((id@, name@, st)),
        },
{
    let ghost fv = flats_view(flat@);
    let mut best: Option<usize> = None;
    let mut best_spec: usize = 0;
    let mut i: usize = 0;
    while i < flat.len()
        invariant
            i <= flat.len(),
            fv == flats_view(flat@),
            best == match best_path_index(scan_root@, fv.take(i as int), entity.file@) {
                None => None::<usize>,
                Some(j) => Some(j as usize),
            },
            best_path_index(scan_root@, fv.take(i as int), entity.file@) matches Some(j) ==> 0 <= j
                < i && best_spec == specificity(scan_root@, fv[j]),
        decreases flat.len() - i,
    {
        proof {
            assert(fv.take(i + 1 as int).drop_last() =~= fv.take(i as int));
            assert(fv.take(i + 1 as int).last() == flat@[i as int]@);
            lemma_best_path_index_bound(scan_root@, fv.take(i as int), entity.file@);
        }
        if covers(scan_root, &flat[i], entity.file.as_str()) {
            let s = specificity_of(scan_root, &flat[i]);
            match best {
                None => {
                    best = Some(i);
                    best_spec = s;
                },
                Some(j) => {
                    assert(fv.take(i as int)[j as int] == fv[j as int]);
                    if s > best_spec {
                        best = Some(i);
                        best_spec = s;
                    }
                },
            }
        }
        i += 1;
    }
    assert(fv.take(flat.len() as int) =~= fv);
    if let Some(j) = best {
        return Some((copy_string(&flat[j].id), copy_string(&flat[j].name), MatchStrategy::FilePath));
    }
    let mut k: usize = 0;
    while k < flat.len()
        invariant
            k <= flat.len(),
            fv == flats_view(flat@),
            best_path_index(scan_root@, fv, entity.file@) is None,
            forall|q: int| 0 <= q < k ==> !names_entity(#[trigger] fv[q], entity.name@, entity.kind),
        decreases flat.len() - k,
    {
        if names_entity_exec(&flat[k], &entity.name, entity.kind) {
            proof {
                lemma_first_name_index(fv, entity.name@, entity.kind);
                assert(fv[k as int] == flat@[k as int]@);
                assert(first_name_index(fv, entity.name@, entity.kind) == Some(k as int));
            }
            return Some((copy_string(&flat[k].id), copy_string(&flat[k].name), MatchStrategy::NameMatch));
        }
        k += 1;
    }
    proof {
        lemma_first_name_index(fv, entity.name@, entity.kind);
    }
    None
}

// ---------------------------------------------------------------------------
// Candidates for unmatched entities
// ---------------------------------------------------------------------------

/// Whether a subsystem is a plausible home for an entity: its id or name
/// and the entity's name contain one another, ignoring case.
pub open spec fn candidate_cond(name: Seq<char>, s: FlatView) -> bool {
    let en = lowercase(name);
    let il = lowercase(s.id);
    let nl = lowercase(s.name);
    contains_seq(en, il) || contains_seq(il, en) || contains_seq(en, nl) || contains_seq(nl, en)
}

/// The ids of the plausible homes among the first `n` subsystems.
pub open spec fn candidate_ids_upto(name: Seq<char>, flat: Seq<FlatView>, n: int) -> Set<Seq<char>> {
    Set::new(
        |id: Seq<char>|
            exists|i: int| 0 <= i < n && #[trigger] candidate_cond(name, flat[i]) && flat[i].id == id,
    )
}

/// The ids of all plausible homes of an entity named `name`.
pub open spec fn candidate_ids(name: Seq<char>, flat: Seq<FlatView>) -> Set<Seq<char>> {
    candidate_ids_upto(name, flat, flat.len() as int)
}

/// The ids of the subsystems an unmatched entity might belong to, sorted
/// and without duplicates.
pub fn find_candidate_subsystems(entity: &EntitySummary, flat: &Vec<FlatSubsystem>) -> (r: Vec<
    String,
>)
    ensures
        strictly_sorted(strs(r@)),
        strs(r@).to_set() == candidate_ids(entity.name@, flats_view(flat@)),
{
    let ghost fv = flats_view(flat@);
    let en = to_lowercase(entity.name.as_str());
    let mut out: Vec<String> = Vec::new();
    let mut i: usize = 0;
    proof {
        assert(strs(out@).to_set() =~= candidate_ids_upto(entity.name@, fv, 0));
    }
    while i < flat.len()
        invariant
            i <= flat.len(),
            fv == flats_view(flat@),
            en@ == lowercase(entity.name@),
            strictly_sorted(strs(out@)),
            strs(out@).to_set() == candidate_ids_upto(entity.name@, fv, i as int),
        decreases flat.len() - i,
    {
        let sub = &flat[i];
        assert(fv[i as int] == sub@);
        let il = to_lowercase(sub.id.as_str());
        let nl = to_lowercase(sub.name.as_str());
        let hit = str_contains(en.as_str(), il.as_str()) || str_contains(il.as_str(), en.as_str())
            || str_contains(en.as_str(), nl.as_str()) || str_contains(nl.as_str(), en.as_str());
        let ghost before = strs(out@).to_set();
        if hit {
            assert(candidate_cond(entity.name@, fv[i as int]));
            insert_sorted_unique(&mut out, copy_string(&sub.id));
            let ghost nxt = candidate_ids_upto(entity.name@, fv, i + 1 as int);
            assert forall|id: Seq<char>| nxt.contains(id) <==> before.insert(sub.id@).contains(id) by {
                if nxt.contains(id) {
                    let w = choose|w: int|
                        0 <= w < i + 1 && #[trigger] candidate_cond(entity.name@, fv[w]) && fv[w].id
                            == id;
                    if w < i {
                        assert(candidate_ids_upto(entity.name@, fv, i as int).contains(id));
                    }
                }
                if before.contains(id) {
                    let w = choose|w: int|
                        0 <= w < i && #[trigger] candidate_cond(entity.name@, fv[w]) && fv[w].id == id;
                    assert(nxt.contains(id));
                }
            }
            assert(nxt =~= before.insert(sub.id@));
        } else {
            assert(candidate_ids_upto(entity.name@, fv, i + 1 as int) =~= before);
        }
        i += 1;
    }
    out
}

// ---------------------------------------------------------------------------
// Matching all entities
// ---------------------------------------------------------------------------

/// A filter that lets everything through.
pub open spec fn no_filter() -> FilterParams {
    FilterParams { languages: None, name_pattern: None, kind: None, build_status: None, visibility: None }
}

/// The content of a matched entity.
pub struct MatchedSpec {
    pub entity: SummarySpec,
    pub subsystem_id: Seq<char>,
    pub subsystem_name: Seq<char>,
    pub match_strategy: MatchStrategy,
}

impl View for MatchedEntity {
    type V = MatchedSpec;

    open spec fn view(&self) -> MatchedSpec {
        MatchedSpec {
            entity: self.entity@,
            subsystem_id: self.subsystem_id@,
            subsystem_name: self.subsystem_name@,
            match_strategy: self.match_strategy,
        }
    }
}

pub open spec fn matched_view(v: Seq<MatchedEntity>) -> Seq<MatchedSpec> {
    v.map_values(|m: MatchedEntity| m@)
}

pub open spec fn unmatched_entities(v: Seq<UnmatchedEntity>) -> Seq<SummarySpec> {
    v.map_values(|u: UnmatchedEntity| u.entity@)
}

/// The matched entities, in order, with where each went.
pub open spec fn matched_of(es: Seq<SummarySpec>, flat: Seq<FlatView>, root: Seq<char>) -> Seq<
    MatchedSpec,
>
    decreases es.len(),
{
    if es.len() == 0 {
        Seq::empty()
    } else {
        let prev = matched_of(es.drop_last(), flat, root);
        match spec_find_match(es.last(), flat, root) {
            Some((id, name, st)) => prev.push(
                MatchedSpec { entity: es.last(), subsystem_id: id, subsystem_name: name, match_strategy: st },
            ),
            None => prev,
        }
    }
}

/// The entities no subsystem takes, in order.
pub open spec fn unmatched_of(es: Seq<SummarySpec>, flat: Seq<FlatView>, root: Seq<char>) -> Seq<
    SummarySpec,
>
    decreases es.len(),
{
    if es.len() == 0 {
        Seq::empty()
    } else {
        let prev = unmatched_of(es.drop_last(), flat, root);
        match spec_find_match(es.last(), flat, root) {
            Some(_) => prev,
            None => prev.push(es.last()),
        }
    }
}

/// The entities of an index that matching considers: all of them.
pub open spec fn index_entities(index: ScanIndex) -> Seq<SummarySpec> {
    all_summaries(index.files@, no_filter())
}

/// The entities of a list of matched entities, in order.
pub open spec fn entities_of(ms: Seq<MatchedSpec>) -> Seq<SummarySpec> {
    ms.map_values(|m: MatchedSpec| m.entity)
}

/// Matching partitions the entities: every entity lands in exactly one of
/// the two buckets (as multisets, the matched entities and the unmatched
/// ones together are the entities, so the counts add up), each matched
/// entity went where `find_match` sends it, and each unmatched entity is
/// one `find_match` sends nowhere.
pub proof fn lemma_buckets_partition(es: Seq<SummarySpec>, flat: Seq<FlatView>, root: Seq<char>)
    ensures
        matched_of(es, flat, root).len() + unmatched_of(es, flat, root).len() == es.len(),
        entities_of(matched_of(es, flat, root)).to_multiset().add(
            unmatched_of(es, flat, root).to_multiset(),
        ) == es.to_multiset(),
        forall|k: int|
            0 <= k < matched_of(es, flat, root).len() ==> {
                let m = #[trigger] matched_of(es, flat, root)[k];
                spec_find_match(m.entity, flat, root) == Some(
                    (m.subsystem_id, m.subsystem_name, m.match_strategy),
                )
            },
        forall|k: int|
            0 <= k < unmatched_of(es, flat, root).len() ==> spec_find_match(
                #[trigger] unmatched_of(es, flat, root)[k],
                flat,
                root,
            ) is None,
    decreases es.len(),
{
    broadcast use vstd::seq_lib::group_seq_properties;
    broadcast use vstd::multiset::group_multiset_axioms;

    if es.len() == 0 {
        assert(entities_of(matched_of(es, flat, root)) =~= Seq::<SummarySpec>::empty());
        assert(es.to_multiset() =~= Multiset::<SummarySpec>::empty());
        assert(entities_of(matched_of(es, flat, root)).to_multiset() =~= Multiset::<SummarySpec>::empty());
        assert(unmatched_of(es, flat, root).to_multiset() =~= Multiset::<SummarySpec>::empty());
        assert(Multiset::<SummarySpec>::empty().add(Multiset::<SummarySpec>::empty()) =~= Multiset::<SummarySpec>::empty());
    } else {
        let init = es.drop_last();
        let e = es.last();
        lemma_buckets_partition(init, flat, root);
        assert(init.push(e) =~= es);
        let pm = matched_of(init, flat, root);
        let pu = unmatched_of(init, flat, root);
        match spec_find_match(e, flat, root) {
            Some((id, name, st)) => {
                let m = MatchedSpec { entity: e, subsystem_id: id, subsystem_name: name, match_strategy: st };
                assert(matched_of(es, flat, root) == pm.push(m));
                assert(entities_of(pm.push(m)) =~= entities_of(pm).push(e));
                assert(entities_of(pm).push(e).to_multiset() =~= entities_of(pm).to_multiset().insert(e));
                assert(entities_of(pm).to_multiset().insert(e).add(pu.to_multiset()) =~= entities_of(
                    pm,
                ).to_multiset().add(pu.to_multiset()).insert(e));
            },
            None => {
                assert(unmatched_of(es, flat, root) == pu.push(e));
                assert(pu.push(e).to_multiset() =~= pu.to_multiset().insert(e));
                assert(entities_of(pm).to_multiset().add(pu.to_multiset().insert(e)) =~= entities_of(
                    pm,
                ).to_multiset().add(pu.to_multiset()).insert(e));
            },
        }
    }
}

fn copy_summary(e: &EntitySummary) -> (r: EntitySummary)
    ensures
        r@ == e@,
{
    EntitySummary {
        name: copy_string(&e.name),
        kind: e.kind,
        file: copy_string(&e.file),
        line: e.line,
        language: e.language,
        build_status: e.build_status,
        confidence: e.confidence,
    }
}

/// Match all entities of an index against a manifest: each entity either
/// goes to the subsystem `find_match` picks, or is unmatched with its
/// candidate subsystems. The order of the entities is kept in both lists.
pub fn match_entities(index: &ScanIndex, manifest: &Manifest) -> (r: MatchResult)
    ensures
        r.total_entities == index_entities(*index).len(),
        r.total_entities == r.matched@.len() + r.unmatched@.len(),
        matched_view(r.matched@) == matched_of(
            index_entities(*index),
            manifest_flat(*manifest),
            index.root@,
        ),
        unmatched_entities(r.unmatched@) == unmatched_of(
            index_entities(*index),
            manifest_flat(*manifest),
            index.root@,
        ),
        forall|k: int|
            0 <= k < r.unmatched@.len() ==> {
                let u = #[trigger] r.unmatched@[k];
                &&& strictly_sorted(strs(u.candidate_subsystems@))
                &&& strs(u.candidate_subsystems@).to_set() == candidate_ids(
                    u.entity.name@,
                    manifest_flat(*manifest),
                )
            },
{
    let flat = flatten(manifest);
    let filter = FilterParams {
        languages: None,
        name_pattern: None,
        kind: None,
        build_status: None,
        visibility: None,
    };
    let summaries = index.get_entity_summaries(&filter);
    let ghost es = summaries_view(summaries@);
    let ghost fv = flats_view(flat@);
    let total_entities = summaries.len();
    let mut matched: Vec<MatchedEntity> = Vec::new();
    let mut unmatched: Vec<UnmatchedEntity> = Vec::new();
    let mut i: usize = 0;
    while i < summaries.len()
        invariant
            i <= summaries.len(),
            es == summaries_view(summaries@),
            fv == flats_view(flat@),
            fv == manifest_flat(*manifest),
            matched_view(matched@) == matched_of(es.take(i as int), fv, index.root@),
            unmatched_entities(unmatched@) == unmatched_of(es.take(i as int), fv, index.root@),
            forall|k: int|
                0 <= k < unmatched@.len() ==> {
                    let u = #[trigger] unmatched@[k];
                    &&& strictly_sorted(strs(u.candidate_subsystems@))
                    &&& strs(u.candidate_subsystems@).to_set() == candidate_ids(u.entity.name@, fv)
                },
        decreases summaries.len() - i,
    {
        let e = &summaries[i];
        proof {
            assert(es.take(i + 1 as int).drop_last() =~= es.take(i as int));
            assert(es.take(i + 1 as int).last() == e@);
        }
        let ghost mv = matched_view(matched@);
        let ghost uv = unmatched_entities(unmatched@);
        match find_match(e, &flat, index.root.as_str()) {
            Some((id, name, st)) => {
                matched.push(
                    MatchedEntity {
                        entity: copy_summary(e),
                        subsystem_id: id,
                        subsystem_name: name,
                        match_strategy: st,
                    },
                );
                assert(matched_view(matched@) =~= mv.push(matched_view(matched@).last()));
                assert(unmatched_entities(unmatched@) =~= uv);
            },
            None => {
                let candidates = find_candidate_subsystems(e, &flat);
                unmatched.push(UnmatchedEntity { entity: copy_summary(e), candidate_subsystems: candidates });
                assert(unmatched_entities(unmatched@) =~= uv.push(e@));
                assert(matched_view(matched@) =~= mv);
            },
        }
        i += 1;
    }
    assert(es.take(summaries.len() as int) =~= es);
    proof {
        lemma_buckets_partition(es, fv, index.root@);
    }
    MatchResult { matched, unmatched, total_entities }
}

/// No subsystem's file path covers `file` exactly when path matching finds
/// nothing.
proof fn lemma_best_path_none(root: Seq<char>, flat: Seq<FlatView>, file: Seq<char>)
    ensures
        best_path_index(root, flat, file) is None <==> forall|k: int|
            0 <= k < flat.len() ==> !path_covers(root, #[trigger] flat[k], file),
    decreases flat.len(),
{
    if flat.len() > 0 {
        lemma_best_path_none(root, flat.drop_last(), file);
        if best_path_index(root, flat, file) is None {
            assert forall|k: int| 0 <= k < flat.len() implies !path_covers(root, #[trigger] flat[k], file) by {
                if k < flat.len() - 1 {
                    assert(flat[k] == flat.drop_last()[k]);
                }
            }
        } else {
            if !path_covers(root, flat.last(), file) {
                let k = choose|k: int| 0 <= k < flat.drop_last().len() && path_covers(root, #[trigger] flat.drop_last()[k], file);
                assert(flat[k] == flat.drop_last()[k]);
            }
        }
    }
}

/// Matching by name: when no subsystem's file path covers the entity's
/// file, and subsystem `j` lists the entity (its name among the
/// interfaces, `name()` or the bare name among the operations, the name
/// among the events, or, for a schema, among the tables), the entity is
/// matched by name to subsystem `j` or to an earlier one.
pub proof fn lemma_found_by_name(e: SummarySpec, flat: Seq<FlatView>, root: Seq<char>, j: int)
    requires
        0 <= j < flat.len(),
        forall|k: int| 0 <= k < flat.len() ==> !path_covers(root, #[trigger] flat[k], e.file),
        flat[j].interfaces.contains(e.name) || flat[j].operations.contains(e.name + seq!['(', ')'])
            || flat[j].operations.contains(e.name) || flat[j].events.contains(e.name) || (e.kind
            == EntityKind::Schema && flat[j].tables.contains(e.name)),
    ensures
        exists|i: int|
            0 <= i <= j && spec_find_match(e, flat, root) == Some(
                (flat[i].id, flat[i].name, MatchStrategy::NameMatch),
            ),
{
    lemma_best_path_none(root, flat, e.file);
    lemma_first_name_index(flat, e.name, e.kind);
    assert(with_parens(e.name) == e.name + seq!['(', ')']);
    assert(names_entity(flat[j], e.name, e.kind));
    let i = first_name_index(flat, e.name, e.kind)->0;
    assert(spec_find_match(e, flat, root) == Some((flat[i].id, flat[i].name, MatchStrategy::NameMatch)));
}

/// A match by name is sound and goes to the first subsystem that lists
/// the entity: no subsystem's file path covers the entity's file, the
/// subsystem it went to lists the entity (as in `lemma_found_by_name`),
/// and no earlier subsystem does.
pub proof fn lemma_name_match_sound(e: SummarySpec, flat: Seq<FlatView>, root: Seq<char>)
    requires
        spec_find_match(e, flat, root) matches Some((_, _, st)) && st == MatchStrategy::NameMatch,
    ensures
        forall|k: int| 0 <= k < flat.len() ==> !path_covers(root, #[trigger] flat[k], e.file),
        exists|i: int|
            0 <= i < flat.len() && spec_find_match(e, flat, root) == Some(
                (flat[i].id, flat[i].name, MatchStrategy::NameMatch),
            ) && (flat[i].interfaces.contains(e.name) || flat[i].operations.contains(e.name + seq!['(', ')'])
            || flat[i].operations.contains(e.name) || flat[i].events.contains(e.name) || (e.kind
            == EntityKind::Schema && flat[i].tables.contains(e.name))) && forall|k: int|
                0 <= k < i ==> !(flat[k].interfaces.contains(e.name) || flat[k].operations.contains(e.name + seq!['(', ')'])
            || flat[k].operations.contains(e.name) || flat[k].events.contains(e.name) || (e.kind
            == EntityKind::Schema && flat[k].tables.contains(e.name))),
{
    lemma_best_path_none(root, flat, e.file);
    lemma_first_name_index(flat, e.name, e.kind);
    assert(forall|x: Seq<char>| with_parens(x) == x + seq!['(', ')']);
    let i = first_name_index(flat, e.name, e.kind)->0;
    assert(names_entity(flat[i], e.name, e.kind));
    assert forall|k: int| 0 <= k < i implies !(flat[k].interfaces.contains(e.name) || flat[k].operations.contains(e.name + seq!['(', ')'])
            || flat[k].operations.contains(e.name) || flat[k].events.contains(e.name) || (e.kind
            == EntityKind::Schema && flat[k].tables.contains(e.name))) by {
        assert(!names_entity(flat[k], e.name, e.kind));
    }
}

proof fn lemma_best_path_index_spec(root: Seq<char>, flat: Seq<FlatView>, file: Seq<char>)
    ensures
        best_path_index(root, flat, file) matches Some(i) ==> {
            &&& 0 <= i < flat.len()
            &&& path_covers(root, flat[i], file)
            &&& forall|k: int|
                0 <= k < flat.len() && path_covers(root, #[trigger] flat[k], file) ==> specificity(root, flat[k])
                    <= specificity(root, flat[i])
            &&& forall|k: int|
                0 <= k < i && path_covers(root, #[trigger] flat[k], file) ==> specificity(root, flat[k])
                    < specificity(root, flat[i])
        },
    decreases flat.len(),
{
    if flat.len() > 0 {
        let init = flat.drop_last();
        lemma_best_path_index_spec(root, init, file);
        lemma_best_path_none(root, init, file);
        assert forall|k: int| 0 <= k < init.len() implies flat[k] == #[trigger] init[k] by {}
        let last = flat.len() - 1;
        assert(flat.last() == flat[last]);
        let prev = best_path_index(root, init, file);
        if path_covers(root, flat[last], file) {
            match prev {
                None => {
                    assert forall|k: int| 0 <= k < last implies !path_covers(root, #[trigger] flat[k], file) by {
                        assert(flat[k] == init[k]);
                    }
                },
                Some(j) => {
                    assert forall|k: int| 0 <= k < last && path_covers(root, #[trigger] flat[k], file) implies specificity(root, flat[k])
                        <= specificity(root, flat[j]) by {
                        assert(flat[k] == init[k]);
                    }
                    assert forall|k: int| 0 <= k < j && path_covers(root, #[trigger] flat[k], file) implies specificity(root, flat[k])
                        < specificity(root, flat[j]) by {
                        assert(flat[k] == init[k]);
                    }
                },
            }
        } else {
            match prev {
                None => {},
                Some(j) => {
                    assert forall|k: int| 0 <= k < flat.len() && path_covers(root, #[trigger] flat[k], file) implies specificity(root, flat[k])
                        <= specificity(root, flat[j]) by {
                        assert(flat[k] == init[k]);
                    }
                    assert forall|k: int| 0 <= k < j && path_covers(root, #[trigger] flat[k], file) implies specificity(root, flat[k])
                        < specificity(root, flat[j]) by {
                        assert(flat[k] == init[k]);
                    }
                },
            }
        }
    }
}

/// Matching by file path comes first and picks the most specific covering
/// path: when some subsystem's file path covers the entity's file, the
/// entity is matched by file path to a covering subsystem whose path has
/// the most components among the covering ones, the first such in order.
pub proof fn lemma_file_path_match(e: SummarySpec, flat: Seq<FlatView>, root: Seq<char>)
    requires
        exists|k: int| 0 <= k < flat.len() && path_covers(root, #[trigger] flat[k], e.file),
    ensures
        exists|i: int|
            0 <= i < flat.len() && spec_find_match(e, flat, root) == Some(
                (flat[i].id, flat[i].name, MatchStrategy::FilePath),
            ) && path_covers(root, flat[i], e.file) && (forall|k: int|
                0 <= k < flat.len() && path_covers(root, #[trigger] flat[k], e.file) ==> specificity(
                    root,
                    flat[k],
                ) <= specificity(root, flat[i])) && (forall|k: int|
                0 <= k < i && path_covers(root, #[trigger] flat[k], e.file) ==> specificity(root, flat[k])
                    < specificity(root, flat[i])),
{
    lemma_best_path_none(root, flat, e.file);
    lemma_best_path_index_spec(root, flat, e.file);
    let i = best_path_index(root, flat, e.file)->0;
    assert(spec_find_match(e, flat, root) == Some((flat[i].id, flat[i].name, MatchStrategy::FilePath)));
}

} // verus!
