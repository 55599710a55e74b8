//! Connection inference for bootstrapped manifests.
//!
//! Every import of a file that resolves to a subsystem other than the
//! file's own is one occurrence of a `depends_on` edge between the two.
//! Edges are ranked by how often they occur (ties in increasing order of
//! (from, to)); going down the ranking, an edge is kept unless its source
//! already has the maximum number of outgoing edges, until the overall
//! maximum is reached.

use vstd::prelude::*;
use crate::builder::{
    find_subsystem_for_path, resolve_import_to_subsystem, spec_resolve_import,
    spec_subsystem_for_path,
};
use crate::ir::{ImportDef, IrFile, ScanIndex};
use crate::manifest::{subs_view, Connection, ConnectionType, ManifestSubsystem, SubsystemView};
use crate::path::{path_strip_prefix, strip_prefix};
use crate::text::{
    chars_lt, chars_of, copy_string, lemma_seq_lt_asymmetric, lemma_seq_lt_irreflexive,
    lemma_seq_lt_total, lemma_seq_lt_transitive, seq_lt, str_eq,
};

verus! {

/// The most connections a bootstrapped manifest gets.
pub const MAX_BOOTSTRAP_CONNECTIONS: usize = 50;

/// The most outgoing connections one subsystem keeps.
pub const MAX_EDGES_PER_SUBSYSTEM: usize = 8;

// ---------------------------------------------------------------------------
// Edge occurrences
// ---------------------------------------------------------------------------

/// The edges contributed by the imports of one file, given the file's own
/// subsystem `from`.
pub open spec fn import_edges(
    from: Seq<char>,
    imps: Seq<ImportDef>,
    path: Seq<char>,
    ss: Seq<SubsystemView>,
    root: Seq<char>,
) -> Seq<(Seq<char>, Seq<char>)>
    decreases imps.len(),
{
    if imps.len() == 0 {
        Seq::empty()
    } else {
        let prev = import_edges(from, imps.drop_last(), path, ss, root);
        match spec_resolve_import(imps.last().source@, path, ss, root) {
            Some(to) => if to != from {
                prev.push((from, to))
            } else {
                prev
            },
            None => prev,
        }
    }
}

/// The path of a file relative to the root (the path itself when it is
/// not under the root).
pub open spec fn rel_or_self(path: Seq<char>, root: Seq<char>) -> Seq<char> {
    match strip_prefix(path, root) {
        Some(r) => r,
        None => path,
    }
}

/// The edges contributed by one file.
pub open spec fn file_edges(f: IrFile, ss: Seq<SubsystemView>, root: Seq<char>) -> Seq<
    (Seq<char>, Seq<char>),
> {
    match spec_subsystem_for_path(ss, rel_or_self(f.path@, root)) {
        None => Seq::empty(),
        Some(from) => import_edges(from, f.imports@, f.path@, ss, root),
    }
}

/// All edge occurrences, file by file and import by import.
pub open spec fn edge_occurrences(files: Seq<IrFile>, ss: Seq<SubsystemView>, root: Seq<char>) -> Seq<
    (Seq<char>, Seq<char>),
>
    decreases files.len(),
{
    if files.len() == 0 {
        Seq::empty()
    } else {
        edge_occurrences(files.drop_last(), ss, root) + file_edges(files.last(), ss, root)
    }
}

/// How often `p` occurs in `s`.
pub open spec fn count_in(s: Seq<(Seq<char>, Seq<char>)>, p: (Seq<char>, Seq<char>)) -> nat
    decreases s.len(),
{
    if s.len() == 0 {
        0
    } else {
        count_in(s.drop_last(), p) + if s.last() == p {
            1nat
        } else {
            0nat
        }
    }
}

// ---------------------------------------------------------------------------
// Ranking
// ---------------------------------------------------------------------------

/// The order of `(String, String)` tuples.
pub open spec fn pair_lt(a: (Seq<char>, Seq<char>), b: (Seq<char>, Seq<char>)) -> bool {
    seq_lt(a.0, b.0) || (a.0 == b.0 && seq_lt(a.1, b.1))
}

pub proof fn lemma_pair_lt_order(
    a: (Seq<char>, Seq<char>),
    b: (Seq<char>, Seq<char>),
    c: (Seq<char>, Seq<char>),
)
    ensures
        !pair_lt(a, a),
        pair_lt(a, b) ==> !pair_lt(b, a) && a != b,
        pair_lt(a, b) && pair_lt(b, c) ==> pair_lt(a, c),
        a == b || pair_lt(a, b) || pair_lt(b, a),
{
    lemma_seq_lt_irreflexive(a.0);
    lemma_seq_lt_irreflexive(a.1);
    lemma_seq_lt_total(a.0, b.0);
    lemma_seq_lt_total(a.1, b.1);
    if seq_lt(a.0, b.0) {
        lemma_seq_lt_asymmetric(a.0, b.0);
    }
    if seq_lt(b.0, a.0) {
        lemma_seq_lt_asymmetric(b.0, a.0);
    }
    if seq_lt(a.1, b.1) {
        lemma_seq_lt_asymmetric(a.1, b.1);
    }
    if seq_lt(b.1, a.1) {
        lemma_seq_lt_asymmetric(b.1, a.1);
    }
    if pair_lt(a, b) && pair_lt(b, c) {
        if seq_lt(a.0, b.0) && seq_lt(b.0, c.0) {
            lemma_seq_lt_transitive(a.0, b.0, c.0);
        }
        if a.0 == b.0 && b.0 == c.0 && seq_lt(a.1, b.1) && seq_lt(b.1, c.1) {
            lemma_seq_lt_transitive(a.1, b.1, c.1);
        }
    }
    if a.0 == b.0 && a.1 == b.1 {
        assert(a == b);
    }
}

/// `a` ranks before `b`: it occurs more often, or as often and is smaller.
pub open spec fn ranks_before(
    occ: Seq<(Seq<char>, Seq<char>)>,
    a: (Seq<char>, Seq<char>),
    b: (Seq<char>, Seq<char>),
) -> bool {
    count_in(occ, a) > count_in(occ, b) || (count_in(occ, a) == count_in(occ, b) && pair_lt(a, b))
}

pub proof fn lemma_ranks_before_order(
    occ: Seq<(Seq<char>, Seq<char>)>,
    a: (Seq<char>, Seq<char>),
    b: (Seq<char>, Seq<char>),
    c: (Seq<char>, Seq<char>),
)
    ensures
        ranks_before(occ, a, b) ==> !ranks_before(occ, b, a) && a != b,
        ranks_before(occ, a, b) && ranks_before(occ, b, c) ==> ranks_before(occ, a, c),
        a == b || ranks_before(occ, a, b) || ranks_before(occ, b, a),
{
    lemma_pair_lt_order(a, b, c);
    lemma_pair_lt_order(b, a, c);
}

/// `order` lists each distinct edge once, in ranking order.
pub open spec fn edges_ranked(order: Seq<(Seq<char>, Seq<char>)>, occ: Seq<(Seq<char>, Seq<char>)>) -> bool {
    &&& order.no_duplicates()
    &&& order.to_set() == occ.to_set()
    &&& forall|i: int, j: int| 0 <= i < j < order.len() ==> ranks_before(occ, #[trigger] order[i], #[trigger] order[j])
}

/// How many edges of `s` leave `from`.
pub open spec fn out_count(s: Seq<(Seq<char>, Seq<char>)>, from: Seq<char>) -> nat
    decreases s.len(),
{
    if s.len() == 0 {
        0
    } else {
        out_count(s.drop_last(), from) + if s.last().0 == from {
            1nat
        } else {
            0nat
        }
    }
}

/// The edges kept, going down the ranking: an edge is kept unless its
/// source already keeps the per-subsystem maximum, until the overall
/// maximum is kept.
pub open spec fn capped(order: Seq<(Seq<char>, Seq<char>)>) -> Seq<(Seq<char>, Seq<char>)>
    decreases order.len(),
{
    if order.len() == 0 {
        Seq::empty()
    } else {
        let prev = capped(order.drop_last());
        if prev.len() >= MAX_BOOTSTRAP_CONNECTIONS || out_count(prev, order.last().0)
            >= MAX_EDGES_PER_SUBSYSTEM {
            prev
        } else {
            prev.push(order.last())
        }
    }
}

/// The label of a connection: `from → to`.
pub open spec fn edge_label(from: Seq<char>, to: Seq<char>) -> Seq<char> {
    from + seq![' ', '→', ' '] + to
}

pub open spec fn connections_view(v: Seq<Connection>) -> Seq<(Seq<char>, Seq<char>)> {
    v.map_values(|c: Connection| (c.from@, c.to@))
}

// ---------------------------------------------------------------------------
// Executable inference
// ---------------------------------------------------------------------------

/// An edge with its number of occurrences.
pub struct WeightedEdge {
    pub from: String,
    pub to: String,
    pub weight: usize,
}

pub open spec fn edge_of(e: WeightedEdge) -> (Seq<char>, Seq<char>) {
    (e.from@, e.to@)
}

pub open spec fn edges_of(v: Seq<WeightedEdge>) -> Seq<(Seq<char>, Seq<char>)> {
    v.map_values(|e: WeightedEdge| edge_of(e))
}

fn collect_import_edges(
    from: &String,
    file: &IrFile,
    subsystems: &Vec<ManifestSubsystem>,
    root: &str,
    out: &mut Vec<(String, String)>,
)
    ensures
        crate::builder::pairs_view(final(out)@) == crate::builder::pairs_view(old(out)@)
            + import_edges(from@, file.imports@, file.path@, subs_view(subsystems@), root@),
{
    let ghost sv = subs_view(subsystems@);
    let mut i: usize = 0;
    while i < file.imports.len()
        invariant
            i <= file.imports.len(),
            sv == subs_view(subsystems@),
            crate::builder::pairs_view(out@) == crate::builder::pairs_view(old(out)@) + import_edges(
                from@,
                file.imports@.take(i as int),
                file.path@,
                sv,
                root@,
            ),
        decreases file.imports.len() - i,
    {
        let imp = &file.imports[i];
        assert(file.imports@.take(i + 1 as int).drop_last() =~= file.imports@.take(i as int));
        assert(file.imports@.take(i + 1 as int).last() == *imp);
        let ghost before = crate::builder::pairs_view(out@);
        match resolve_import_to_subsystem(imp.source.as_str(), file.path.as_str(), subsystems, root) {
            Some(to) => {
                if !str_eq(to.as_str(), from.as_str()) {
                    let ghost t = to@;
                    out.push((copy_string(from), to));
                    assert(crate::builder::pairs_view(out@) =~= before.push((from@, t)));
                }
            },
            None => {},
        }
        i += 1;
    }
    assert(file.imports@.take(file.imports.len() as int) =~= file.imports@);
}

fn collect_edges(index: &ScanIndex, subsystems: &Vec<ManifestSubsystem>) -> (r: Vec<(String, String)>)
    ensures
        crate::builder::pairs_view(r@) == edge_occurrences(index.files@, subs_view(subsystems@), index.root@),
{
    let ghost sv = subs_view(subsystems@);
    let mut out: Vec<(String, String)> = Vec::new();
    let mut i: usize = 0;
    while i < index.files.len()
        invariant
            i <= index.files.len(),
            sv == subs_view(subsystems@),
            crate::builder::pairs_view(out@) == edge_occurrences(index.files@.take(i as int), sv, index.root@),
        decreases index.files.len() - i,
    {
        let file = &index.files[i];
        assert(index.files@.take(i + 1 as int).drop_last() =~= index.files@.take(i as int));
        assert(index.files@.take(i + 1 as int).last() == *file);
        let rel = match path_strip_prefix(file.path.as_str(), index.root.as_str()) {
            Some(r) => r,
            None => copy_string(&file.path),
        };
        let ghost before = crate::builder::pairs_view(out@);
        match find_subsystem_for_path(rel.as_str(), subsystems) {
            Some(from) => {
                collect_import_edges(&from, file, subsystems, index.root.as_str(), &mut out);
            },
            None => {
                assert(before + file_edges(*file, sv, index.root@) =~= before);
            },
        }
        i += 1;
    }
    assert(index.files@.take(index.files.len() as int) =~= index.files@);
    out
}

proof fn lemma_count_push(s: Seq<(Seq<char>, Seq<char>)>, x: (Seq<char>, Seq<char>), p: (Seq<char>, Seq<char>))
    ensures
        count_in(s.push(x), p) == count_in(s, p) + if x == p {
            1nat
        } else {
            0nat
        },
{
    assert(s.push(x).drop_last() =~= s);
}

proof fn lemma_count_bound(s: Seq<(Seq<char>, Seq<char>)>, p: (Seq<char>, Seq<char>))
    ensures
        count_in(s, p) <= s.len(),
        count_in(s, p) > 0 <==> s.contains(p),
    decreases s.len(),
{
    if s.len() > 0 {
        lemma_count_bound(s.drop_last(), p);
        if s.drop_last().contains(p) {
            let k = choose|k: int| 0 <= k < s.drop_last().len() && s.drop_last()[k] == p;
            assert(s[k] == p);
        }
        if s.contains(p) && s.last() != p {
            let k = choose|k: int| 0 <= k < s.len() && s[k] == p;
            assert(s.drop_last()[k] == p);
        }
    }
}

fn same_edge(e: &WeightedEdge, from: &String, to: &String) -> (r: bool)
    ensures
        r == (edge_of(*e) == (from@, to@)),
{
    str_eq(e.from.as_str(), from.as_str()) && str_eq(e.to.as_str(), to.as_str())
}

/// The distinct edges of `occ` with their numbers of occurrences.
fn weigh_edges(occ: &Vec<(String, String)>) -> (r: Vec<WeightedEdge>)
    ensures
        edges_of(r@).no_duplicates(),
        edges_of(r@).to_set() == crate::builder::pairs_view(occ@).to_set(),
        forall|k: int|
            0 <= k < r@.len() ==> (#[trigger] r@[k]).weight == count_in(
                crate::builder::pairs_view(occ@),
                edge_of(r@[k]),
            ),
{
    let ghost ov = crate::builder::pairs_view(occ@);
    let mut r: Vec<WeightedEdge> = Vec::new();
    let mut i: usize = 0;
    while i < occ.len()
        invariant
            i <= occ.len(),
            ov == crate::builder::pairs_view(occ@),
            edges_of(r@).no_duplicates(),
            edges_of(r@).to_set() == ov.take(i as int).to_set(),
            forall|k: int|
                0 <= k < r@.len() ==> (#[trigger] r@[k]).weight == count_in(
                    ov.take(i as int),
                    edge_of(r@[k]),
                ),
        decreases occ.len() - i,
    {
        let (from, to) = (&occ[i].0, &occ[i].1);
        let ghost x = (from@, to@);
        let ghost prefix = ov.take(i as int);
        let ghost nxt = ov.take(i + 1 as int);
        assert(nxt =~= prefix.push(x));
        proof {
            assert forall|q: (Seq<char>, Seq<char>)| #![auto] true implies count_in(nxt, q)
                == count_in(prefix, q) + if x == q { 1nat } else { 0nat } by {
                lemma_count_push(prefix, x, q);
            }
            lemma_count_bound(prefix, x);
        }
        let mut j: usize = 0;
        while j < r.len() && !same_edge(&r[j], from, to)
            invariant
                j <= r.len(),
                x == (from@, to@),
                forall|k: int| 0 <= k < j ==> edge_of(#[trigger] r@[k]) != x,
            decreases r.len() - j,
        {
            j += 1;
        }
        let ghost old_r = r@;
        if j < r.len() {
            let mut e = r.remove(j);
            proof {
                lemma_count_bound(prefix, edge_of(e));
                assert(edges_of(old_r)[j as int] == x);
                assert(edges_of(old_r).contains(x));
                assert(count_in(prefix, x) < i + 1);
            }
            e.weight = e.weight + 1;
            r.insert(j, e);
            proof {
                assert(edges_of(r@) =~= edges_of(old_r));
                assert forall|k: int| 0 <= k < r@.len() implies (#[trigger] r@[k]).weight == count_in(
                    nxt,
                    edge_of(r@[k]),
                ) by {
                    lemma_count_push(prefix, x, edge_of(r@[k]));
                    if k != j {
                        assert(edges_of(old_r)[k] != edges_of(old_r)[j as int]);
                    }
                }
                assert(edges_of(r@).to_set() =~= nxt.to_set()) by {
                    assert forall|q| edges_of(r@).to_set().contains(q) <==> nxt.to_set().contains(q) by {
                        if q == x {
                            assert(nxt[i as int] == x);
                        }
                        if nxt.contains(q) && q != x {
                            let k = choose|k: int| 0 <= k < nxt.len() && nxt[k] == q;
                            assert(prefix[k] == q);
                        }
                        if prefix.contains(q) {
                            let k = choose|k: int| 0 <= k < prefix.len() && prefix[k] == q;
                            assert(nxt[k] == q);
                        }
                    }
                }
            }
        } else {
            proof {
                assert(!edges_of(old_r).contains(x)) by {
                    if edges_of(old_r).contains(x) {
                        let k = choose|k: int| 0 <= k < edges_of(old_r).len() && edges_of(old_r)[k] == x;
                        assert(edge_of(old_r[k]) == x);
                    }
                }
                assert(!prefix.contains(x)) by {
                    if prefix.contains(x) {
                        assert(prefix.to_set().contains(x));
                    }
                }
                lemma_count_bound(prefix, x);
            }
            r.push(WeightedEdge { from: copy_string(from), to: copy_string(to), weight: 1 });
            proof {
                assert(edges_of(r@) =~= edges_of(old_r).push(x));
                assert forall|k: int| 0 <= k < r@.len() implies (#[trigger] r@[k]).weight == count_in(
                    nxt,
                    edge_of(r@[k]),
                ) by {
                    lemma_count_push(prefix, x, edge_of(r@[k]));
                    if k < old_r.len() {
                        assert(edges_of(old_r)[k] == edge_of(r@[k]));
                        assert(edges_of(old_r).contains(edge_of(r@[k])));
                    }
                }
                assert(edges_of(r@).to_set() =~= nxt.to_set()) by {
                    assert forall|q| edges_of(r@).to_set().contains(q) <==> nxt.to_set().contains(q) by {
                        if q == x {
                            assert(nxt[i as int] == x);
                            assert(edges_of(r@)[old_r.len() as int] == x);
                        }
                        if nxt.contains(q) && q != x {
                            let k = choose|k: int| 0 <= k < nxt.len() && nxt[k] == q;
                            assert(prefix[k] == q);
                            assert(prefix.to_set().contains(q));
                            assert(edges_of(old_r).to_set().contains(q));
                            let m = choose|m: int| 0 <= m < edges_of(old_r).len() && edges_of(old_r)[m] == q;
                            assert(edges_of(r@)[m] == q);
                        }
                        if edges_of(r@).contains(q) && q != x {
                            let m = choose|m: int| 0 <= m < edges_of(r@).len() && edges_of(r@)[m] == q;
                            assert(edges_of(old_r)[m] == q);
                            assert(edges_of(old_r).to_set().contains(q));
                            let k = choose|k: int| 0 <= k < prefix.len() && prefix[k] == q;
                            assert(nxt[k] == q);
                        }
                    }
                }
            }
        }
        i += 1;
    }
    assert(ov.take(occ.len() as int) =~= ov);
    r
}

fn pair_lt_exec(a: &WeightedEdge, b: &WeightedEdge) -> (r: bool)
    ensures
        r == pair_lt(edge_of(*a), edge_of(*b)),
{
    let af = chars_of(a.from.as_str());
    let bf = chars_of(b.from.as_str());
    if chars_lt(&af, &bf) {
        return true;
    }
    if !str_eq(a.from.as_str(), b.from.as_str()) {
        return false;
    }
    chars_lt(&chars_of(a.to.as_str()), &chars_of(b.to.as_str()))
}

/// `a` ranks before `b`, given their weights.
fn ranks_before_exec(a: &WeightedEdge, b: &WeightedEdge) -> (r: bool)
    ensures
        r == (a.weight > b.weight || (a.weight == b.weight && pair_lt(edge_of(*a), edge_of(*b)))),
{
    a.weight > b.weight || (a.weight == b.weight && pair_lt_exec(a, b))
}

/// The weighted edges in ranking order.
fn rank_edges(edges: Vec<WeightedEdge>, occ: Ghost<Seq<(Seq<char>, Seq<char>)>>) -> (r: Vec<WeightedEdge>)
    requires
        edges_of(edges@).no_duplicates(),
        forall|k: int| 0 <= k < edges@.len() ==> (#[trigger] edges@[k]).weight == count_in(occ@, edge_of(edges@[k])),
    ensures
        edges_of(r@).no_duplicates(),
        edges_of(r@).to_set() == edges_of(edges@).to_set(),
        forall|k: int| 0 <= k < r@.len() ==> (#[trigger] r@[k]).weight == count_in(occ@, edge_of(r@[k])),
        forall|i: int, j: int| 0 <= i < j < r@.len() ==> ranks_before(occ@, #[trigger] edges_of(r@)[i], #[trigger] edges_of(r@)[j]),
{
    let ghost ev = edges_of(edges@);
    let ghost all = edges@;
    let mut sorted: Vec<WeightedEdge> = Vec::new();
    let mut rest = edges;
    // `rest` is consumed from the back; `sorted` holds what was taken.
    while rest.len() > 0
        invariant
            edges_of(sorted@).no_duplicates(),
            edges_of(rest@).to_set().union(edges_of(sorted@).to_set()) == ev.to_set(),
            edges_of(rest@).to_set().disjoint(edges_of(sorted@).to_set()),
            edges_of(rest@).no_duplicates(),
            forall|k: int| 0 <= k < rest@.len() ==> (#[trigger] rest@[k]).weight == count_in(occ@, edge_of(rest@[k])),
            forall|k: int| 0 <= k < sorted@.len() ==> (#[trigger] sorted@[k]).weight == count_in(occ@, edge_of(sorted@[k])),
            forall|i: int, j: int| 0 <= i < j < sorted@.len() ==> ranks_before(occ@, #[trigger] edges_of(sorted@)[i], #[trigger] edges_of(sorted@)[j]),
        decreases rest@.len(),
    {
        let ghost old_rest = rest@;
        let ghost old_sorted = sorted@;
        let e = rest.pop().unwrap();
        let ghost x = edge_of(e);
        assert(old_rest.last() == e);
        assert(edges_of(rest@) =~= edges_of(old_rest).drop_last());
        assert(e.weight == count_in(occ@, x)) by {
            assert(old_rest[old_rest.len() - 1] == e);
        }
        let mut p: usize = 0;
        while p < sorted.len() && ranks_before_exec(&sorted[p], &e)
            invariant
                p <= sorted.len(),
                sorted@ == old_sorted,
                x == edge_of(e),
                e.weight == count_in(occ@, x),
                forall|k: int| 0 <= k < sorted@.len() ==> (#[trigger] sorted@[k]).weight == count_in(occ@, edge_of(sorted@[k])),
                forall|k: int| 0 <= k < p ==> ranks_before(occ@, #[trigger] edges_of(sorted@)[k], x),
            decreases sorted.len() - p,
        {
            p += 1;
        }
        proof {
            assert(!edges_of(old_sorted).contains(x)) by {
                assert(edges_of(old_rest).to_set().contains(x)) by {
                    assert(edges_of(old_rest)[old_rest.len() - 1] == x);
                }
            }
            assert(edges_of(old_rest).drop_last().to_set().contains(x) == false) by {
                if edges_of(old_rest).drop_last().contains(x) {
                    let k = choose|k: int| 0 <= k < old_rest.len() - 1 && edges_of(old_rest).drop_last()[k] == x;
                    assert(edges_of(old_rest)[k] == edges_of(old_rest)[old_rest.len() - 1]);
                }
            }
        }
        sorted.insert(p, e);
        proof {
            let ns = edges_of(sorted@);
            let os = edges_of(old_sorted);
            assert(ns =~= os.insert(p as int, x));
            if p < old_sorted.len() {
                assert(!ranks_before(occ@, os[p as int], x));
                lemma_ranks_before_order(occ@, os[p as int], x, x);
                assert(os[p as int] != x) by {
                    assert(os.contains(os[p as int]));
                }
            }
            assert forall|i: int, j: int| 0 <= i < j < sorted@.len() implies ranks_before(occ@, #[trigger] ns[i], #[trigger] ns[j]) by {
                if i < p && j < p {
                    assert(ns[i] == os[i]);
                    assert(ns[j] == os[j]);
                } else if i < p && j == p {
                } else if i < p && j > p {
                    assert(ns[j] == os[j - 1]);
                    if i < j - 1 {
                        assert(ranks_before(occ@, os[i], os[j - 1]));
                    }
                } else if i == p {
                    assert(ns[j] == os[j - 1]);
                    if j - 1 > p {
                        assert(ranks_before(occ@, os[p as int], os[j - 1]));
                        lemma_ranks_before_order(occ@, x, os[p as int], os[j - 1]);
                    }
                } else {
                    assert(ns[i] == os[i - 1]);
                    assert(ns[j] == os[j - 1]);
                }
            }
            assert forall|k: int| 0 <= k < sorted@.len() implies (#[trigger] sorted@[k]).weight == count_in(occ@, edge_of(sorted@[k])) by {
                if k < p {
                    assert(sorted@[k] == old_sorted[k]);
                } else if k > p {
                    assert(sorted@[k] == old_sorted[k - 1]);
                }
            }
            assert(ns.no_duplicates()) by {
                assert forall|i: int, j: int| 0 <= i < ns.len() && 0 <= j < ns.len() && i != j implies ns[i] != ns[j] by {
                    if i == p as int && j != p as int {
                        let jj = if j < p { j } else { j - 1 };
                        assert(ns[j] == os[jj]);
                        assert(os.contains(os[jj]));
                    } else if j == p as int && i != p as int {
                        let ii = if i < p { i } else { i - 1 };
                        assert(ns[i] == os[ii]);
                        assert(os.contains(os[ii]));
                    } else if i != p && j != p {
                        let ii = if i < p { i } else { i - 1 };
                        let jj = if j < p { j } else { j - 1 };
                        assert(ns[i] == os[ii]);
                        assert(ns[j] == os[jj]);
                    }
                }
            }
            assert(ns.to_set() =~= os.to_set().insert(x)) by {
                assert forall|q| ns.to_set().contains(q) <==> os.to_set().insert(x).contains(q) by {
                    if ns.contains(q) {
                        let k = choose|k: int| 0 <= k < ns.len() && ns[k] == q;
                        if k < p {
                            assert(os[k] == q);
                        } else if k > p {
                            assert(os[k - 1] == q);
                        }
                    }
                    if os.contains(q) {
                        let k = choose|k: int| 0 <= k < os.len() && os[k] == q;
                        if k < p {
                            assert(ns[k] == q);
                        } else {
                            assert(ns[k + 1] == q);
                        }
                    }
                    if q == x {
                        assert(ns[p as int] == x);
                    }
                }
            }
            let orest = edges_of(old_rest);
            assert(orest.to_set() =~= edges_of(rest@).to_set().insert(x)) by {
                assert forall|q| orest.to_set().contains(q) <==> edges_of(rest@).to_set().insert(x).contains(q) by {
                    if orest.contains(q) {
                        let k = choose|k: int| 0 <= k < orest.len() && orest[k] == q;
                        if k < orest.len() - 1 {
                            assert(edges_of(rest@)[k] == q);
                        }
                    }
                    if edges_of(rest@).contains(q) {
                        let k = choose|k: int| 0 <= k < edges_of(rest@).len() && edges_of(rest@)[k] == q;
                        assert(orest[k] == q);
                    }
                    if q == x {
                        assert(orest[orest.len() - 1] == x);
                    }
                }
            }
            assert(edges_of(rest@).no_duplicates()) by {
                assert forall|i: int, j: int| 0 <= i < edges_of(rest@).len() && 0 <= j < edges_of(rest@).len() && i != j implies edges_of(rest@)[i] != edges_of(rest@)[j] by {
                    assert(edges_of(rest@)[i] == orest[i]);
                    assert(edges_of(rest@)[j] == orest[j]);
                }
            }
            assert forall|k: int| 0 <= k < rest@.len() implies (#[trigger] rest@[k]).weight == count_in(occ@, edge_of(rest@[k])) by {
                assert(rest@[k] == old_rest[k]);
            }
            assert(edges_of(rest@).to_set().union(ns.to_set()) =~= ev.to_set());
            assert(edges_of(rest@).to_set().disjoint(ns.to_set()));
        }
    }
    proof {
        assert(edges_of(rest@).to_set() =~= Set::<(Seq<char>, Seq<char>)>::empty());
        assert(edges_of(sorted@).to_set() =~= ev.to_set());
    }
    sorted
}

fn out_count_exec(kept: &Vec<(String, String)>, from: &String) -> (n: usize)
    ensures
        n == out_count(crate::builder::pairs_view(kept@), from@),
{
    let ghost kv = crate::builder::pairs_view(kept@);
    let mut n: usize = 0;
    let mut i: usize = 0;
    while i < kept.len()
        invariant
            i <= kept.len(),
            kv == crate::builder::pairs_view(kept@),
            n == out_count(kv.take(i as int), from@),
            n <= i,
        decreases kept.len() - i,
    {
        assert(kv.take(i + 1 as int).drop_last() =~= kv.take(i as int));
        assert(kv.take(i + 1 as int).last() == kv[i as int]);
        if str_eq(kept[i].0.as_str(), from.as_str()) {
            n += 1;
        }
        i += 1;
    }
    assert(kv.take(kept.len() as int) =~= kv);
    n
}

fn keep_capped(order: &Vec<WeightedEdge>) -> (r: Vec<(String, String)>)
    ensures
        crate::builder::pairs_view(r@) == capped(edges_of(order@)),
{
    let ghost ov = edges_of(order@);
    let mut kept: Vec<(String, String)> = Vec::new();
    let mut i: usize = 0;
    while i < order.len()
        invariant
            i <= order.len(),
            ov == edges_of(order@),
            crate::builder::pairs_view(kept@) == capped(ov.take(i as int)),
        decreases order.len() - i,
    {
        let e = &order[i];
        assert(ov.take(i + 1 as int).drop_last() =~= ov.take(i as int));
        assert(ov.take(i + 1 as int).last() == edge_of(*e));
        if kept.len() < MAX_BOOTSTRAP_CONNECTIONS && out_count_exec(&kept, &e.from) < MAX_EDGES_PER_SUBSYSTEM {
            let ghost before = crate::builder::pairs_view(kept@);
            kept.push((copy_string(&e.from), copy_string(&e.to)));
            assert(crate::builder::pairs_view(kept@) =~= before.push(edge_of(*e)));
        }
        i += 1;
    }
    assert(ov.take(order.len() as int) =~= ov);
    kept
}

fn label_of(from: &String, to: &String) -> (r: String)
    ensures
        r@ == edge_label(from@, to@),
{
    let mut r = copy_string(from);
    r.push(' ');
    r.push('→');
    r.push(' ');
    crate::text::append_str(&mut r, to.as_str());
    assert(r@ =~= edge_label(from@, to@));
    r
}

/// Infers connections from cross-subsystem imports: the edges, ranked by
/// their number of occurrences (ties in increasing (from, to) order), are
/// kept going down the ranking unless their source already has
/// `MAX_EDGES_PER_SUBSYSTEM` kept edges, up to `MAX_BOOTSTRAP_CONNECTIONS`
/// in all. Each is a `depends_on` connection labelled `from → to`.
pub fn infer_connections(index: &ScanIndex, subsystems: &Vec<ManifestSubsystem>) -> (r: Vec<Connection>)
    ensures
        exists|order: Seq<(Seq<char>, Seq<char>)>|
            edges_ranked(order, edge_occurrences(index.files@, subs_view(subsystems@), index.root@))
                && connections_view(r@) == capped(order),
        forall|k: int|
            0 <= k < r@.len() ==> (#[trigger] r@[k]).label@ == edge_label(r@[k].from@, r@[k].to@)
                && r@[k].connection_type == ConnectionType::DependsOn,
{
    let occ = collect_edges(index, subsystems);
    let ghost ov = crate::builder::pairs_view(occ@);
    let weighted = weigh_edges(&occ);
    let ranked = rank_edges(weighted, Ghost(ov));
    let ghost order = edges_of(ranked@);
    assert(edges_ranked(order, ov));
    let kept = keep_capped(&ranked);
    let ghost kv = crate::builder::pairs_view(kept@);
    let mut out: Vec<Connection> = Vec::new();
    let mut i: usize = 0;
    while i < kept.len()
        invariant
            i <= kept.len(),
            kv == crate::builder::pairs_view(kept@),
            connections_view(out@) == kv.take(i as int),
            forall|k: int|
                0 <= k < out@.len() ==> (#[trigger] out@[k]).label@ == edge_label(out@[k].from@, out@[k].to@)
                    && out@[k].connection_type == ConnectionType::DependsOn,
        decreases kept.len() - i,
    {
        let (from, to) = (&kept[i].0, &kept[i].1);
        let ghost before = connections_view(out@);
        out.push(
            Connection {
                from: copy_string(from),
                to: copy_string(to),
                label: label_of(from, to),
                connection_type: ConnectionType::DependsOn,
            },
        );
        assert(connections_view(out@) =~= before.push(kv[i as int]));
        i += 1;
        assert(kv.take(i as int) =~= before.push(kv[i - 1]));
    }
    assert(kv.take(kept.len() as int) =~= kv);
    out
}

/// Ranking orders are unique: two lists of the same distinct edges, each
/// in ranking order, are the same list.
pub proof fn lemma_ranking_unique(
    a: Seq<(Seq<char>, Seq<char>)>,
    b: Seq<(Seq<char>, Seq<char>)>,
    occ: Seq<(Seq<char>, Seq<char>)>,
)
    requires
        a.no_duplicates(),
        b.no_duplicates(),
        a.to_set() == b.to_set(),
        forall|i: int, j: int| 0 <= i < j < a.len() ==> ranks_before(occ, #[trigger] a[i], #[trigger] a[j]),
        forall|i: int, j: int| 0 <= i < j < b.len() ==> ranks_before(occ, #[trigger] b[i], #[trigger] b[j]),
    ensures
        a == b,
    decreases a.len(),
{
    broadcast use vstd::seq_lib::seq_to_set_is_finite;

    a.unique_seq_to_set();
    b.unique_seq_to_set();
    if a.len() == 0 {
        assert(b.len() == 0);
        assert(a =~= b);
    } else {
        assert(b.len() > 0);
        assert(b.to_set().contains(a[0]));
        let k = choose|k: int| 0 <= k < b.len() && b[k] == a[0];
        assert(a.to_set().contains(b[0]));
        let m = choose|m: int| 0 <= m < a.len() && a[m] == b[0];
        if k > 0 && m > 0 {
            assert(ranks_before(occ, b[0], b[k]));
            assert(ranks_before(occ, a[0], a[m]));
            lemma_ranks_before_order(occ, a[0], b[0], b[0]);
        } else if k > 0 {
            assert(b[0] == a[0]);
            assert(b[0] == b[k]);
        } else if m > 0 {
            assert(a[0] == a[m]);
        }
        assert(a[0] == b[0]);
        let ta = a.drop_first();
        let tb = b.drop_first();
        assert(ta.to_set() =~= tb.to_set()) by {
            assert forall|q| ta.to_set().contains(q) <==> tb.to_set().contains(q) by {
                if ta.contains(q) {
                    let i = choose|i: int| 0 <= i < ta.len() && ta[i] == q;
                    assert(a[i + 1] == q);
                    assert(a.to_set().contains(q));
                    let j = choose|j: int| 0 <= j < b.len() && b[j] == q;
                    if j == 0 {
                        assert(a[0] == a[i + 1]);
                    }
                    assert(tb[j - 1] == q);
                }
                if tb.contains(q) {
                    let j = choose|j: int| 0 <= j < tb.len() && tb[j] == q;
                    assert(b[j + 1] == q);
                    assert(b.to_set().contains(q));
                    let i = choose|i: int| 0 <= i < a.len() && a[i] == q;
                    if i == 0 {
                        assert(b[0] == b[j + 1]);
                    }
                    assert(ta[i - 1] == q);
                }
            }
        }
        assert forall|i: int, j: int| 0 <= i < j < ta.len() implies ranks_before(occ, #[trigger] ta[i], #[trigger] ta[j]) by {
            assert(ta[i] == a[i + 1]);
            assert(ta[j] == a[j + 1]);
        }
        assert forall|i: int, j: int| 0 <= i < j < tb.len() implies ranks_before(occ, #[trigger] tb[i], #[trigger] tb[j]) by {
            assert(tb[i] == b[i + 1]);
            assert(tb[j] == b[j + 1]);
        }
        lemma_ranking_unique(ta, tb, occ);
        assert(a =~= seq![a[0]] + ta);
        assert(b =~= seq![b[0]] + tb);
    }
}

/// The kept edges respect both caps: at most `MAX_BOOTSTRAP_CONNECTIONS`
/// in all and at most `MAX_EDGES_PER_SUBSYSTEM` leaving any subsystem.
pub proof fn lemma_capped_limits(order: Seq<(Seq<char>, Seq<char>)>, from: Seq<char>)
    ensures
        capped(order).len() <= MAX_BOOTSTRAP_CONNECTIONS,
        out_count(capped(order), from) <= MAX_EDGES_PER_SUBSYSTEM,
    decreases order.len(),
{
    if order.len() > 0 {
        lemma_capped_limits(order.drop_last(), from);
        let prev = capped(order.drop_last());
        let x = order.last();
        if !(prev.len() >= MAX_BOOTSTRAP_CONNECTIONS || out_count(prev, x.0) >= MAX_EDGES_PER_SUBSYSTEM) {
            assert(prev.push(x).drop_last() =~= prev);
        }
    }
}

/// The kept edges are some of the ranked edges, in the same order.
pub proof fn lemma_capped_subset(order: Seq<(Seq<char>, Seq<char>)>)
    ensures
        forall|k: int| 0 <= k < capped(order).len() ==> order.contains(#[trigger] capped(order)[k]),
    decreases order.len(),
{
    if order.len() > 0 {
        lemma_capped_subset(order.drop_last());
        let prev = capped(order.drop_last());
        assert forall|k: int| 0 <= k < capped(order).len() implies order.contains(#[trigger] capped(order)[k]) by {
            if k < prev.len() {
                assert(capped(order)[k] == prev[k]);
                let m = choose|m: int| 0 <= m < order.drop_last().len() && order.drop_last()[m] == prev[k];
                assert(order[m] == prev[k]);
            } else {
                assert(order[order.len() - 1] == capped(order)[k]);
            }
        }
    }
}

proof fn lemma_import_edges_no_self(
    from: Seq<char>,
    imps: Seq<ImportDef>,
    path: Seq<char>,
    ss: Seq<SubsystemView>,
    root: Seq<char>,
)
    ensures
        forall|k: int| 0 <= k < import_edges(from, imps, path, ss, root).len() ==> (#[trigger] import_edges(
            from,
            imps,
            path,
            ss,
            root,
        )[k]).0 != import_edges(from, imps, path, ss, root)[k].1,
    decreases imps.len(),
{
    if imps.len() > 0 {
        lemma_import_edges_no_self(from, imps.drop_last(), path, ss, root);
        let prev = import_edges(from, imps.drop_last(), path, ss, root);
        let r = import_edges(from, imps, path, ss, root);
        assert forall|k: int| 0 <= k < r.len() implies (#[trigger] r[k]).0 != r[k].1 by {
            if k < prev.len() {
                assert(r[k] == prev[k]);
            }
        }
    }
}

proof fn lemma_occurrences_no_self(files: Seq<IrFile>, ss: Seq<SubsystemView>, root: Seq<char>)
    ensures
        forall|k: int| 0 <= k < edge_occurrences(files, ss, root).len() ==> (#[trigger] edge_occurrences(
            files,
            ss,
            root,
        )[k]).0 != edge_occurrences(files, ss, root)[k].1,
    decreases files.len(),
{
    if files.len() > 0 {
        lemma_occurrences_no_self(files.drop_last(), ss, root);
        let prev = edge_occurrences(files.drop_last(), ss, root);
        let f = files.last();
        let fe = file_edges(f, ss, root);
        match spec_subsystem_for_path(ss, rel_or_self(f.path@, root)) {
            None => {},
            Some(from) => lemma_import_edges_no_self(from, f.imports@, f.path@, ss, root),
        }
        let r = edge_occurrences(files, ss, root);
        assert forall|k: int| 0 <= k < r.len() implies (#[trigger] r[k]).0 != r[k].1 by {
            if k < prev.len() {
                assert(r[k] == prev[k]);
            } else {
                assert(r[k] == fe[k - prev.len()]);
            }
        }
    }
}

/// No inferred connection goes from a subsystem to itself.
pub proof fn lemma_no_self_connections(
    order: Seq<(Seq<char>, Seq<char>)>,
    files: Seq<IrFile>,
    ss: Seq<SubsystemView>,
    root: Seq<char>,
)
    requires
        edges_ranked(order, edge_occurrences(files, ss, root)),
    ensures
        forall|k: int| 0 <= k < capped(order).len() ==> (#[trigger] capped(order)[k]).0 != capped(order)[k].1,
{
    let occ = edge_occurrences(files, ss, root);
    lemma_occurrences_no_self(files, ss, root);
    lemma_capped_subset(order);
    assert forall|k: int| 0 <= k < capped(order).len() implies (#[trigger] capped(order)[k]).0 != capped(order)[k].1 by {
        let e = capped(order)[k];
        assert(order.to_set().contains(e));
        assert(occ.to_set().contains(e));
        let m = choose|m: int| 0 <= m < occ.len() && occ[m] == e;
    }
}

} // verus!
