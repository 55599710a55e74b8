//! Heuristic manifest builder: bootstraps a `SystemManifest` from scan data.
//!
//! Given a `ScanIndex`, the builder infers:
//! 1. domains: one per top-level source directory (or crate/package root);
//! 2. subsystems: one per second-level directory within each domain;
//! 3. connections: cross-directory imports imply `depends_on` edges.
//!
//! The output is a best-guess manifest meant for manual refinement.

use vstd::prelude::*;
use crate::manifest::{
    subs_view, lemma_subs_view_index, lemma_subs_view_len, ManifestStatus, ManifestSubsystem,
    SubsystemView,
};
use crate::path::{
    comp_eq, components, components_of, comps_view, parent, path_parent, path_starts_with,
    path_strip_prefix, render, render_range, starts_with, strip_prefix, Comp, PathComponent,
};
use crate::text::{
    chars_of, char_vecs, copy_string, dec, decimal, drop_empty, drop_empty_pieces, join_strings,
    join_with, lemma_dec_injective, lemma_dec_len, split_any, split_any_chars, str_eq, string_of,
    strs, to_uppercase_char, uppercase_char, lowercase,
};

verus! {

// ---------------------------------------------------------------------------
// Options
// ---------------------------------------------------------------------------

/// Options for controlling bootstrap heuristics.
#[derive(Debug, Clone)]
pub struct BootstrapOptions {
    /// Project name (used in `meta.name`); derived from the root when absent.
    pub project_name: Option<String>,
    /// Minimum number of files in a directory for it to qualify as a
    /// subsystem.
    pub min_entities: usize,
}

impl Default for BootstrapOptions {
    fn default() -> (o: Self)
        ensures
            o.project_name is None,
            o.min_entities == 1,
    {
        BootstrapOptions { project_name: None, min_entities: 1 }
    }
}

// ---------------------------------------------------------------------------
// Names
// ---------------------------------------------------------------------------

/// A word with its first character uppercased.
pub open spec fn capitalize(w: Seq<char>) -> Seq<char> {
    uppercase_char(w[0]) + w.drop_first()
}

/// The words of a directory name: the non-empty pieces between `-` and `_`.
pub open spec fn name_words(name: Seq<char>) -> Seq<Seq<char>> {
    drop_empty(split_any(name, seq!['-', '_']))
}

/// A directory name as a label: its words capitalized, joined by spaces
/// (`domain-scan-core` reads `Domain Scan Core`).
pub open spec fn spec_humanize(name: Seq<char>) -> Seq<char> {
    join_with(name_words(name).map_values(|w: Seq<char>| capitalize(w)), seq![' '])
}

proof fn lemma_drop_empty_nonempty(ps: Seq<Seq<char>>)
    ensures
        forall|i: int| 0 <= i < drop_empty(ps).len() ==> (#[trigger] drop_empty(ps)[i]).len() > 0,
    decreases ps.len(),
{
    if ps.len() > 0 {
        lemma_drop_empty_nonempty(ps.drop_last());
        let prev = drop_empty(ps.drop_last());
        assert forall|i: int| 0 <= i < drop_empty(ps).len() implies (#[trigger] drop_empty(ps)[i]).len() > 0 by {
            if i < prev.len() {
                assert(drop_empty(ps)[i] == prev[i]);
            }
        }
    }
}

/// Converts a directory name to a human-readable label.
pub fn humanize_name(name: &str) -> (r: String)
    ensures
        r@ == spec_humanize(name@),
{
    let v = chars_of(name);
    let mut seps: Vec<char> = Vec::new();
    seps.push('-');
    seps.push('_');
    assert(seps@ =~= seq!['-', '_']);
    let words = drop_empty_pieces(split_any_chars(&v, &seps));
    let ghost wv = char_vecs(words@);
    proof {
        lemma_drop_empty_nonempty(split_any(name@, seq!['-', '_']));
    }
    let mut parts: Vec<String> = Vec::new();
    let mut i: usize = 0;
    while i < words.len()
        invariant
            i <= words.len(),
            wv == char_vecs(words@),
            wv == name_words(name@),
            forall|j: int| 0 <= j < wv.len() ==> (#[trigger] wv[j]).len() > 0,
            strs(parts@) == wv.take(i as int).map_values(|w: Seq<char>| capitalize(w)),
        decreases words.len() - i,
    {
        let w = &words[i];
        assert(wv[i as int] == w@);
        let mut part = to_uppercase_char(w[0]);
        let mut k: usize = 1;
        while k < w.len()
            invariant
                1 <= k <= w.len(),
                part@ == uppercase_char(w@[0]) + w@.subrange(1, k as int),
            decreases w.len() - k,
        {
            part.push(w[k]);
            k += 1;
            assert(part@ =~= uppercase_char(w@[0]) + w@.subrange(1, k as int));
        }
        assert(w@.subrange(1, w.len() as int) =~= w@.drop_first());
        let ghost before = strs(parts@);
        parts.push(part);
        assert(strs(parts@) =~= before.push(capitalize(w@)));
        i += 1;
        assert(wv.take(i as int).map_values(|w: Seq<char>| capitalize(w)) =~= before.push(
            capitalize(w@),
        ));
    }
    assert(wv.take(words.len() as int) =~= wv);
    proof {
        reveal_strlit(" ");
        assert(" "@ =~= seq![' ']);
        assert(strs(parts@) == name_words(name@).map_values(|w: Seq<char>| capitalize(w)));
    }
    join_strings(&parts, " ")
}

/// The directory names that hold workspace members.
pub open spec fn spec_is_workspace_dir(name: Seq<char>) -> bool {
    ||| name == "crates"@
    ||| name == "packages"@
    ||| name == "apps"@
    ||| name == "modules"@
    ||| name == "services"@
    ||| name == "libs"@
    ||| name == "workspaces"@
}

/// The directory names that are source roots, skipped when naming
/// subsystems.
pub open spec fn spec_is_source_root(name: Seq<char>) -> bool {
    ||| name == "src"@
    ||| name == "lib"@
    ||| name == "app"@
}

/// Whether a directory name is a workspace root (`crates`, `packages`,
/// `apps`, `modules`, `services`, `libs`, `workspaces`).
pub fn is_workspace_dir(name: &str) -> (r: bool)
    ensures
        r == spec_is_workspace_dir(name@),
{
    str_eq(name, "crates") || str_eq(name, "packages") || str_eq(name, "apps") || str_eq(
        name,
        "modules",
    ) || str_eq(name, "services") || str_eq(name, "libs") || str_eq(name, "workspaces")
}

/// Whether a directory name is a source root (`src`, `lib`, `app`).
pub fn is_source_root(name: &str) -> (r: bool)
    ensures
        r == spec_is_source_root(name@),
{
    str_eq(name, "src") || str_eq(name, "lib") || str_eq(name, "app")
}

// ---------------------------------------------------------------------------
// Lexical path normalization
// ---------------------------------------------------------------------------

/// One step of normalization: `.` vanishes, `..` removes the component
/// before it unless there is none or it is the root, anything else is kept.
pub open spec fn norm_step(acc: Seq<Comp>, c: Comp) -> Seq<Comp> {
    match c {
        Comp::Cur => acc,
        Comp::Parent => if acc.len() > 0 && !(acc.last() is Root) {
            acc.drop_last()
        } else {
            acc.push(Comp::Parent)
        },
        _ => acc.push(c),
    }
}

pub open spec fn norm_comps(cs: Seq<Comp>) -> Seq<Comp>
    decreases cs.len(),
{
    if cs.len() == 0 {
        Seq::empty()
    } else {
        norm_step(norm_comps(cs.drop_last()), cs.last())
    }
}

/// A path with `.` and `..` resolved without looking at the file system.
pub open spec fn spec_normalize(p: Seq<char>) -> Seq<char> {
    render(norm_comps(components(p)))
}

fn copy_component(c: &PathComponent) -> (r: PathComponent)
    ensures
        r@ == c@,
{
    match c {
        PathComponent::Root => PathComponent::Root,
        PathComponent::Cur => PathComponent::Cur,
        PathComponent::Parent => PathComponent::Parent,
        PathComponent::Normal(x) => {
            let y = x.clone();
            assert(y@ =~= x@);
            PathComponent::Normal(y)
        },
    }
}

/// Normalizes a path by resolving `.` and `..` components lexically.
pub fn normalize_path(path: &str) -> (r: String)
    ensures
        r@ == spec_normalize(path@),
{
    let cs = components_of(&chars_of(path));
    let ghost cv = comps_view(cs@);
    let mut acc: Vec<PathComponent> = Vec::new();
    let mut i: usize = 0;
    while i < cs.len()
        invariant
            i <= cs.len(),
            cv == comps_view(cs@),
            comps_view(acc@) == norm_comps(cv.take(i as int)),
        decreases cs.len() - i,
    {
        assert(cv.take(i + 1 as int).drop_last() =~= cv.take(i as int));
        assert(cv.take(i + 1 as int).last() == cs@[i as int]@);
        let ghost before = comps_view(acc@);
        match &cs[i] {
            PathComponent::Cur => {},
            PathComponent::Parent => {
                let n = acc.len();
                let pop = n > 0 && match &acc[n - 1] {
                    PathComponent::Root => false,
                    _ => true,
                };
                if pop {
                    acc.pop();
                    assert(comps_view(acc@) =~= before.drop_last());
                } else {
                    acc.push(PathComponent::Parent);
                    assert(comps_view(acc@) =~= before.push(Comp::Parent));
                }
            },
            c => {
                acc.push(copy_component(c));
                assert(comps_view(acc@) =~= before.push(cs@[i as int]@));
            },
        }
        i += 1;
    }
    assert(cv.take(cs.len() as int) =~= cv);
    let n = acc.len();
    let t = render_range(&acc, 0, n);
    assert(comps_view(acc@).subrange(0, n as int) =~= comps_view(acc@));
    string_of(&t)
}

// ---------------------------------------------------------------------------
// Finding the subsystem of a path
// ---------------------------------------------------------------------------

/// Whether a subsystem's (non-empty) path is a prefix of `rel`.
pub open spec fn sub_covers(s: SubsystemView, rel: Seq<char>) -> bool {
    s.file_path.len() > 0 && starts_with(rel, s.file_path)
}

/// The index of the subsystem with the deepest path covering `rel`; the
/// first such on a tie.
pub open spec fn deepest_cover(ss: Seq<SubsystemView>, rel: Seq<char>) -> Option<int>
    decreases ss.len(),
{
    if ss.len() == 0 {
        None
    } else {
        let prev = deepest_cover(ss.drop_last(), rel);
        let i = ss.len() - 1;
        if sub_covers(ss.last(), rel) {
            match prev {
                None => Some(i),
                Some(j) => if components(ss.last().file_path).len() > components(
                    ss[j].file_path,
                ).len() {
                    Some(i)
                } else {
                    Some(j)
                },
            }
        } else {
            prev
        }
    }
}

pub proof fn lemma_deepest_cover_bound(ss: Seq<SubsystemView>, rel: Seq<char>)
    ensures
        deepest_cover(ss, rel) matches Some(j) ==> 0 <= j < ss.len(),
    decreases ss.len(),
{
    if ss.len() > 0 {
        lemma_deepest_cover_bound(ss.drop_last(), rel);
    }
}

/// The id of the subsystem a relative path belongs to.
pub open spec fn spec_subsystem_for_path(ss: Seq<SubsystemView>, rel: Seq<char>) -> Option<Seq<char>> {
    match deepest_cover(ss, rel) {
        Some(j) => Some(ss[j].id),
        None => None,
    }
}

/// Finds the subsystem a relative file path belongs to: the one with the
/// deepest non-empty path that is a component prefix of it.
pub fn find_subsystem_for_path(rel_path: &str, subsystems: &Vec<ManifestSubsystem>) -> (r: Option<
    String,
>)
    ensures
        match r {
            Some(id) => spec_subsystem_for_path(subs_view(subsystems@), rel_path@) == Some(id@),
            None => spec_subsystem_for_path(subs_view(subsystems@), rel_path@) is None,
        },
{
    let ghost sv = subs_view(subsystems@);
    proof {
        lemma_subs_view_len(subsystems@);
    }
    let mut best: Option<usize> = None;
    let mut best_depth: usize = 0;
    let mut i: usize = 0;
    while i < subsystems.len()
        invariant
            i <= subsystems.len(),
            sv == subs_view(subsystems@),
            sv.len() == subsystems@.len(),
            best == match deepest_cover(sv.take(i as int), rel_path@) {
                None => None::<usize>,
                Some(j) => Some(j as usize),
            },
            deepest_cover(sv.take(i as int), rel_path@) matches Some(j) ==> 0 <= j < i
                && best_depth == components(sv[j].file_path).len(),
        decreases subsystems.len() - i,
    {
        let sub = &subsystems[i];
        proof {
            lemma_subs_view_index(subsystems@, i as int);
            assert(sv.take(i + 1 as int).drop_last() =~= sv.take(i as int));
            assert(sv.take(i + 1 as int).last() == sub@);
            lemma_deepest_cover_bound(sv.take(i as int), rel_path@);
        }
        if !sub.file_path.as_str().is_empty() && path_starts_with(rel_path, sub.file_path.as_str()) {
            let depth = crate::path::path_component_count(sub.file_path.as_str());
            match best {
                None => {
                    best = Some(i);
                    best_depth = depth;
                },
                Some(j) => {
                    assert(sv.take(i as int)[j as int] == sv[j as int]);
                    if depth > best_depth {
                        best = Some(i);
                        best_depth = depth;
                    }
                },
            }
        }
        i += 1;
    }
    assert(sv.take(subsystems.len() as int) =~= sv);
    match best {
        Some(j) => {
            proof {
                lemma_subs_view_index(subsystems@, j as int);
            }
            Some(copy_string(&subsystems[j].id))
        },
        None => None,
    }
}

// ---------------------------------------------------------------------------
// Unique ids
// ---------------------------------------------------------------------------

/// The `k`-th id tried for `base`: `base` itself, then `base-2`, `base-3`, ...
pub open spec fn id_candidate(base: Seq<char>, k: nat) -> Seq<char> {
    if k <= 1 {
        base
    } else {
        base + seq!['-'] + dec(k)
    }
}

/// `k` is the first position whose candidate is not taken.
pub open spec fn is_least_free(base: Seq<char>, seen: Seq<Seq<char>>, k: nat) -> bool {
    &&& k >= 1
    &&& !seen.contains(id_candidate(base, k))
    &&& forall|j: nat| 1 <= j < k ==> seen.contains(#[trigger] id_candidate(base, j))
}

pub open spec fn least_free(base: Seq<char>, seen: Seq<Seq<char>>) -> nat {
    choose|k: nat| is_least_free(base, seen, k)
}

/// The id `make_unique_id` hands out for `base` when `seen` is taken.
pub open spec fn spec_unique_id(base: Seq<char>, seen: Seq<Seq<char>>) -> Seq<char> {
    id_candidate(base, least_free(base, seen))
}

pub proof fn lemma_candidate_injective(base: Seq<char>, a: nat, b: nat)
    requires
        a >= 1,
        b >= 1,
        id_candidate(base, a) == id_candidate(base, b),
    ensures
        a == b,
{
    lemma_dec_len(a);
    lemma_dec_len(b);
    if a >= 2 && b >= 2 {
        let n: int = base.len() + 1int;
        assert(id_candidate(base, a).skip(n) =~= dec(a));
        assert(id_candidate(base, b).skip(n) =~= dec(b));
        lemma_dec_injective(a, b);
    } else if a >= 2 || b >= 2 {
        assert(id_candidate(base, a).len() != id_candidate(base, b).len());
    }
}

/// At most `seen.len()` candidates can be taken.
pub proof fn lemma_candidates_bound(base: Seq<char>, seen: Seq<Seq<char>>, m: nat)
    requires
        forall|j: nat| 1 <= j <= m ==> seen.contains(#[trigger] id_candidate(base, j)),
    ensures
        m <= seen.len(),
{
    broadcast use vstd::seq_lib::seq_to_set_is_finite;

    let x = vstd::set_lib::set_int_range(1, m + 1 as int);
    let f = |j: int| id_candidate(base, j as nat);
    vstd::set_lib::lemma_int_range(1, m + 1 as int);
    assert(vstd::relations::injective_on(f, x)) by {
        assert forall|a: int, b: int| x.contains(a) && x.contains(b) && #[trigger] f(a) == #[trigger] f(b) implies a == b by {
            lemma_candidate_injective(base, a as nat, b as nat);
        }
    }
    let y = x.map(f);
    vstd::set_lib::lemma_map_size(x, y, f);
    assert(y.subset_of(seen.to_set())) by {
        assert forall|v: Seq<char>| y.contains(v) implies seen.to_set().contains(v) by {
            let j = choose|j: int| x.contains(j) && f(j) == v;
            assert(seen.contains(id_candidate(base, j as nat)));
        }
    }
    seen.lemma_cardinality_of_set();
    vstd::set_lib::lemma_len_subset(y, seen.to_set());
}

pub proof fn lemma_least_free_unique(base: Seq<char>, seen: Seq<Seq<char>>, k: nat)
    requires
        is_least_free(base, seen, k),
    ensures
        least_free(base, seen) == k,
{
    let c = least_free(base, seen);
    assert(is_least_free(base, seen, c));
    if c < k {
        assert(seen.contains(id_candidate(base, c)));
    } else if k < c {
        assert(seen.contains(id_candidate(base, k)));
    }
}

/// Makes an id unique: the first of `base`, `base-2`, `base-3`, ... not in
/// `seen`, which is then added to `seen`.
pub fn make_unique_id(base: &str, seen: &mut Vec<String>) -> (r: String)
    requires
        old(seen)@.len() + 2 < usize::MAX,
    ensures
        r@ == spec_unique_id(base@, strs(old(seen)@)),
        !strs(old(seen)@).contains(r@),
        final(seen)@ == old(seen)@.push(r),
{
    let ghost sv = strs(seen@);
    let mut id = string_of(&chars_of(base));
    let mut counter: usize = 2;
    while crate::manifest::strings_contain(seen, &id)
        invariant
            2 <= counter <= seen@.len() + 2,
            seen@.len() + 2 < usize::MAX,
            sv == strs(seen@),
            id@ == id_candidate(base@, (counter - 1) as nat),
            forall|j: nat| 1 <= j < counter - 1 ==> sv.contains(#[trigger] id_candidate(base@, j)),
        decreases seen@.len() + 2 - counter,
    {
        proof {
            lemma_candidates_bound(base@, sv, (counter - 1) as nat);
        }
        let mut next = string_of(&chars_of(base));
        next.push('-');
        let digits = decimal(counter as u64);
        crate::text::append_str(&mut next, digits.as_str());
        assert(next@ =~= id_candidate(base@, counter as nat));
        id = next;
        counter += 1;
    }
    proof {
        assert(is_least_free(base@, sv, (counter - 1) as nat));
        lemma_least_free_unique(base@, sv, (counter - 1) as nat);
    }
    seen.push(copy_string(&id));
    id
}

// ---------------------------------------------------------------------------
// Common path prefix
// ---------------------------------------------------------------------------

/// The paths of `files` relative to `root`, for the files under it.
pub open spec fn rel_paths(files: Seq<Seq<char>>, root: Seq<char>) -> Seq<Seq<char>>
    decreases files.len(),
{
    if files.len() == 0 {
        Seq::empty()
    } else {
        match strip_prefix(files.last(), root) {
            Some(r) => rel_paths(files.drop_last(), root).push(r),
            None => rel_paths(files.drop_last(), root),
        }
    }
}

/// The length of the longest common prefix of two component sequences.
pub open spec fn common_len(a: Seq<Comp>, b: Seq<Comp>) -> nat
    decreases a.len(),
{
    if a.len() == 0 || b.len() == 0 || a[0] != b[0] {
        0
    } else {
        1 + common_len(a.drop_first(), b.drop_first())
    }
}

/// Narrowing `common` by the parents of `rest`, in order; empty as soon as
/// one of them has no parent.
pub open spec fn narrow_common(common: Seq<char>, rest: Seq<Seq<char>>) -> Seq<char>
    decreases rest.len(),
{
    if rest.len() == 0 {
        common
    } else {
        match parent(rest[0]) {
            None => Seq::empty(),
            Some(p) => {
                let cc = components(common);
                narrow_common(
                    render(cc.take(common_len(cc, components(p)) as int)),
                    rest.drop_first(),
                )
            },
        }
    }
}

/// The common directory of `files` relative to `root`: empty for no files,
/// `.` when none lies under the root or the directories share nothing, and
/// otherwise the longest common component prefix of their parent
/// directories (empty when the first relative path has no parent).
pub open spec fn spec_common_prefix(files: Seq<Seq<char>>, root: Seq<char>) -> Seq<char> {
    if files.len() == 0 {
        Seq::empty()
    } else {
        let rels = rel_paths(files, root);
        if rels.len() == 0 {
            seq!['.']
        } else {
            match parent(rels[0]) {
                None => Seq::empty(),
                Some(c0) => {
                    let c = narrow_common(c0, rels.drop_first());
                    if c.len() == 0 {
                        seq!['.']
                    } else {
                        c
                    }
                },
            }
        }
    }
}

fn common_len_exec(a: &Vec<PathComponent>, b: &Vec<PathComponent>) -> (n: usize)
    ensures
        n == common_len(comps_view(a@), comps_view(b@)),
        n <= a.len(),
{
    let ghost av = comps_view(a@);
    let ghost bv = comps_view(b@);
    let mut i: usize = 0;
    assert(av.skip(0) =~= av);
    assert(bv.skip(0) =~= bv);
    while i < a.len() && i < b.len() && comp_eq(&a[i], &b[i])
        invariant
            i <= a.len(),
            i <= b.len(),
            av == comps_view(a@),
            bv == comps_view(b@),
            common_len(av, bv) == i + common_len(av.skip(i as int), bv.skip(i as int)),
        decreases a.len() - i,
    {
        proof {
            assert(av.skip(i as int)[0] == av[i as int]);
            assert(bv.skip(i as int)[0] == bv[i as int]);
            assert(av.skip(i as int).drop_first() =~= av.skip(i + 1 as int));
            assert(bv.skip(i as int).drop_first() =~= bv.skip(i + 1 as int));
        }
        i += 1;
    }
    proof {
        if i < a.len() && i < b.len() {
            assert(av.skip(i as int)[0] == av[i as int]);
            assert(bv.skip(i as int)[0] == bv[i as int]);
        }
    }
    i
}

/// Computes the common directory prefix of a set of files, relative to
/// `root`.
pub fn compute_common_prefix(files: &Vec<String>, root: &str) -> (r: String)
    ensures
        r@ == spec_common_prefix(strs(files@), root@),
{
    let ghost fv = strs(files@);
    if files.len() == 0 {
        return String::new();
    }
    let mut rels: Vec<String> = Vec::new();
    let mut i: usize = 0;
    while i < files.len()
        invariant
            i <= files.len(),
            fv == strs(files@),
            strs(rels@) == rel_paths(fv.take(i as int), root@),
        decreases files.len() - i,
    {
        assert(fv.take(i + 1 as int).drop_last() =~= fv.take(i as int));
        assert(fv.take(i + 1 as int).last() == files@[i as int]@);
        let ghost before = strs(rels@);
        match path_strip_prefix(files[i].as_str(), root) {
            Some(rel) => {
                rels.push(rel);
                assert(strs(rels@) =~= before.push(rels@.last()@));
            },
            None => {},
        }
        i += 1;
    }
    assert(fv.take(files.len() as int) =~= fv);
    let ghost rv = strs(rels@);
    if rels.len() == 0 {
        return string_of_dot();
    }
    let mut common = match path_parent(rels[0].as_str()) {
        Some(p) => p,
        None => {
            return String::new();
        },
    };
    let ghost target = narrow_common(common@, rv.drop_first());
    let mut k: usize = 1;
    assert(rv.skip(1) =~= rv.drop_first());
    assert(spec_common_prefix(strs(files@), root@) == (if target.len() == 0 {
        seq!['.']
    } else {
        target
    }));
    while k < rels.len()
        invariant
            1 <= k <= rels.len(),
            rv == strs(rels@),
            spec_common_prefix(strs(files@), root@) == (if target.len() == 0 {
                seq!['.']
            } else {
                target
            }),
            narrow_common(common@, rv.skip(k as int)) == target,
        decreases rels.len() - k,
    {
        assert(rv.skip(k as int)[0] == rels@[k as int]@);
        assert(rv.skip(k as int).drop_first() =~= rv.skip(k + 1 as int));
        let parent_dir = match path_parent(rels[k].as_str()) {
            Some(p) => p,
            None => {
                assert(target == Seq::<char>::empty());
                return string_of_dot();
            },
        };
        let cc = components_of(&chars_of(common.as_str()));
        let pc = components_of(&chars_of(parent_dir.as_str()));
        let shared = common_len_exec(&cc, &pc);
        let t = render_range(&cc, 0, shared);
        assert(comps_view(cc@).subrange(0, shared as int) =~= comps_view(cc@).take(shared as int));
        common = string_of(&t);
        k += 1;
    }
    assert(rv.skip(k as int) =~= Seq::<Seq<char>>::empty());
    assert(common@ == target);
    if common.as_str().is_empty() {
        string_of_dot()
    } else {
        common
    }
}

fn string_of_dot() -> (r: String)
    ensures
        r@ == seq!['.'],
{
    let mut r = String::new();
    r.push('.');
    assert(r@ =~= seq!['.']);
    r
}

// ---------------------------------------------------------------------------
// Resolving imports
// ---------------------------------------------------------------------------

/// Import path segments that carry no subsystem name.
pub open spec fn is_filler_part(p: Seq<char>) -> bool {
    ||| p == "crate"@
    ||| p == "super"@
    ||| p == "self"@
    ||| p == "@"@
    ||| p == "src"@
    ||| p == "lib"@
}

/// `ps` without the filler parts, in order.
pub open spec fn meaningful(ps: Seq<Seq<char>>) -> Seq<Seq<char>>
    decreases ps.len(),
{
    if ps.len() == 0 {
        Seq::empty()
    } else if is_filler_part(ps.last()) {
        meaningful(ps.drop_last())
    } else {
        meaningful(ps.drop_last()).push(ps.last())
    }
}

/// The meaningful segments of an import source: the non-empty pieces
/// between `/` and `:`, fillers left out.
pub open spec fn import_parts(source: Seq<char>) -> Seq<Seq<char>> {
    meaningful(drop_empty(split_any(source, seq!['/', ':'])))
}

/// `s` with every `a` replaced by `b`.
pub open spec fn replace_char(s: Seq<char>, a: char, b: char) -> Seq<char> {
    s.map_values(|c: char| if c == a { b } else { c })
}

/// The non-empty segments of a path between `/` and `\`.
pub open spec fn path_words(p: Seq<char>) -> Seq<Seq<char>> {
    drop_empty(split_any(p, seq!['/', '\\']))
}

/// Whether the (lowercased) import segment `pl` names subsystem `s`: its
/// lowercased id, its lowercased name with spaces as `-` or `_`, or a
/// lowercased segment of its path.
pub open spec fn part_names(pl: Seq<char>, s: SubsystemView) -> bool {
    ||| lowercase(s.id) == pl
    ||| replace_char(lowercase(s.name), ' ', '-') == pl
    ||| replace_char(lowercase(s.name), ' ', '_') == pl
    ||| (s.file_path.len() > 0 && exists|k: int|
        0 <= k < path_words(s.file_path).len() && lowercase(#[trigger] path_words(s.file_path)[k])
            == pl)
}

/// The first subsystem a segment names.
pub open spec fn first_named(pl: Seq<char>, ss: Seq<SubsystemView>) -> Option<int>
    decreases ss.len(),
{
    if ss.len() == 0 {
        None
    } else if part_names(pl, ss[0]) {
        Some(0)
    } else {
        match first_named(pl, ss.drop_first()) {
            None => None,
            Some(j) => Some(j + 1),
        }
    }
}

pub proof fn lemma_first_named(pl: Seq<char>, ss: Seq<SubsystemView>)
    ensures
        match first_named(pl, ss) {
            None => forall|k: int| 0 <= k < ss.len() ==> !part_names(pl, #[trigger] ss[k]),
            Some(j) => 0 <= j < ss.len() && part_names(pl, ss[j]) && forall|k: int|
                0 <= k < j ==> !part_names(pl, #[trigger] ss[k]),
        },
    decreases ss.len(),
{
    if ss.len() > 0 && !part_names(pl, ss[0]) {
        lemma_first_named(pl, ss.drop_first());
        assert forall|k: int| 1 <= k < ss.len() implies ss[k] == ss.drop_first()[k - 1] by {}
    }
}

/// The subsystem named by the first segment that names any.
pub open spec fn resolve_by_name(parts: Seq<Seq<char>>, ss: Seq<SubsystemView>) -> Option<Seq<char>>
    decreases parts.len(),
{
    if parts.len() == 0 {
        None
    } else {
        match first_named(lowercase(parts[0]), ss) {
            Some(j) => Some(ss[j].id),
            None => resolve_by_name(parts.drop_first(), ss),
        }
    }
}

/// Where an import resolves: a relative source (starting with `.`) is
/// joined to the importing file's directory, normalized, made relative to
/// the root and looked up by path; any other source is looked up by the
/// names of its segments.
pub open spec fn spec_resolve_import(
    source: Seq<char>,
    importing_file: Seq<char>,
    ss: Seq<SubsystemView>,
    root: Seq<char>,
) -> Option<Seq<char>> {
    if source.len() > 0 && source[0] == '.' {
        match parent(importing_file) {
            None => None,
            Some(dir) => {
                let normalized = spec_normalize(crate::path::join(dir, source));
                let rel = match strip_prefix(normalized, root) {
                    Some(r) => r,
                    None => normalized,
                };
                spec_subsystem_for_path(ss, rel)
            },
        }
    } else {
        resolve_by_name(import_parts(source), ss)
    }
}

fn is_filler(p: &str) -> (r: bool)
    ensures
        r == is_filler_part(p@),
{
    str_eq(p, "crate") || str_eq(p, "super") || str_eq(p, "self") || str_eq(p, "@") || str_eq(
        p,
        "src",
    ) || str_eq(p, "lib")
}

fn replace_chars(s: &str, a: char, b: char) -> (r: String)
    ensures
        r@ == replace_char(s@, a, b),
{
    let v = chars_of(s);
    let mut r = String::new();
    let mut i: usize = 0;
    while i < v.len()
        invariant
            i <= v.len(),
            v@ == s@,
            r@ == replace_char(s@.take(i as int), a, b),
        decreases v.len() - i,
    {
        if v[i] == a {
            r.push(b);
        } else {
            r.push(v[i]);
        }
        i += 1;
        assert(r@ =~= replace_char(s@.take(i as int), a, b));
    }
    assert(s@.take(v.len() as int) =~= s@);
    r
}

/// The non-empty pieces of `s` between any of the characters of `seps`.
fn words_of(s: &str, seps: &Vec<char>) -> (r: Vec<String>)
    ensures
        strs(r@) == drop_empty(split_any(s@, seps@)),
{
    let ps = drop_empty_pieces(split_any_chars(&chars_of(s), seps));
    let ghost pv = char_vecs(ps@);
    let mut r: Vec<String> = Vec::new();
    let mut i: usize = 0;
    while i < ps.len()
        invariant
            i <= ps.len(),
            pv == char_vecs(ps@),
            strs(r@) == pv.take(i as int),
        decreases ps.len() - i,
    {
        let ghost before = strs(r@);
        assert(pv[i as int] == ps@[i as int]@);
        r.push(string_of(&ps[i]));
        assert(strs(r@) =~= before.push(pv[i as int]));
        i += 1;
        assert(strs(r@) =~= pv.take(i as int));
    }
    assert(pv.take(ps.len() as int) =~= pv);
    r
}

fn names_part(pl: &String, s: &ManifestSubsystem) -> (r: bool)
    ensures
        r == part_names(pl@, s@),
{
    let il = crate::text::to_lowercase(s.id.as_str());
    if str_eq(il.as_str(), pl.as_str()) {
        return true;
    }
    let nl = crate::text::to_lowercase(s.name.as_str());
    let dashed = replace_chars(nl.as_str(), ' ', '-');
    if str_eq(dashed.as_str(), pl.as_str()) {
        return true;
    }
    let underscored = replace_chars(nl.as_str(), ' ', '_');
    if str_eq(underscored.as_str(), pl.as_str()) {
        return true;
    }
    if s.file_path.as_str().is_empty() {
        return false;
    }
    let mut seps: Vec<char> = Vec::new();
    seps.push('/');
    seps.push('\\');
    assert(seps@ =~= seq!['/', '\\']);
    let words = words_of(s.file_path.as_str(), &seps);
    let ghost wv = strs(words@);
    let mut k: usize = 0;
    while k < words.len()
        invariant
            k <= words.len(),
            wv == strs(words@),
            wv == path_words(s.file_path@),
            s.file_path@.len() > 0,
            forall|q: int| 0 <= q < k ==> lowercase(#[trigger] wv[q]) != pl@,
        decreases words.len() - k,
    {
        let wl = crate::text::to_lowercase(words[k].as_str());
        assert(wv[k as int] == words@[k as int]@);
        if str_eq(wl.as_str(), pl.as_str()) {
            assert(lowercase(path_words(s.file_path@)[k as int]) == pl@);
            return true;
        }
        k += 1;
    }
    false
}

/// Tries to resolve an import source to a subsystem id: relative imports
/// (`./auth/handler`) by path from the importing file, package and crate
/// imports (`@myapp/auth`, `crate::auth::handler`) by segment names.
pub fn resolve_import_to_subsystem(
    source: &str,
    importing_file: &str,
    subsystems: &Vec<ManifestSubsystem>,
    root: &str,
) -> (r: Option<String>)
    ensures
        match r {
            Some(id) => spec_resolve_import(source@, importing_file@, subs_view(subsystems@), root@)
                == Some(id@),
            None => spec_resolve_import(source@, importing_file@, subs_view(subsystems@), root@) is None,
        },
{
    let ghost sv = subs_view(subsystems@);
    let sc = chars_of(source);
    if sc.len() > 0 && sc[0] == '.' {
        let dir = match path_parent(importing_file) {
            Some(d) => d,
            None => {
                return None;
            },
        };
        let resolved = crate::path::path_join(dir.as_str(), source);
        let normalized = normalize_path(resolved.as_str());
        let rel = match path_strip_prefix(normalized.as_str(), root) {
            Some(r) => r,
            None => normalized,
        };
        return find_subsystem_for_path(rel.as_str(), subsystems);
    }
    let mut seps: Vec<char> = Vec::new();
    seps.push('/');
    seps.push(':');
    assert(seps@ =~= seq!['/', ':']);
    let pieces = words_of(source, &seps);
    let ghost pv = strs(pieces@);
    let mut parts: Vec<String> = Vec::new();
    let mut i: usize = 0;
    while i < pieces.len()
        invariant
            i <= pieces.len(),
            pv == strs(pieces@),
            strs(parts@) == meaningful(pv.take(i as int)),
        decreases pieces.len() - i,
    {
        assert(pv.take(i + 1 as int).drop_last() =~= pv.take(i as int));
        assert(pv.take(i + 1 as int).last() == pieces@[i as int]@);
        if !is_filler(pieces[i].as_str()) {
            let ghost before = strs(parts@);
            parts.push(copy_string(&pieces[i]));
            assert(strs(parts@) =~= before.push(pieces@[i as int]@));
        }
        i += 1;
    }
    assert(pv.take(pieces.len() as int) =~= pv);
    let ghost partv = strs(parts@);
    proof {
        lemma_subs_view_len(subsystems@);
        assert(partv.skip(0) =~= partv);
    }
    let mut p: usize = 0;
    while p < parts.len()
        invariant
            p <= parts.len(),
            partv == strs(parts@),
            partv == import_parts(source@),
            sv == subs_view(subsystems@),
            sv.len() == subsystems@.len(),
            !(source@.len() > 0 && source@[0] == '.'),
            resolve_by_name(partv, sv) == resolve_by_name(partv.skip(p as int), sv),
        decreases parts.len() - p,
    {
        let pl = crate::text::to_lowercase(parts[p].as_str());
        assert(partv.skip(p as int)[0] == parts@[p as int]@);
        assert(partv.skip(p as int).drop_first() =~= partv.skip(p + 1 as int));
        let mut j: usize = 0;
        while j < subsystems.len()
            invariant
                j <= subsystems.len(),
                p < parts.len(),
                partv == strs(parts@),
                pl@ == lowercase(parts@[p as int]@),
                partv.skip(p as int)[0] == parts@[p as int]@,
                partv == import_parts(source@),
                !(source@.len() > 0 && source@[0] == '.'),
                resolve_by_name(partv, sv) == resolve_by_name(partv.skip(p as int), sv),
                sv == subs_view(subsystems@),
                sv.len() == subsystems@.len(),
                forall|q: int| 0 <= q < j ==> !part_names(pl@, #[trigger] sv[q]),
            decreases subsystems.len() - j,
        {
            proof {
                lemma_subs_view_index(subsystems@, j as int);
            }
            if names_part(&pl, &subsystems[j]) {
                proof {
                    lemma_first_named(pl@, sv);
                    assert(first_named(pl@, sv) == Some(j as int));
                    assert(lowercase(partv.skip(p as int)[0]) == pl@);
                    assert(resolve_by_name(partv.skip(p as int), sv) == Some(sv[j as int].id));
                }
                return Some(copy_string(&subsystems[j].id));
            }
            j += 1;
        }
        proof {
            lemma_first_named(pl@, sv);
        }
        p += 1;
    }
    assert(partv.skip(p as int) =~= Seq::<Seq<char>>::empty());
    None
}

// ---------------------------------------------------------------------------
// Grouping files by directory
// ---------------------------------------------------------------------------

/// The names of the normal components of a path, in order.
pub open spec fn normal_names(cs: Seq<Comp>) -> Seq<Seq<char>>
    decreases cs.len(),
{
    if cs.len() == 0 {
        Seq::empty()
    } else {
        match cs.last() {
            Comp::Normal(t) => normal_names(cs.drop_last()).push(t),
            _ => normal_names(cs.drop_last()),
        }
    }
}

/// The (domain, subsystem) directory pair for the normal components of a
/// path relative to the root:
/// - no or one component: domain `_root`, subsystem the component or `_root`;
/// - two: both the first component;
/// - more, under a workspace directory or `src`/`lib`/`app`: the second
///   component is the domain, and the subsystem is the fourth component
///   when the third is a source root and there are more than four, the
///   second when the third is a source root, the third otherwise (the
///   second when there are exactly three);
/// - more, otherwise: the first two components.
pub open spec fn dir_key(c: Seq<Seq<char>>) -> (Seq<char>, Seq<char>) {
    if c.len() <= 1 {
        ("_root"@, if c.len() == 1 { c[0] } else { "_root"@ })
    } else if c.len() == 2 {
        (c[0], c[0])
    } else if spec_is_workspace_dir(c[0]) || spec_is_source_root(c[0]) {
        let subsys = if c.len() > 3 {
            if spec_is_source_root(c[2]) && c.len() > 4 {
                c[3]
            } else if spec_is_source_root(c[2]) {
                c[1]
            } else {
                c[2]
            }
        } else {
            c[1]
        };
        (c[1], subsys)
    } else {
        (c[0], c[1])
    }
}

/// Where a file is grouped, if it lies under the root.
pub open spec fn file_key(root: Seq<char>, path: Seq<char>) -> Option<(Seq<char>, Seq<char>)> {
    match strip_prefix(path, root) {
        None => None,
        Some(rel) => Some(dir_key(normal_names(components(rel)))),
    }
}

/// Inserting into a list of entries kept in increasing order of their
/// distinct keys: the entry with `key` is updated with `upd`, or a `fresh`
/// one is inserted in its place in the order.
pub open spec fn ins_sorted<V>(
    list: Seq<(Seq<char>, V)>,
    key: Seq<char>,
    fresh: V,
    upd: spec_fn(V) -> V,
) -> Seq<(Seq<char>, V)>
    decreases list.len(),
{
    if list.len() == 0 {
        seq![(key, fresh)]
    } else if list[0].0 == key {
        seq![(key, upd(list[0].1))] + list.drop_first()
    } else if crate::text::seq_lt(key, list[0].0) {
        seq![(key, fresh)] + list
    } else {
        seq![list[0]] + ins_sorted(list.drop_first(), key, fresh, upd)
    }
}

/// The result of inserting at the first position whose key is not smaller.
pub proof fn lemma_ins_sorted_at<V>(
    list: Seq<(Seq<char>, V)>,
    key: Seq<char>,
    fresh: V,
    upd: spec_fn(V) -> V,
    i: int,
)
    requires
        0 <= i <= list.len(),
        forall|k: int| 0 <= k < i ==> crate::text::seq_lt(#[trigger] list[k].0, key),
        i < list.len() ==> !crate::text::seq_lt(list[i].0, key),
    ensures
        ins_sorted(list, key, fresh, upd) == list.take(i) + (if i < list.len() && list[i].0 == key {
            seq![(key, upd(list[i].1))] + list.skip(i + 1)
        } else {
            seq![(key, fresh)] + list.skip(i)
        }),
    decreases i,
{
    if i == 0 {
        assert(list.take(0) =~= Seq::<(Seq<char>, V)>::empty());
        assert(list.skip(0) =~= list);
        if list.len() > 0 {
            assert(list.skip(1) =~= list.drop_first());
            if list[0].0 != key {
                crate::text::lemma_seq_lt_total(list[0].0, key);
            }
        }
    } else {
        crate::text::lemma_seq_lt_asymmetric(list[0].0, key);
        let t = list.drop_first();
        assert forall|k: int| 0 <= k < i - 1 implies crate::text::seq_lt(#[trigger] t[k].0, key) by {
            assert(t[k] == list[k + 1]);
        }
        lemma_ins_sorted_at(t, key, fresh, upd, i - 1);
        assert(t.skip(i - 1) =~= list.skip(i));
        if i < list.len() {
            assert(t.skip(i) =~= list.skip(i + 1));
        }
        assert(list.take(i) =~= seq![list[0]] + t.take(i - 1));
    }
}

/// The files of one subsystem directory.
pub open spec fn ins_file(list: Seq<(Seq<char>, Seq<Seq<char>>)>, key: Seq<char>, f: Seq<char>) -> Seq<
    (Seq<char>, Seq<Seq<char>>),
> {
    ins_sorted(list, key, seq![f], |v: Seq<Seq<char>>| v.push(f))
}

/// A file recorded under its domain and subsystem directories.
pub open spec fn ins_group(
    g: Seq<(Seq<char>, Seq<(Seq<char>, Seq<Seq<char>>)>)>,
    d: Seq<char>,
    s: Seq<char>,
    f: Seq<char>,
) -> Seq<(Seq<char>, Seq<(Seq<char>, Seq<Seq<char>>)>)> {
    ins_sorted(
        g,
        d,
        seq![(s, seq![f])],
        |v: Seq<(Seq<char>, Seq<Seq<char>>)>| ins_file(v, s, f),
    )
}

/// The files grouped by (domain, subsystem) directory, both levels in
/// increasing key order, files in scan order; files outside the root are
/// left out.
pub open spec fn group_paths(root: Seq<char>, paths: Seq<Seq<char>>) -> Seq<
    (Seq<char>, Seq<(Seq<char>, Seq<Seq<char>>)>),
>
    decreases paths.len(),
{
    if paths.len() == 0 {
        Seq::empty()
    } else {
        let g = group_paths(root, paths.drop_last());
        match file_key(root, paths.last()) {
            None => g,
            Some((d, s)) => ins_group(g, d, s, paths.last()),
        }
    }
}

/// The paths of the scanned files, in order.
pub open spec fn file_paths(files: Seq<crate::ir::IrFile>) -> Seq<Seq<char>> {
    files.map_values(|f: crate::ir::IrFile| f.path@)
}

/// The files of one subsystem directory.
pub struct SubGroup {
    pub name: String,
    pub files: Vec<String>,
}

/// The subsystem directories of one domain directory.
pub struct DomainGroup {
    pub domain: String,
    pub subsystems: Vec<SubGroup>,
}

impl View for SubGroup {
    type V = (Seq<char>, Seq<Seq<char>>);

    open spec fn view(&self) -> (Seq<char>, Seq<Seq<char>>) {
        (self.name@, strs(self.files@))
    }
}

pub open spec fn sub_groups_view(v: Seq<SubGroup>) -> Seq<(Seq<char>, Seq<Seq<char>>)> {
    v.map_values(|x: SubGroup| x@)
}

impl View for DomainGroup {
    type V = (Seq<char>, Seq<(Seq<char>, Seq<Seq<char>>)>);

    open spec fn view(&self) -> (Seq<char>, Seq<(Seq<char>, Seq<Seq<char>>)>) {
        (self.domain@, sub_groups_view(self.subsystems@))
    }
}

pub open spec fn groups_view(v: Seq<DomainGroup>) -> Seq<(Seq<char>, Seq<(Seq<char>, Seq<Seq<char>>)>)> {
    v.map_values(|x: DomainGroup| x@)
}

/// `name < key` in the order of `String`.
fn name_lt(name: &String, key: &Vec<char>) -> (r: bool)
    ensures
        r == crate::text::seq_lt(name@, key@),
{
    crate::text::chars_lt(&chars_of(name.as_str()), key)
}

fn insert_file(list: &mut Vec<SubGroup>, key: &String, f: &String)
    ensures
        sub_groups_view(final(list)@) == ins_file(sub_groups_view(old(list)@), key@, f@),
{
    let ghost lv = sub_groups_view(list@);
    let kc = chars_of(key.as_str());
    let mut i: usize = 0;
    while i < list.len() && name_lt(&list[i].name, &kc)
        invariant
            i <= list.len(),
            list@ == old(list)@,
            lv == sub_groups_view(list@),
            kc@ == key@,
            forall|k: int| 0 <= k < i ==> crate::text::seq_lt(#[trigger] lv[k].0, key@),
        decreases list.len() - i,
    {
        assert(lv[i as int].0 == list@[i as int].name@);
        i += 1;
    }
    proof {
        if i < list.len() {
            assert(lv[i as int].0 == list@[i as int].name@);
        }
    }
    if i < list.len() && str_eq(list[i].name.as_str(), key.as_str()) {
        let mut g = list.remove(i);
        let ghost gv = g@;
        g.files.push(copy_string(f));
        assert(strs(g.files@) =~= gv.1.push(f@));
        list.insert(i, g);
        assert(sub_groups_view(list@) =~= lv.take(i as int) + (seq![(key@, lv[i as int].1.push(f@))]
            + lv.skip(i + 1 as int)));
    } else {
        let mut files: Vec<String> = Vec::new();
        files.push(copy_string(f));
        assert(strs(files@) =~= seq![f@]);
        list.insert(i, SubGroup { name: copy_string(key), files });
        assert(sub_groups_view(list@) =~= lv.take(i as int) + (seq![(key@, seq![f@])] + lv.skip(
            i as int,
        )));
    }
    proof {
        lemma_ins_sorted_at(lv, key@, seq![f@], |v: Seq<Seq<char>>| v.push(f@), i as int);
    }
}

fn insert_group(groups: &mut Vec<DomainGroup>, d: &String, sub: &String, f: &String)
    ensures
        groups_view(final(groups)@) == ins_group(groups_view(old(groups)@), d@, sub@, f@),
{
    let ghost gv = groups_view(groups@);
    let kc = chars_of(d.as_str());
    let mut i: usize = 0;
    while i < groups.len() && name_lt(&groups[i].domain, &kc)
        invariant
            i <= groups.len(),
            groups@ == old(groups)@,
            gv == groups_view(groups@),
            kc@ == d@,
            forall|k: int| 0 <= k < i ==> crate::text::seq_lt(#[trigger] gv[k].0, d@),
        decreases groups.len() - i,
    {
        assert(gv[i as int].0 == groups@[i as int].domain@);
        i += 1;
    }
    proof {
        if i < groups.len() {
            assert(gv[i as int].0 == groups@[i as int].domain@);
        }
    }
    if i < groups.len() && str_eq(groups[i].domain.as_str(), d.as_str()) {
        let mut g = groups.remove(i);
        let ghost before = g@;
        insert_file(&mut g.subsystems, sub, f);
        groups.insert(i, g);
        assert(groups_view(groups@) =~= gv.take(i as int) + (seq![(d@, ins_file(gv[i as int].1, sub@, f@))]
            + gv.skip(i + 1 as int)));
    } else {
        let mut files: Vec<String> = Vec::new();
        files.push(copy_string(f));
        assert(strs(files@) =~= seq![f@]);
        let mut subsystems: Vec<SubGroup> = Vec::new();
        subsystems.push(SubGroup { name: copy_string(sub), files });
        assert(sub_groups_view(subsystems@) =~= seq![(sub@, seq![f@])]);
        groups.insert(i, DomainGroup { domain: copy_string(d), subsystems });
        assert(groups_view(groups@) =~= gv.take(i as int) + (seq![(d@, seq![(sub@, seq![f@])])]
            + gv.skip(i as int)));
    }
    proof {
        lemma_ins_sorted_at(
            gv,
            d@,
            seq![(sub@, seq![f@])],
            |v: Seq<(Seq<char>, Seq<Seq<char>>)>| ins_file(v, sub@, f@),
            i as int,
        );
    }
}

fn normal_names_of(cs: &Vec<PathComponent>) -> (r: Vec<String>)
    ensures
        strs(r@) == normal_names(comps_view(cs@)),
{
    let ghost cv = comps_view(cs@);
    let mut r: Vec<String> = Vec::new();
    let mut i: usize = 0;
    while i < cs.len()
        invariant
            i <= cs.len(),
            cv == comps_view(cs@),
            strs(r@) == normal_names(cv.take(i as int)),
        decreases cs.len() - i,
    {
        assert(cv.take(i + 1 as int).drop_last() =~= cv.take(i as int));
        assert(cv.take(i + 1 as int).last() == cs@[i as int]@);
        match &cs[i] {
            PathComponent::Normal(t) => {
                let ghost before = strs(r@);
                r.push(string_of(t));
                assert(strs(r@) =~= before.push(t@));
            },
            _ => {},
        }
        i += 1;
    }
    assert(cv.take(cs.len() as int) =~= cv);
    r
}

fn root_word() -> (r: String)
    ensures
        r@ == "_root"@,
{
    string_of(&chars_of("_root"))
}

/// The (domain, subsystem) directories a file is grouped under.
pub fn dir_key_of(c: &Vec<String>) -> (r: (String, String))
    ensures
        (r.0@, r.1@) == dir_key(strs(c@)),
{
    let n = c.len();
    let ghost cv = strs(c@);
    if n <= 1 {
        let s = if n == 1 {
            copy_string(&c[0])
        } else {
            root_word()
        };
        (root_word(), s)
    } else if n == 2 {
        (copy_string(&c[0]), copy_string(&c[0]))
    } else if is_workspace_dir(c[0].as_str()) || is_source_root(c[0].as_str()) {
        let subsys = if n > 3 {
            if is_source_root(c[2].as_str()) && n > 4 {
                copy_string(&c[3])
            } else if is_source_root(c[2].as_str()) {
                copy_string(&c[1])
            } else {
                copy_string(&c[2])
            }
        } else {
            copy_string(&c[1])
        };
        (copy_string(&c[1]), subsys)
    } else {
        (copy_string(&c[0]), copy_string(&c[1]))
    }
}

/// Groups the scanned files by their domain and subsystem directories
/// relative to the root (see `dir_key`); files outside the root are left
/// out.
pub fn group_files_by_directory(index: &crate::ir::ScanIndex, root: &str) -> (r: Vec<DomainGroup>)
    ensures
        groups_view(r@) == group_paths(root@, file_paths(index.files@)),
{
    let ghost pv = file_paths(index.files@);
    let mut groups: Vec<DomainGroup> = Vec::new();
    let mut i: usize = 0;
    while i < index.files.len()
        invariant
            i <= index.files.len(),
            pv == file_paths(index.files@),
            groups_view(groups@) == group_paths(root@, pv.take(i as int)),
        decreases index.files.len() - i,
    {
        let path = &index.files[i].path;
        assert(pv.take(i + 1 as int).drop_last() =~= pv.take(i as int));
        assert(pv.take(i + 1 as int).last() == path@);
        match path_strip_prefix(path.as_str(), root) {
            Some(rel) => {
                let names = normal_names_of(&components_of(&chars_of(rel.as_str())));
                let (d, s) = dir_key_of(&names);
                insert_group(&mut groups, &d, &s, path);
            },
            None => {},
        }
        i += 1;
    }
    assert(pv.take(index.files.len() as int) =~= pv);
    groups
}

// ---------------------------------------------------------------------------
// Domains and subsystems
// ---------------------------------------------------------------------------

/// The domains inferred from the groups: each domain directory with its
/// label, in order.
pub open spec fn spec_infer_domains(g: Seq<(Seq<char>, Seq<(Seq<char>, Seq<Seq<char>>)>)>) -> Seq<
    (Seq<char>, Seq<char>),
> {
    g.map_values(|e: (Seq<char>, Seq<(Seq<char>, Seq<Seq<char>>)>)| (e.0, spec_humanize(e.0)))
}

pub open spec fn pairs_view(v: Seq<(String, String)>) -> Seq<(Seq<char>, Seq<char>)> {
    v.map_values(|p: (String, String)| (p.0@, p.1@))
}

/// Infers domains from the top-level directory groups: (id, label) pairs
/// in increasing id order.
pub fn infer_domains(groups: &Vec<DomainGroup>) -> (r: Vec<(String, String)>)
    ensures
        pairs_view(r@) == spec_infer_domains(groups_view(groups@)),
{
    let ghost gv = groups_view(groups@);
    let mut r: Vec<(String, String)> = Vec::new();
    let mut i: usize = 0;
    while i < groups.len()
        invariant
            i <= groups.len(),
            gv == groups_view(groups@),
            pairs_view(r@) == spec_infer_domains(gv.take(i as int)),
        decreases groups.len() - i,
    {
        let d = &groups[i].domain;
        let ghost before = pairs_view(r@);
        r.push((copy_string(d), humanize_name(d.as_str())));
        assert(pairs_view(r@) =~= before.push((d@, spec_humanize(d@))));
        i += 1;
        assert(spec_infer_domains(gv.take(i as int)) =~= before.push((d@, spec_humanize(d@))));
    }
    assert(gv.take(groups.len() as int) =~= gv);
    r
}

/// A fresh subsystem: status `new`, no entries, no children.
pub open spec fn new_sub(id: Seq<char>, name: Seq<char>, domain: Seq<char>, file_path: Seq<char>) -> SubsystemView {
    SubsystemView {
        id,
        name,
        domain,
        status: ManifestStatus::New,
        file_path,
        interfaces: Seq::empty(),
        operations: Seq::empty(),
        tables: Seq::empty(),
        events: Seq::empty(),
        children: Seq::empty(),
        dependencies: Seq::empty(),
    }
}

/// The id a subsystem directory starts from: `domain-sub`, or just `sub`
/// when the two are the same.
pub open spec fn base_id(d: Seq<char>, s: Seq<char>) -> Seq<char> {
    if d == s {
        s
    } else {
        d + seq!['-'] + s
    }
}

/// One subsystem directory considered: below `min` files it is skipped.
pub open spec fn sub_step(
    st: (Seq<SubsystemView>, Seq<Seq<char>>),
    d: Seq<char>,
    e: (Seq<char>, Seq<Seq<char>>),
    root: Seq<char>,
    min: nat,
) -> (Seq<SubsystemView>, Seq<Seq<char>>) {
    if e.1.len() < min {
        st
    } else {
        let id = spec_unique_id(base_id(d, e.0), st.1);
        (st.0.push(new_sub(id, spec_humanize(e.0), d, spec_common_prefix(e.1, root))), st.1.push(id))
    }
}

pub open spec fn subs_pass(
    st: (Seq<SubsystemView>, Seq<Seq<char>>),
    d: Seq<char>,
    es: Seq<(Seq<char>, Seq<Seq<char>>)>,
    root: Seq<char>,
    min: nat,
) -> (Seq<SubsystemView>, Seq<Seq<char>>)
    decreases es.len(),
{
    if es.len() == 0 {
        st
    } else {
        sub_step(subs_pass(st, d, es.drop_last(), root, min), d, es.last(), root, min)
    }
}

/// The first pass: one subsystem per qualifying subsystem directory.
pub open spec fn first_pass(
    g: Seq<(Seq<char>, Seq<(Seq<char>, Seq<Seq<char>>)>)>,
    root: Seq<char>,
    min: nat,
) -> (Seq<SubsystemView>, Seq<Seq<char>>)
    decreases g.len(),
{
    if g.len() == 0 {
        (Seq::empty(), Seq::empty())
    } else {
        subs_pass(first_pass(g.drop_last(), root, min), g.last().0, g.last().1, root, min)
    }
}

/// All files of a domain, subsystem directory by subsystem directory.
pub open spec fn domain_files(es: Seq<(Seq<char>, Seq<Seq<char>>)>) -> Seq<Seq<char>>
    decreases es.len(),
{
    if es.len() == 0 {
        Seq::empty()
    } else {
        domain_files(es.drop_last()) + es.last().1
    }
}

/// The fallback pass: one subsystem per domain that has files.
pub open spec fn fallback_pass(
    st: (Seq<SubsystemView>, Seq<Seq<char>>),
    g: Seq<(Seq<char>, Seq<(Seq<char>, Seq<Seq<char>>)>)>,
    root: Seq<char>,
) -> (Seq<SubsystemView>, Seq<Seq<char>>)
    decreases g.len(),
{
    if g.len() == 0 {
        st
    } else {
        let prev = fallback_pass(st, g.drop_last(), root);
        let d = g.last().0;
        let files = domain_files(g.last().1);
        if files.len() == 0 {
            prev
        } else {
            let id = spec_unique_id(d, prev.1);
            (prev.0.push(new_sub(id, spec_humanize(d), d, spec_common_prefix(files, root))), prev.1.push(id))
        }
    }
}

/// The inferred subsystems: the first pass, or the fallback pass when the
/// first yields none.
pub open spec fn spec_infer_subsystems(
    g: Seq<(Seq<char>, Seq<(Seq<char>, Seq<Seq<char>>)>)>,
    root: Seq<char>,
    min: nat,
) -> Seq<SubsystemView> {
    let p = first_pass(g, root, min);
    if p.0.len() > 0 {
        p.0
    } else {
        fallback_pass(p, g, root).0
    }
}

/// The number of subsystem directories in the groups.
pub open spec fn entry_count(g: Seq<(Seq<char>, Seq<(Seq<char>, Seq<Seq<char>>)>)>) -> nat
    decreases g.len(),
{
    if g.len() == 0 {
        0
    } else {
        entry_count(g.drop_last()) + g.last().1.len()
    }
}

proof fn lemma_entry_count_take(g: Seq<(Seq<char>, Seq<(Seq<char>, Seq<Seq<char>>)>)>, i: int)
    requires
        0 <= i <= g.len(),
    ensures
        entry_count(g.take(i)) <= entry_count(g),
    decreases g.len() - i,
{
    if i < g.len() {
        lemma_entry_count_take(g, i + 1);
        assert(g.take(i + 1).drop_last() =~= g.take(i));
    } else {
        assert(g.take(i) =~= g);
    }
}

proof fn lemma_subs_view_push(v: Seq<ManifestSubsystem>, x: ManifestSubsystem)
    ensures
        subs_view(v.push(x)) == subs_view(v).push(x@),
{
    assert(v.push(x).drop_last() =~= v);
}

fn fresh_subsystem(id: String, name: String, domain: String, file_path: String) -> (s: ManifestSubsystem)
    ensures
        s@ == new_sub(id@, name@, domain@, file_path@),
{
    let s = ManifestSubsystem {
        id,
        name,
        domain,
        status: ManifestStatus::New,
        file_path,
        interfaces: Vec::new(),
        operations: Vec::new(),
        tables: Vec::new(),
        events: Vec::new(),
        children: Vec::new(),
        dependencies: Vec::new(),
    };
    assert(strs(s.interfaces@) =~= Seq::<Seq<char>>::empty());
    assert(strs(s.operations@) =~= Seq::<Seq<char>>::empty());
    assert(strs(s.tables@) =~= Seq::<Seq<char>>::empty());
    assert(strs(s.events@) =~= Seq::<Seq<char>>::empty());
    assert(strs(s.dependencies@) =~= Seq::<Seq<char>>::empty());
    assert(subs_view(s.children@) =~= Seq::<SubsystemView>::empty());
    s
}

fn base_id_of(d: &String, s: &String) -> (r: String)
    ensures
        r@ == base_id(d@, s@),
{
    if str_eq(d.as_str(), s.as_str()) {
        copy_string(s)
    } else {
        let mut r = copy_string(d);
        r.push('-');
        crate::text::append_str(&mut r, s.as_str());
        assert(r@ =~= d@ + seq!['-'] + s@);
        r
    }
}

/// Infers subsystems from the directory groups: one per subsystem
/// directory with at least `min_entities` files, with a unique id, a
/// humanized name and the files' common directory as path; when none
/// qualifies, one per domain that has files.
pub fn infer_subsystems(groups: &Vec<DomainGroup>, root: &str, min_entities: usize) -> (r: Vec<
    ManifestSubsystem,
>)
    requires
        entry_count(groups_view(groups@)) + groups@.len() + 3 < usize::MAX,
    ensures
        subs_view(r@) == spec_infer_subsystems(groups_view(groups@), root@, min_entities as nat),
{
    let ghost gv = groups_view(groups@);
    let ghost min = min_entities as nat;
    let mut subsystems: Vec<ManifestSubsystem> = Vec::new();
    let mut seen: Vec<String> = Vec::new();
    let mut i: usize = 0;
    while i < groups.len()
        invariant
            i <= groups.len(),
            gv == groups_view(groups@),
            min == min_entities as nat,
            entry_count(gv) + groups@.len() + 3 < usize::MAX,
            (subs_view(subsystems@), strs(seen@)) == first_pass(gv.take(i as int), root@, min),
            seen@.len() <= entry_count(gv.take(i as int)),
        decreases groups.len() - i,
    {
        let dg = &groups[i];
        proof {
            assert(gv.take(i + 1 as int).drop_last() =~= gv.take(i as int));
            assert(gv.take(i + 1 as int).last() == dg@);
            lemma_entry_count_take(gv, i + 1);
        }
        let ghost st0 = (subs_view(subsystems@), strs(seen@));
        let ghost sv = sub_groups_view(dg.subsystems@);
        let mut j: usize = 0;
        while j < dg.subsystems.len()
            invariant
                j <= dg.subsystems.len(),
                i < groups.len(),
                dg == &groups[i as int],
                sv == sub_groups_view(dg.subsystems@),
                entry_count(gv.take(i + 1 as int)) <= entry_count(gv),
                entry_count(gv.take(i + 1 as int)) == entry_count(gv.take(i as int)) + sv.len(),
                entry_count(gv) + groups@.len() + 3 < usize::MAX,
                (subs_view(subsystems@), strs(seen@)) == subs_pass(st0, dg.domain@, sv.take(j as int), root@, min),
                seen@.len() <= entry_count(gv.take(i as int)) + j,
                min == min_entities as nat,
            decreases dg.subsystems.len() - j,
        {
            let e = &dg.subsystems[j];
            assert(sv.take(j + 1 as int).drop_last() =~= sv.take(j as int));
            assert(sv.take(j + 1 as int).last() == e@);
            if e.files.len() >= min_entities {
                let file_path = compute_common_prefix(&e.files, root);
                let base = base_id_of(&dg.domain, &e.name);
                let ghost seen_before = strs(seen@);
                let id = make_unique_id(base.as_str(), &mut seen);
                assert(strs(seen@) =~= seen_before.push(id@));
                let s = fresh_subsystem(id, humanize_name(e.name.as_str()), copy_string(&dg.domain), file_path);
                let ghost before = subsystems@;
                subsystems.push(s);
                proof {
                    lemma_subs_view_push(before, s);
                }
            }
            j += 1;
        }
        assert(sv.take(dg.subsystems.len() as int) =~= sv);
        i += 1;
    }
    assert(gv.take(groups.len() as int) =~= gv);
    if subsystems.len() > 0 {
        return subsystems;
    }
    let ghost p1 = (subs_view(subsystems@), strs(seen@));
    assert(seen@.len() == 0) by {
        assert(subs_view(subsystems@).len() == 0);
        lemma_first_pass_lens(gv, root@, min);
    }
    let mut k: usize = 0;
    while k < groups.len()
        invariant
            k <= groups.len(),
            gv == groups_view(groups@),
            entry_count(gv) + groups@.len() + 3 < usize::MAX,
            (subs_view(subsystems@), strs(seen@)) == fallback_pass(p1, gv.take(k as int), root@),
            seen@.len() <= k,
        decreases groups.len() - k,
    {
        let dg = &groups[k];
        assert(gv.take(k + 1 as int).drop_last() =~= gv.take(k as int));
        assert(gv.take(k + 1 as int).last() == dg@);
        let ghost sv = sub_groups_view(dg.subsystems@);
        let mut all_files: Vec<String> = Vec::new();
        let mut j: usize = 0;
        while j < dg.subsystems.len()
            invariant
                j <= dg.subsystems.len(),
                sv == sub_groups_view(dg.subsystems@),
                strs(all_files@) == domain_files(sv.take(j as int)),
            decreases dg.subsystems.len() - j,
        {
            let files = &dg.subsystems[j].files;
            assert(sv.take(j + 1 as int).drop_last() =~= sv.take(j as int));
            assert(sv.take(j + 1 as int).last().1 == strs(files@));
            let ghost before = strs(all_files@);
            let mut q: usize = 0;
            while q < files.len()
                invariant
                    q <= files.len(),
                    strs(all_files@) == before + strs(files@).take(q as int),
                decreases files.len() - q,
            {
                let ghost b2 = strs(all_files@);
                all_files.push(copy_string(&files[q]));
                assert(strs(all_files@) =~= b2.push(strs(files@)[q as int]));
                q += 1;
                assert(strs(all_files@) =~= before + strs(files@).take(q as int));
            }
            assert(strs(files@).take(files.len() as int) =~= strs(files@));
            j += 1;
        }
        assert(sv.take(dg.subsystems.len() as int) =~= sv);
        if all_files.len() > 0 {
            let file_path = compute_common_prefix(&all_files, root);
            let ghost seen_before = strs(seen@);
            let id = make_unique_id(dg.domain.as_str(), &mut seen);
            assert(strs(seen@) =~= seen_before.push(id@));
            let s = fresh_subsystem(id, humanize_name(dg.domain.as_str()), copy_string(&dg.domain), file_path);
            let ghost before = subsystems@;
            subsystems.push(s);
            proof {
                lemma_subs_view_push(before, s);
            }
        }
        k += 1;
    }
    assert(gv.take(groups.len() as int) =~= gv);
    subsystems
}

proof fn lemma_subs_pass_lens(
    st: (Seq<SubsystemView>, Seq<Seq<char>>),
    d: Seq<char>,
    es: Seq<(Seq<char>, Seq<Seq<char>>)>,
    root: Seq<char>,
    min: nat,
)
    requires
        st.0.len() == st.1.len(),
    ensures
        subs_pass(st, d, es, root, min).0.len() == subs_pass(st, d, es, root, min).1.len(),
        subs_pass(st, d, es, root, min).0.len() >= st.0.len(),
    decreases es.len(),
{
    if es.len() > 0 {
        lemma_subs_pass_lens(st, d, es.drop_last(), root, min);
    }
}

proof fn lemma_first_pass_lens(g: Seq<(Seq<char>, Seq<(Seq<char>, Seq<Seq<char>>)>)>, root: Seq<char>, min: nat)
    ensures
        first_pass(g, root, min).0.len() == first_pass(g, root, min).1.len(),
    decreases g.len(),
{
    if g.len() > 0 {
        lemma_first_pass_lens(g.drop_last(), root, min);
        lemma_subs_pass_lens(first_pass(g.drop_last(), root, min), g.last().0, g.last().1, root, min);
    }
}

// ---------------------------------------------------------------------------
// Bootstrapping
// ---------------------------------------------------------------------------

proof fn lemma_ins_sorted_len<V>(list: Seq<(Seq<char>, V)>, key: Seq<char>, fresh: V, upd: spec_fn(V) -> V)
    ensures
        ins_sorted(list, key, fresh, upd).len() <= list.len() + 1,
    decreases list.len(),
{
    if list.len() > 0 && list[0].0 != key && !crate::text::seq_lt(key, list[0].0) {
        lemma_ins_sorted_len(list.drop_first(), key, fresh, upd);
    }
}

proof fn lemma_entry_count_append(
    a: Seq<(Seq<char>, Seq<(Seq<char>, Seq<Seq<char>>)>)>,
    b: Seq<(Seq<char>, Seq<(Seq<char>, Seq<Seq<char>>)>)>,
)
    ensures
        entry_count(a + b) == entry_count(a) + entry_count(b),
    decreases b.len(),
{
    if b.len() == 0 {
        assert(a + b =~= a);
    } else {
        lemma_entry_count_append(a, b.drop_last());
        assert((a + b).drop_last() =~= a + b.drop_last());
    }
}

proof fn lemma_entry_count_front(g: Seq<(Seq<char>, Seq<(Seq<char>, Seq<Seq<char>>)>)>)
    requires
        g.len() > 0,
    ensures
        entry_count(g) == g[0].1.len() + entry_count(g.drop_first()),
{
    lemma_entry_count_append(seq![g[0]], g.drop_first());
    assert(seq![g[0]] + g.drop_first() =~= g);
    assert(seq![g[0]].drop_last() =~= Seq::<(Seq<char>, Seq<(Seq<char>, Seq<Seq<char>>)>)>::empty());
    assert(entry_count(seq![g[0]]) == entry_count(seq![g[0]].drop_last()) + seq![g[0]].last().1.len());
}

proof fn lemma_ins_group_count(
    g: Seq<(Seq<char>, Seq<(Seq<char>, Seq<Seq<char>>)>)>,
    d: Seq<char>,
    s: Seq<char>,
    f: Seq<char>,
)
    ensures
        entry_count(ins_group(g, d, s, f)) <= entry_count(g) + 1,
        ins_group(g, d, s, f).len() <= g.len() + 1,
    decreases g.len(),
{
    let r = ins_group(g, d, s, f);
    lemma_ins_sorted_len(
        g,
        d,
        seq![(s, seq![f])],
        |v: Seq<(Seq<char>, Seq<Seq<char>>)>| ins_file(v, s, f),
    );
    if g.len() == 0 {
        lemma_entry_count_front(r);
    } else {
        lemma_entry_count_front(g);
        lemma_entry_count_front(r);
        if g[0].0 == d {
            lemma_ins_sorted_len(g[0].1, s, seq![f], |v: Seq<Seq<char>>| v.push(f));
            assert(r.drop_first() =~= g.drop_first());
        } else if crate::text::seq_lt(d, g[0].0) {
            assert(r.drop_first() =~= g);
        } else {
            lemma_ins_group_count(g.drop_first(), d, s, f);
            assert(r.drop_first() =~= ins_group(g.drop_first(), d, s, f));
        }
    }
}

/// Grouping `n` files yields at most `n` subsystem directories and `n`
/// domain directories.
pub proof fn lemma_group_paths_bounds(root: Seq<char>, paths: Seq<Seq<char>>)
    ensures
        entry_count(group_paths(root, paths)) <= paths.len(),
        group_paths(root, paths).len() <= paths.len(),
    decreases paths.len(),
{
    if paths.len() > 0 {
        lemma_group_paths_bounds(root, paths.drop_last());
        let g = group_paths(root, paths.drop_last());
        match file_key(root, paths.last()) {
            None => {},
            Some((d, s)) => {
                lemma_ins_group_count(g, d, s, paths.last());
            },
        }
    }
}

/// The colour at position `k` of the domain palette.
pub open spec fn palette_color(k: int) -> Seq<char> {
    if k == 0 { "#3b82f6"@ }
    else if k == 1 { "#22c55e"@ }
    else if k == 2 { "#f97316"@ }
    else if k == 3 { "#a855f7"@ }
    else if k == 4 { "#ef4444"@ }
    else if k == 5 { "#eab308"@ }
    else if k == 6 { "#06b6d4"@ }
    else if k == 7 { "#ec4899"@ }
    else if k == 8 { "#14b8a6"@ }
    else if k == 9 { "#f59e0b"@ }
    else if k == 10 { "#6366f1"@ }
    else { "#84cc16"@ }
}

/// The number of colours in the domain palette.
pub const DOMAIN_COLOR_COUNT: usize = 12;

/// The colour of the `i`-th domain: the palette, cycled.
pub fn domain_color(i: usize) -> (r: String)
    ensures
        r@ == palette_color((i % DOMAIN_COLOR_COUNT) as int),
{
    let k = i % DOMAIN_COLOR_COUNT;
    let c = if k == 0 { "#3b82f6" }
    else if k == 1 { "#22c55e" }
    else if k == 2 { "#f97316" }
    else if k == 3 { "#a855f7" }
    else if k == 4 { "#ef4444" }
    else if k == 5 { "#eab308" }
    else if k == 6 { "#06b6d4" }
    else if k == 7 { "#ec4899" }
    else if k == 8 { "#14b8a6" }
    else if k == 9 { "#f59e0b" }
    else if k == 10 { "#6366f1" }
    else { "#84cc16" };
    string_of(&chars_of(c))
}

/// The domains of a bootstrapped manifest: id, label and palette colour,
/// in order.
pub open spec fn domains_view(v: Seq<(String, crate::manifest::DomainDef)>) -> Seq<(Seq<char>, Seq<char>, Seq<char>)> {
    v.map_values(|e: (String, crate::manifest::DomainDef)| (e.0@, e.1.label@, e.1.color@))
}

/// The project name: the given one, else the root's final name, else
/// `project`.
pub open spec fn spec_project_name(given: Option<Seq<char>>, root: Seq<char>) -> Seq<char> {
    match given {
        Some(n) => n,
        None => match crate::path::file_name(root) {
            Some(n) => n,
            None => "project"@,
        },
    }
}

pub open spec fn opt_view(o: Option<String>) -> Option<Seq<char>> {
    match o {
        Some(s) => Some(s@),
        None => None,
    }
}

/// Bootstraps a system manifest from a scan index: domains from the
/// top-level directory groups (labelled and coloured from the palette, in
/// order), subsystems from the second-level groups, connections from
/// cross-subsystem imports. The meta block carries the project name,
/// version `1.0.0` and a fixed description.
pub fn bootstrap_manifest(index: &crate::ir::ScanIndex, options: &BootstrapOptions) -> (m: crate::manifest::SystemManifest)
    requires
        2 * index.files@.len() + 3 < usize::MAX,
    ensures
        m.meta.name@ == spec_project_name(opt_view(options.project_name), index.root@),
        m.meta.version@ == "1.0.0"@,
        m.meta.description@ == "Auto-generated manifest from domain-scan --bootstrap"@,
        ({
            let g = group_paths(index.root@, file_paths(index.files@));
            &&& domains_view(m.domains@).len() == g.len()
            &&& forall|i: int|
                0 <= i < g.len() ==> #[trigger] domains_view(m.domains@)[i] == (
                    g[i].0,
                    spec_humanize(g[i].0),
                    palette_color(i % 12),
                )
            &&& subs_view(m.subsystems@) == spec_infer_subsystems(
                g,
                index.root@,
                options.min_entities as nat,
            )
        }),
        exists|order: Seq<(Seq<char>, Seq<char>)>|
            crate::connections::edges_ranked(
                order,
                crate::connections::edge_occurrences(index.files@, subs_view(m.subsystems@), index.root@),
            ) && crate::connections::connections_view(m.connections@) == crate::connections::capped(order),
        forall|k: int|
            0 <= k < m.connections@.len() ==> (#[trigger] m.connections@[k]).label@
                == crate::connections::edge_label(m.connections@[k].from@, m.connections@[k].to@)
                && m.connections@[k].connection_type == crate::manifest::ConnectionType::DependsOn,
{
    let root = index.root.as_str();
    let groups = group_files_by_directory(index, root);
    let ghost gv = groups_view(groups@);
    proof {
        lemma_group_paths_bounds(index.root@, file_paths(index.files@));
    }
    let domain_list = infer_domains(&groups);
    let subsystems = infer_subsystems(&groups, root, options.min_entities);
    let connections = crate::connections::infer_connections(index, &subsystems);
    let name = match &options.project_name {
        Some(n) => copy_string(n),
        None => match crate::path::path_file_name(root) {
            Some(n) => n,
            None => string_of(&chars_of("project")),
        },
    };
    proof {
        reveal_strlit("project");
    }
    let mut domains: Vec<(String, crate::manifest::DomainDef)> = Vec::new();
    let ghost dv = pairs_view(domain_list@);
    assert(dv.len() == gv.len());
    let mut i: usize = 0;
    while i < domain_list.len()
        invariant
            i <= domain_list.len(),
            dv == pairs_view(domain_list@),
            dv == spec_infer_domains(gv),
            gv.len() == domain_list.len(),
            domains_view(domains@).len() == i,
            forall|k: int|
                0 <= k < i ==> #[trigger] domains_view(domains@)[k] == (
                    gv[k].0,
                    spec_humanize(gv[k].0),
                    palette_color(k % 12),
                ),
        decreases domain_list.len() - i,
    {
        let (id, label) = (&domain_list[i].0, &domain_list[i].1);
        assert(dv[i as int] == (gv[i as int].0, spec_humanize(gv[i as int].0)));
        let ghost before = domains_view(domains@);
        domains.push((copy_string(id), crate::manifest::DomainDef { label: copy_string(label), color: domain_color(i) }));
        assert(domains_view(domains@) =~= before.push(domains_view(domains@).last()));
        i += 1;
    }
    assert(gv == group_paths(index.root@, file_paths(index.files@)));
    crate::manifest::SystemManifest {
        meta: crate::manifest::ManifestMeta {
            name,
            version: string_of(&chars_of("1.0.0")),
            description: string_of(&chars_of("Auto-generated manifest from domain-scan --bootstrap")),
        },
        domains,
        subsystems,
        connections,
    }
}

// ---------------------------------------------------------------------------
// Laws
// ---------------------------------------------------------------------------

proof fn lemma_least_free_search(base: Seq<char>, seen: Seq<Seq<char>>, k: nat)
    requires
        k >= 1,
        forall|j: nat| 1 <= j < k ==> seen.contains(#[trigger] id_candidate(base, j)),
    ensures
        exists|m: nat| is_least_free(base, seen, m),
    decreases seen.len() + 2 - k,
{
    if !seen.contains(id_candidate(base, k)) {
        assert(is_least_free(base, seen, k));
    } else {
        assert forall|j: nat| 1 <= j <= k implies seen.contains(#[trigger] id_candidate(base, j)) by {}
        lemma_candidates_bound(base, seen, k);
        lemma_least_free_search(base, seen, k + 1);
    }
}

/// The id handed out for `base` is never one already taken.
pub proof fn lemma_unique_id_fresh(base: Seq<char>, seen: Seq<Seq<char>>)
    ensures
        is_least_free(base, seen, least_free(base, seen)),
        !seen.contains(spec_unique_id(base, seen)),
{
    lemma_least_free_search(base, seen, 1);
}

/// The ids of a sequence of subsystems.
pub open spec fn sub_ids(ss: Seq<SubsystemView>) -> Seq<Seq<char>> {
    ss.map_values(|s: SubsystemView| s.id)
}

/// The state of the inference is consistent: `seen` holds exactly the ids
/// handed out, all distinct.
pub open spec fn ids_consistent(st: (Seq<SubsystemView>, Seq<Seq<char>>)) -> bool {
    st.1 == sub_ids(st.0) && st.1.no_duplicates()
}

proof fn lemma_push_fresh(st: (Seq<SubsystemView>, Seq<Seq<char>>), s: SubsystemView)
    requires
        ids_consistent(st),
        !st.1.contains(s.id),
    ensures
        ids_consistent((st.0.push(s), st.1.push(s.id))),
{
    assert(sub_ids(st.0.push(s)) =~= st.1.push(s.id));
    assert forall|i: int, j: int| 0 <= i < st.1.len() + 1 && 0 <= j < st.1.len() + 1 && i != j implies st.1.push(s.id)[i] != st.1.push(s.id)[j] by {
        if i == st.1.len() {
            assert(st.1.contains(st.1[j]));
        } else if j == st.1.len() {
            assert(st.1.contains(st.1[i]));
        }
    }
}

proof fn lemma_subs_pass_ids(
    st: (Seq<SubsystemView>, Seq<Seq<char>>),
    d: Seq<char>,
    es: Seq<(Seq<char>, Seq<Seq<char>>)>,
    root: Seq<char>,
    min: nat,
)
    requires
        ids_consistent(st),
    ensures
        ids_consistent(subs_pass(st, d, es, root, min)),
    decreases es.len(),
{
    if es.len() > 0 {
        lemma_subs_pass_ids(st, d, es.drop_last(), root, min);
        let prev = subs_pass(st, d, es.drop_last(), root, min);
        let e = es.last();
        if e.1.len() >= min {
            lemma_unique_id_fresh(base_id(d, e.0), prev.1);
            let id = spec_unique_id(base_id(d, e.0), prev.1);
            lemma_push_fresh(prev, new_sub(id, spec_humanize(e.0), d, spec_common_prefix(e.1, root)));
        }
    }
}

proof fn lemma_first_pass_ids(g: Seq<(Seq<char>, Seq<(Seq<char>, Seq<Seq<char>>)>)>, root: Seq<char>, min: nat)
    ensures
        ids_consistent(first_pass(g, root, min)),
    decreases g.len(),
{
    if g.len() == 0 {
        assert(sub_ids(Seq::<SubsystemView>::empty()) =~= Seq::<Seq<char>>::empty());
    } else {
        lemma_first_pass_ids(g.drop_last(), root, min);
        lemma_subs_pass_ids(first_pass(g.drop_last(), root, min), g.last().0, g.last().1, root, min);
    }
}

proof fn lemma_fallback_pass_ids(
    st: (Seq<SubsystemView>, Seq<Seq<char>>),
    g: Seq<(Seq<char>, Seq<(Seq<char>, Seq<Seq<char>>)>)>,
    root: Seq<char>,
)
    requires
        ids_consistent(st),
    ensures
        ids_consistent(fallback_pass(st, g, root)),
    decreases g.len(),
{
    if g.len() > 0 {
        lemma_fallback_pass_ids(st, g.drop_last(), root);
        let prev = fallback_pass(st, g.drop_last(), root);
        let d = g.last().0;
        let files = domain_files(g.last().1);
        if files.len() > 0 {
            lemma_unique_id_fresh(d, prev.1);
            let id = spec_unique_id(d, prev.1);
            lemma_push_fresh(prev, new_sub(id, spec_humanize(d), d, spec_common_prefix(files, root)));
        }
    }
}

/// Inferred subsystems have distinct ids.
pub proof fn lemma_inferred_ids_distinct(
    g: Seq<(Seq<char>, Seq<(Seq<char>, Seq<Seq<char>>)>)>,
    root: Seq<char>,
    min: nat,
)
    ensures
        sub_ids(spec_infer_subsystems(g, root, min)).no_duplicates(),
{
    lemma_first_pass_ids(g, root, min);
    let p = first_pass(g, root, min);
    if p.0.len() == 0 {
        lemma_fallback_pass_ids(p, g, root);
    }
}

/// The keys of a keyed list.
pub open spec fn keys_of<V>(list: Seq<(Seq<char>, V)>) -> Seq<Seq<char>> {
    list.map_values(|e: (Seq<char>, V)| e.0)
}

/// Keys in strictly increasing order.
pub open spec fn keys_sorted<V>(list: Seq<(Seq<char>, V)>) -> bool {
    forall|i: int, j: int| 0 <= i < j < list.len() ==> crate::text::seq_lt(#[trigger] list[i].0, #[trigger] list[j].0)
}

proof fn lemma_ins_sorted_keys<V>(list: Seq<(Seq<char>, V)>, key: Seq<char>, fresh: V, upd: spec_fn(V) -> V)
    requires
        keys_sorted(list),
    ensures
        keys_sorted(ins_sorted(list, key, fresh, upd)),
        forall|i: int| 0 <= i < ins_sorted(list, key, fresh, upd).len() ==> {
            let k = #[trigger] ins_sorted(list, key, fresh, upd)[i].0;
            k == key || keys_of(list).contains(k)
        },
    decreases list.len(),
{
    let r = ins_sorted(list, key, fresh, upd);
    if list.len() == 0 {
    } else if list[0].0 == key {
        assert forall|i: int| 0 <= i < r.len() implies ({
            let k = #[trigger] r[i].0;
            k == key || keys_of(list).contains(k)
        }) by {
            if i > 0 {
                assert(r[i] == list[i]);
                assert(keys_of(list)[i] == r[i].0);
            }
        }
        assert forall|i: int, j: int| 0 <= i < j < r.len() implies crate::text::seq_lt(#[trigger] r[i].0, #[trigger] r[j].0) by {
            assert(r[j] == list[j]);
            if i > 0 {
                assert(r[i] == list[i]);
            }
        }
    } else if crate::text::seq_lt(key, list[0].0) {
        assert forall|i: int| 0 <= i < r.len() implies ({
            let k = #[trigger] r[i].0;
            k == key || keys_of(list).contains(k)
        }) by {
            if i > 0 {
                assert(r[i] == list[i - 1]);
                assert(keys_of(list)[i - 1] == r[i].0);
            }
        }
        assert forall|i: int, j: int| 0 <= i < j < r.len() implies crate::text::seq_lt(#[trigger] r[i].0, #[trigger] r[j].0) by {
            assert(r[j] == list[j - 1]);
            if i > 0 {
                assert(r[i] == list[i - 1]);
            } else if j > 1 {
                crate::text::lemma_seq_lt_transitive(key, list[0].0, list[j - 1].0);
            }
        }
    } else {
        let t = list.drop_first();
        assert(keys_sorted(t)) by {
            assert forall|i: int, j: int| 0 <= i < j < t.len() implies crate::text::seq_lt(#[trigger] t[i].0, #[trigger] t[j].0) by {
                assert(t[i] == list[i + 1]);
                assert(t[j] == list[j + 1]);
            }
        }
        lemma_ins_sorted_keys(t, key, fresh, upd);
        let rt = ins_sorted(t, key, fresh, upd);
        crate::text::lemma_seq_lt_total(key, list[0].0);
        assert(r == seq![list[0]] + rt);
        assert forall|i: int| 0 <= i < r.len() implies ({
            let k = #[trigger] r[i].0;
            k == key || keys_of(list).contains(k)
        }) by {
            if i == 0 {
                assert(keys_of(list)[0] == r[0].0);
            } else {
                assert(r[i] == rt[i - 1]);
                let k = rt[i - 1].0;
                if k != key {
                    assert(keys_of(t).contains(k));
                    let m = choose|m: int| 0 <= m < t.len() && keys_of(t)[m] == k;
                    assert(keys_of(list)[m + 1] == k);
                }
            }
        }
        assert forall|i: int, j: int| 0 <= i < j < r.len() implies crate::text::seq_lt(#[trigger] r[i].0, #[trigger] r[j].0) by {
            if i > 0 {
                assert(r[i] == rt[i - 1]);
                assert(r[j] == rt[j - 1]);
            } else {
                assert(r[j] == rt[j - 1]);
                let k = rt[j - 1].0;
                if k != key {
                    assert(keys_of(t).contains(k));
                    let m = choose|m: int| 0 <= m < t.len() && keys_of(t)[m] == k;
                    assert(t[m].0 == k);
                    assert(list[m + 1].0 == k);
                }
            }
        }
    }
}

/// The domain directories of the groups are in strictly increasing order,
/// hence distinct.
pub proof fn lemma_group_paths_sorted(root: Seq<char>, paths: Seq<Seq<char>>)
    ensures
        keys_sorted(group_paths(root, paths)),
    decreases paths.len(),
{
    if paths.len() > 0 {
        lemma_group_paths_sorted(root, paths.drop_last());
        let g = group_paths(root, paths.drop_last());
        match file_key(root, paths.last()) {
            None => {},
            Some((d, s)) => {
                lemma_ins_sorted_keys(
                    g,
                    d,
                    seq![(s, seq![paths.last()])],
                    |v: Seq<(Seq<char>, Seq<Seq<char>>)>| ins_file(v, s, paths.last()),
                );
            },
        }
    }
}

/// Inserting into a keyed list adds at most one entry.
pub proof fn lemma_ins_sorted_len_pub<V>(list: Seq<(Seq<char>, V)>, key: Seq<char>, fresh: V, upd: spec_fn(V) -> V)
    ensures
        ins_sorted(list, key, fresh, upd).len() <= list.len() + 1,
{
    lemma_ins_sorted_len(list, key, fresh, upd);
}

/// The value of the first entry with `key`, if there is one.
pub open spec fn lookup<V>(list: Seq<(Seq<char>, V)>, key: Seq<char>) -> Option<V>
    decreases list.len(),
{
    if list.len() == 0 {
        None
    } else if list[0].0 == key {
        Some(list[0].1)
    } else {
        lookup(list.drop_first(), key)
    }
}

proof fn lemma_keys_sorted_tail<V>(list: Seq<(Seq<char>, V)>)
    requires
        keys_sorted(list),
        list.len() > 0,
    ensures
        keys_sorted(list.drop_first()),
{
    let t = list.drop_first();
    assert forall|i: int, j: int| 0 <= i < j < t.len() implies crate::text::seq_lt(#[trigger] t[i].0, #[trigger] t[j].0) by {
        assert(t[i] == list[i + 1]);
        assert(t[j] == list[j + 1]);
    }
}

proof fn lemma_lookup_below<V>(list: Seq<(Seq<char>, V)>, key: Seq<char>)
    requires
        keys_sorted(list),
        list.len() > 0,
        crate::text::seq_lt(key, list[0].0),
    ensures
        lookup(list, key) is None,
    decreases list.len(),
{
    crate::text::lemma_seq_lt_asymmetric(key, list[0].0);
    if list.len() > 1 {
        lemma_keys_sorted_tail(list);
        assert(crate::text::seq_lt(list[0].0, list[1].0));
        crate::text::lemma_seq_lt_transitive(key, list[0].0, list[1].0);
        assert(list.drop_first()[0] == list[1]);
        lemma_lookup_below(list.drop_first(), key);
    }
}

proof fn lemma_lookup_member<V>(list: Seq<(Seq<char>, V)>, key: Seq<char>)
    requires
        lookup(list, key) is Some,
    ensures
        exists|i: int| 0 <= i < list.len() && (#[trigger] list[i]).1 == lookup(list, key)->0,
    decreases list.len(),
{
    if list[0].0 != key {
        lemma_lookup_member(list.drop_first(), key);
        let i = choose|i: int| 0 <= i < list.drop_first().len() && (#[trigger] list.drop_first()[i]).1 == lookup(list, key)->0;
        assert(list[i + 1] == list.drop_first()[i]);
    } else {
        assert(list[0].1 == lookup(list, key)->0);
    }
}

/// Looking up in a sorted keyed list after an insertion: the inserted key
/// finds the updated (or fresh) value, every other key what it found before.
proof fn lemma_lookup_ins<V>(list: Seq<(Seq<char>, V)>, key: Seq<char>, fresh: V, upd: spec_fn(V) -> V, k: Seq<char>)
    requires
        keys_sorted(list),
    ensures
        lookup(ins_sorted(list, key, fresh, upd), k) == (if k == key {
            Some(
                match lookup(list, key) {
                    Some(v) => upd(v),
                    None => fresh,
                },
            )
        } else {
            lookup(list, k)
        }),
    decreases list.len(),
{
    let r = ins_sorted(list, key, fresh, upd);
    if list.len() == 0 {
        assert(r[0] == (key, fresh));
        assert(r.drop_first() =~= Seq::<(Seq<char>, V)>::empty());
        assert(lookup(r.drop_first(), k) is None);
    } else if list[0].0 == key {
        assert(r[0] == (key, upd(list[0].1)));
        assert(r.drop_first() =~= list.drop_first());
    } else if crate::text::seq_lt(key, list[0].0) {
        lemma_lookup_below(list, key);
        assert(r[0] == (key, fresh));
        assert(r.drop_first() =~= list);
    } else {
        lemma_keys_sorted_tail(list);
        lemma_lookup_ins(list.drop_first(), key, fresh, upd, k);
        assert(r[0] == list[0]);
        assert(r.drop_first() =~= ins_sorted(list.drop_first(), key, fresh, upd));
    }
}

/// Every domain's list of subsystem directories is sorted by key.
pub open spec fn inner_sorted(g: Seq<(Seq<char>, Seq<(Seq<char>, Seq<Seq<char>>)>)>) -> bool {
    forall|i: int| 0 <= i < g.len() ==> keys_sorted(#[trigger] g[i].1)
}

proof fn lemma_ins_group_inner(
    g: Seq<(Seq<char>, Seq<(Seq<char>, Seq<Seq<char>>)>)>,
    d: Seq<char>,
    s: Seq<char>,
    f: Seq<char>,
)
    requires
        inner_sorted(g),
    ensures
        inner_sorted(ins_group(g, d, s, f)),
    decreases g.len(),
{
    let r = ins_group(g, d, s, f);
    if g.len() == 0 {
    } else if g[0].0 == d {
        lemma_ins_sorted_keys(g[0].1, s, seq![f], |v: Seq<Seq<char>>| v.push(f));
        assert forall|i: int| 0 <= i < r.len() implies keys_sorted(#[trigger] r[i].1) by {
            if i > 0 {
                assert(r[i] == g[i]);
            }
        }
    } else if crate::text::seq_lt(d, g[0].0) {
        assert forall|i: int| 0 <= i < r.len() implies keys_sorted(#[trigger] r[i].1) by {
            if i > 0 {
                assert(r[i] == g[i - 1]);
            }
        }
    } else {
        let t = g.drop_first();
        assert forall|i: int| 0 <= i < t.len() implies keys_sorted(#[trigger] t[i].1) by {
            assert(t[i] == g[i + 1]);
        }
        lemma_ins_group_inner(t, d, s, f);
        let rt = ins_group(t, d, s, f);
        assert(r == seq![g[0]] + rt);
        assert forall|i: int| 0 <= i < r.len() implies keys_sorted(#[trigger] r[i].1) by {
            if i > 0 {
                assert(r[i] == rt[i - 1]);
            }
        }
    }
}

proof fn lemma_group_paths_inner(root: Seq<char>, paths: Seq<Seq<char>>)
    ensures
        inner_sorted(group_paths(root, paths)),
    decreases paths.len(),
{
    if paths.len() > 0 {
        lemma_group_paths_inner(root, paths.drop_last());
        match file_key(root, paths.last()) {
            None => {},
            Some((d, s)) => lemma_ins_group_inner(group_paths(root, paths.drop_last()), d, s, paths.last()),
        }
    }
}

/// The files grouped under domain directory `d` and subsystem directory
/// `s` (none when there is no such group).
pub open spec fn files_under(
    g: Seq<(Seq<char>, Seq<(Seq<char>, Seq<Seq<char>>)>)>,
    d: Seq<char>,
    s: Seq<char>,
) -> Seq<Seq<char>> {
    match lookup(g, d) {
        None => Seq::empty(),
        Some(subs) => match lookup(subs, s) {
            None => Seq::empty(),
            Some(fs) => fs,
        },
    }
}

/// The paths whose place under the root is domain `d`, subsystem `s`, in
/// order.
pub open spec fn paths_keyed(root: Seq<char>, paths: Seq<Seq<char>>, d: Seq<char>, s: Seq<char>) -> Seq<
    Seq<char>,
>
    decreases paths.len(),
{
    if paths.len() == 0 {
        Seq::empty()
    } else {
        let prev = paths_keyed(root, paths.drop_last(), d, s);
        if file_key(root, paths.last()) == Some((d, s)) {
            prev.push(paths.last())
        } else {
            prev
        }
    }
}

/// Directory grouping is exact: the files grouped under a domain directory
/// `d` and subsystem directory `s` are exactly the scanned files that lie
/// under the root at `d/s` (files directly in the root under `_root`, as
/// `file_key` places them), in scan order; files outside the root are in
/// no group.
pub proof fn lemma_grouping_exact(root: Seq<char>, paths: Seq<Seq<char>>, d: Seq<char>, s: Seq<char>)
    ensures
        files_under(group_paths(root, paths), d, s) == paths_keyed(root, paths, d, s),
    decreases paths.len(),
{
    if paths.len() > 0 {
        let init = paths.drop_last();
        let f = paths.last();
        lemma_grouping_exact(root, init, d, s);
        let g = group_paths(root, init);
        match file_key(root, f) {
            None => {
                assert(group_paths(root, paths) == g);
                assert(paths_keyed(root, paths, d, s) == paths_keyed(root, init, d, s));
            },
            Some((d2, s2)) => {
                lemma_group_paths_sorted(root, init);
                lemma_group_paths_inner(root, init);
                let fresh = seq![(s2, seq![f])];
                let upd = |v: Seq<(Seq<char>, Seq<Seq<char>>)>| ins_file(v, s2, f);
                assert(paths.drop_last() == init);
                assert(group_paths(root, paths) == ins_group(g, d2, s2, f));
                assert(ins_group(g, d2, s2, f) == ins_sorted(g, d2, fresh, upd));
                lemma_lookup_ins(g, d2, fresh, upd, d);
                if d != d2 {
                    assert(lookup(group_paths(root, paths), d) == lookup(g, d));
                    assert(paths_keyed(root, paths, d, s) == paths_keyed(root, init, d, s));
                }
                if d == d2 {
                    match lookup(g, d2) {
                        Some(v) => {
                            lemma_lookup_member(g, d2);
                            let i = choose|i: int| 0 <= i < g.len() && (#[trigger] g[i]).1 == v;
                            assert(keys_sorted(g[i].1));
                            lemma_lookup_ins(v, s2, seq![f], |w: Seq<Seq<char>>| w.push(f), s);
                            assert(lookup(group_paths(root, paths), d) == Some(ins_file(v, s2, f)));
                            if s == s2 {
                                assert(paths_keyed(root, paths, d, s) == paths_keyed(root, init, d, s).push(f));
                                match lookup(v, s2) {
                                    Some(fs) => {
                                        assert(files_under(g, d, s) == fs);
                                        assert(lookup(ins_file(v, s2, f), s) == Some(fs.push(f)));
                                    },
                                    None => {
                                        assert(files_under(g, d, s) == Seq::<Seq<char>>::empty());
                                        assert(Seq::<Seq<char>>::empty().push(f) =~= seq![f]);
                                    },
                                }
                            } else {
                                assert(paths_keyed(root, paths, d, s) == paths_keyed(root, init, d, s));
                            }
                        },
                        None => {
                            assert(lookup(group_paths(root, paths), d) == Some(fresh));
                            assert(fresh[0] == (s2, seq![f]));
                            assert(fresh.drop_first() =~= Seq::<(Seq<char>, Seq<Seq<char>>)>::empty());
                            assert(lookup(fresh.drop_first(), s) is None);
                            assert(files_under(g, d, s) == Seq::<Seq<char>>::empty());
                            if s == s2 {
                                assert(paths_keyed(root, paths, d, s) == paths_keyed(root, init, d, s).push(f));
                                assert(Seq::<Seq<char>>::empty().push(f) =~= seq![f]);
                            } else {
                                assert(paths_keyed(root, paths, d, s) == paths_keyed(root, init, d, s));
                            }
                        },
                    }
                }
            },
        }
    }
}

/// `s` is the subsystem inferred from a subsystem directory of `g` with at
/// least `min` files: its domain is that directory's domain directory, its
/// name the humanized name of the subsystem directory itself, its path the
/// common directory of the files there, and its id starts with
/// `domain-sub` (or `sub` when the two are the same).
pub open spec fn from_sub_dir(
    s: SubsystemView,
    g: Seq<(Seq<char>, Seq<(Seq<char>, Seq<Seq<char>>)>)>,
    root: Seq<char>,
    min: nat,
) -> bool {
    exists|i: int, j: int|
        0 <= i < g.len() && 0 <= j < g[i].1.len() && (#[trigger] g[i].1[j]).1.len() >= min && s.domain
            == g[i].0 && s.name == spec_humanize(g[i].1[j].0) && s.file_path == spec_common_prefix(
            g[i].1[j].1,
            root,
        ) && base_id(g[i].0, g[i].1[j].0).is_prefix_of(s.id)
}

/// `s` is the subsystem inferred from a whole domain directory of `g` that
/// has files: named after the domain directory, its path the common
/// directory of all the domain's files, its id starting with the domain.
pub open spec fn from_domain_dir(
    s: SubsystemView,
    g: Seq<(Seq<char>, Seq<(Seq<char>, Seq<Seq<char>>)>)>,
    root: Seq<char>,
) -> bool {
    exists|i: int|
        0 <= i < g.len() && s.domain == (#[trigger] g[i]).0 && s.name == spec_humanize(g[i].0)
            && domain_files(g[i].1).len() > 0 && s.file_path == spec_common_prefix(
            domain_files(g[i].1),
            root,
        ) && g[i].0.is_prefix_of(s.id)
}

proof fn lemma_candidate_prefix(base: Seq<char>, k: nat)
    ensures
        base.is_prefix_of(id_candidate(base, k)),
{
    if k > 1 {
        assert((base + seq!['-'] + dec(k)).subrange(0, base.len() as int) =~= base);
    } else {
        assert(base.subrange(0, base.len() as int) =~= base);
    }
}

proof fn lemma_subs_take(
    st: (Seq<SubsystemView>, Seq<Seq<char>>),
    g: Seq<(Seq<char>, Seq<(Seq<char>, Seq<Seq<char>>)>)>,
    i: int,
    m: int,
    root: Seq<char>,
    min: nat,
)
    requires
        0 <= i < g.len(),
        0 <= m <= g[i].1.len(),
    ensures
        ({
            let r = subs_pass(st, g[i].0, g[i].1.take(m), root, min);
            &&& r.0.len() >= st.0.len()
            &&& r.0.take(st.0.len() as int) == st.0
            &&& forall|k: int| st.0.len() <= k < r.0.len() ==> from_sub_dir(#[trigger] r.0[k], g, root, min)
            &&& (r.0.len() > st.0.len() <==> exists|j: int|
                0 <= j < m && (#[trigger] g[i].1[j]).1.len() >= min)
        }),
    decreases m,
{
    let d = g[i].0;
    let es = g[i].1.take(m);
    let r = subs_pass(st, d, es, root, min);
    if m == 0 {
        assert(st.0.take(st.0.len() as int) =~= st.0);
    } else {
        lemma_subs_take(st, g, i, m - 1, root, min);
        assert(es.drop_last() =~= g[i].1.take(m - 1));
        assert(es.last() == g[i].1[m - 1]);
        let prev = subs_pass(st, d, g[i].1.take(m - 1), root, min);
        let e = g[i].1[m - 1];
        if e.1.len() >= min {
            let id = spec_unique_id(base_id(d, e.0), prev.1);
            lemma_candidate_prefix(base_id(d, e.0), least_free(base_id(d, e.0), prev.1));
            assert(r.0 == prev.0.push(new_sub(id, spec_humanize(e.0), d, spec_common_prefix(e.1, root))));
            assert(r.0.take(st.0.len() as int) =~= prev.0.take(st.0.len() as int));
            assert forall|k: int| st.0.len() <= k < r.0.len() implies from_sub_dir(#[trigger] r.0[k], g, root, min) by {
                if k < prev.0.len() {
                    assert(r.0[k] == prev.0[k]);
                } else {
                    assert(g[i].1[m - 1] == e);
                }
            }
        } else {
            assert(r == prev);
            assert forall|j: int| 0 <= j < m && (#[trigger] g[i].1[j]).1.len() >= min implies j < m - 1 by {}
        }
    }
}

proof fn lemma_first_pass_take(
    g: Seq<(Seq<char>, Seq<(Seq<char>, Seq<Seq<char>>)>)>,
    n: int,
    root: Seq<char>,
    min: nat,
)
    requires
        0 <= n <= g.len(),
    ensures
        ({
            let p = first_pass(g.take(n), root, min);
            &&& forall|k: int| 0 <= k < p.0.len() ==> from_sub_dir(#[trigger] p.0[k], g, root, min)
            &&& (p.0.len() > 0 <==> exists|i: int, j: int|
                0 <= i < n && 0 <= j < g[i].1.len() && (#[trigger] g[i].1[j]).1.len() >= min)
        }),
    decreases n,
{
    if n > 0 {
        lemma_first_pass_take(g, n - 1, root, min);
        let t = g.take(n);
        assert(t.drop_last() =~= g.take(n - 1));
        assert(t.last() == g[n - 1]);
        let prev = first_pass(g.take(n - 1), root, min);
        assert(g[n - 1].1.take(g[n - 1].1.len() as int) =~= g[n - 1].1);
        lemma_subs_take(prev, g, n - 1, g[n - 1].1.len() as int, root, min);
        let p = first_pass(t, root, min);
        assert(p == subs_pass(prev, g[n - 1].0, g[n - 1].1, root, min));
        assert forall|k: int| 0 <= k < p.0.len() implies from_sub_dir(#[trigger] p.0[k], g, root, min) by {
            if k < prev.0.len() {
                assert(p.0.take(prev.0.len() as int)[k] == prev.0[k]);
            }
        }
        if p.0.len() > 0 && prev.0.len() == 0 {
            let j = choose|j: int| 0 <= j < g[n - 1].1.len() && (#[trigger] g[n - 1].1[j]).1.len() >= min;
            assert(g[n - 1].1[j].1.len() >= min);
        }
        if exists|i: int, j: int| 0 <= i < n && 0 <= j < g[i].1.len() && (#[trigger] g[i].1[j]).1.len() >= min {
            let (i, j) = choose|i: int, j: int| 0 <= i < n && 0 <= j < g[i].1.len() && (#[trigger] g[i].1[j]).1.len() >= min;
            if i == n - 1 {
                assert(g[n - 1].1[j].1.len() >= min);
            } else {
                assert(g[i].1[j].1.len() >= min);
            }
        }
    } else {
        assert(g.take(0) =~= Seq::<(Seq<char>, Seq<(Seq<char>, Seq<Seq<char>>)>)>::empty());
    }
}

proof fn lemma_fallback_take(
    st: (Seq<SubsystemView>, Seq<Seq<char>>),
    g: Seq<(Seq<char>, Seq<(Seq<char>, Seq<Seq<char>>)>)>,
    n: int,
    root: Seq<char>,
)
    requires
        0 <= n <= g.len(),
    ensures
        ({
            let r = fallback_pass(st, g.take(n), root);
            &&& r.0.len() >= st.0.len()
            &&& forall|k: int| st.0.len() <= k < r.0.len() ==> from_domain_dir(#[trigger] r.0[k], g, root)
        }),
    decreases n,
{
    if n > 0 {
        lemma_fallback_take(st, g, n - 1, root);
        let t = g.take(n);
        assert(t.drop_last() =~= g.take(n - 1));
        assert(t.last() == g[n - 1]);
        let prev = fallback_pass(st, g.take(n - 1), root);
        let r = fallback_pass(st, t, root);
        let d = g[n - 1].0;
        let files = domain_files(g[n - 1].1);
        if files.len() > 0 {
            let id = spec_unique_id(d, prev.1);
            lemma_candidate_prefix(d, least_free(d, prev.1));
            assert(r.0 == prev.0.push(new_sub(id, spec_humanize(d), d, spec_common_prefix(files, root))));
            assert forall|k: int| st.0.len() <= k < r.0.len() implies from_domain_dir(#[trigger] r.0[k], g, root) by {
                if k < prev.0.len() {
                    assert(r.0[k] == prev.0[k]);
                } else {
                    assert(g[n - 1].0 == d);
                }
            }
        } else {
            assert(r == prev);
        }
    } else {
        assert(g.take(0) =~= Seq::<(Seq<char>, Seq<(Seq<char>, Seq<Seq<char>>)>)>::empty());
    }
}

/// Where each inferred subsystem comes from. When some subsystem directory
/// has at least `min_entities` files, every inferred subsystem comes from
/// one such directory: it is named after that subsystem directory itself
/// (not its domain), lies in its domain, and covers its files. Otherwise
/// every inferred subsystem comes from a domain directory with files and is
/// named after it.
pub proof fn lemma_inferred_subsystem_origin(
    g: Seq<(Seq<char>, Seq<(Seq<char>, Seq<Seq<char>>)>)>,
    root: Seq<char>,
    min: nat,
)
    ensures
        (exists|i: int, j: int| 0 <= i < g.len() && 0 <= j < g[i].1.len() && (#[trigger] g[i].1[j]).1.len() >= min)
            ==> forall|k: int|
            0 <= k < spec_infer_subsystems(g, root, min).len() ==> from_sub_dir(
                #[trigger] spec_infer_subsystems(g, root, min)[k],
                g,
                root,
                min,
            ),
        !(exists|i: int, j: int| 0 <= i < g.len() && 0 <= j < g[i].1.len() && (#[trigger] g[i].1[j]).1.len() >= min)
            ==> forall|k: int|
            0 <= k < spec_infer_subsystems(g, root, min).len() ==> from_domain_dir(
                #[trigger] spec_infer_subsystems(g, root, min)[k],
                g,
                root,
            ),
{
    assert(g.take(g.len() as int) =~= g);
    lemma_first_pass_take(g, g.len() as int, root, min);
    let p = first_pass(g, root, min);
    if p.0.len() == 0 {
        lemma_fallback_take(p, g, g.len() as int, root);
    }
}

} // verus!
