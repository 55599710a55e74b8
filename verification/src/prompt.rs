//! Sub-agent prompt generation: partitioning the scanned files among agents.
//!
//! The partitioning strategy follows the file count: below 500 files each
//! agent takes a structural concern, up to 2000 files concerns are combined
//! with a split of the top-level directories, and beyond that directories
//! are dealt out round-robin, largest first.

use vstd::prelude::*;
use crate::ir::{BuildStatus, IrFile};
use crate::input_validation::{regex_error, regex_find, regex_match};
use crate::path::{
    comp_eq, components, components_of, comps_view, parent, path_parent, path_strip_prefix,
    render, strip_prefix, Comp, PathComponent,
};
use crate::text::{
    append_str, chars_lt, chars_of, contains_seq, copy_string, insert_sorted_unique, join_strings, join_with,
    lowercase, seq_lt, str_contains, strictly_sorted, string_of, strs, to_lowercase,
};

verus! {

// ---------------------------------------------------------------------------
// Configuration and strategy
// ---------------------------------------------------------------------------

/// Configuration for prompt generation.
#[derive(Debug, Clone)]
pub struct PromptConfig {
    /// Number of sub-agents to generate assignments for.
    pub agents: usize,
    /// Optional entity name pattern scoping the prompt to matching files.
    pub focus: Option<String>,
    /// Embed the full scan JSON in the prompt.
    pub include_scan: bool,
}

impl Default for PromptConfig {
    fn default() -> (c: Self)
        ensures
            c.agents == 5,
            c.focus is None,
            !c.include_scan,
    {
        PromptConfig { agents: 5, focus: None, include_scan: false }
    }
}

/// How files are partitioned among agents.
#[derive(Debug, Clone, Copy, PartialEq, Eq, Structural)]
pub enum PartitionStrategy {
    /// Fewer than 500 files: each agent gets a structural concern.
    ByConcern,
    /// 500 to 2000 files: concerns combined with directory splitting.
    Hybrid,
    /// More than 2000 files: split by directory.
    ByDirectory,
}

pub open spec fn spec_select_strategy(file_count: nat) -> PartitionStrategy {
    if file_count < 500 {
        PartitionStrategy::ByConcern
    } else if file_count <= 2000 {
        PartitionStrategy::Hybrid
    } else {
        PartitionStrategy::ByDirectory
    }
}

/// The documented thresholds: under 500 files each agent takes a concern,
/// from 500 to 2000 concerns are combined with directories, above 2000
/// files are split by directory; a larger scan never gets a finer-grained
/// strategy than a smaller one.
pub proof fn lemma_strategy_thresholds(n: nat, m: nat)
    ensures
        spec_select_strategy(n) == PartitionStrategy::ByConcern <==> n < 500,
        spec_select_strategy(n) == PartitionStrategy::Hybrid <==> (500 <= n && n <= 2000),
        spec_select_strategy(n) == PartitionStrategy::ByDirectory <==> n > 2000,
        n <= m && spec_select_strategy(n) == PartitionStrategy::ByDirectory ==> spec_select_strategy(m)
            == PartitionStrategy::ByDirectory,
        n <= m && spec_select_strategy(m) == PartitionStrategy::ByConcern ==> spec_select_strategy(n)
            == PartitionStrategy::ByConcern,
{
}

/// Chooses the partitioning strategy from the number of files.
pub fn select_strategy(file_count: usize, agents: usize) -> (s: PartitionStrategy)
    ensures
        s == spec_select_strategy(file_count as nat),
{
    if file_count < 500 {
        PartitionStrategy::ByConcern
    } else if file_count <= 2000 {
        PartitionStrategy::Hybrid
    } else {
        PartitionStrategy::ByDirectory
    }
}

// ---------------------------------------------------------------------------
// Focus filtering
// ---------------------------------------------------------------------------

/// The focus pattern as a case-insensitive regular expression.
pub open spec fn focus_regex(pattern: Seq<char>) -> Seq<char> {
    "(?i)"@ + pattern
}

/// `name` matches the focus pattern: the pattern is a regular expression,
/// searched for ignoring case; a pattern that does not compile as one is
/// taken literally, as a substring of the name, ignoring case.
pub open spec fn name_hit(name: Seq<char>, pattern: Seq<char>) -> bool {
    match regex_error(focus_regex(pattern)) {
        None => regex_match(focus_regex(pattern), name),
        Some(_) => contains_seq(lowercase(name), lowercase(pattern)),
    }
}

/// Some entity of the file has a name (for impls, a target) that the focus
/// pattern matches.
pub open spec fn spec_file_matches(f: IrFile, pattern: Seq<char>) -> bool {
    let pl = pattern;
    ||| exists|k: int| 0 <= k < f.interfaces@.len() && name_hit(#[trigger] f.interfaces@[k].name@, pl)
    ||| exists|k: int| 0 <= k < f.services@.len() && name_hit(#[trigger] f.services@[k].name@, pl)
    ||| exists|k: int| 0 <= k < f.classes@.len() && name_hit(#[trigger] f.classes@[k].name@, pl)
    ||| exists|k: int| 0 <= k < f.functions@.len() && name_hit(#[trigger] f.functions@[k].name@, pl)
    ||| exists|k: int| 0 <= k < f.schemas@.len() && name_hit(#[trigger] f.schemas@[k].name@, pl)
    ||| exists|k: int|
        0 <= k < f.implementations@.len() && name_hit(#[trigger] f.implementations@[k].target@, pl)
    ||| exists|k: int|
        0 <= k < f.type_aliases@.len() && name_hit(#[trigger] f.type_aliases@[k].name@, pl)
}

fn hit(name: &String, pattern: &String) -> (r: bool)
    ensures
        r == name_hit(name@, pattern@),
{
    let mut ci = string_of(&chars_of("(?i)"));
    append_str(&mut ci, pattern.as_str());
    match regex_find(ci.as_str(), name.as_str()) {
        Some(b) => b,
        None => {
            let nl = to_lowercase(name.as_str());
            let pl = to_lowercase(pattern.as_str());
            str_contains(nl.as_str(), pl.as_str())
        },
    }
}

/// Whether any entity of the file matches the focus pattern (a
/// case-insensitive regular expression).
#[verifier::loop_isolation(false)]
pub fn file_has_matching_entity(file: &IrFile, pattern: &str) -> (r: bool)
    ensures
        r == spec_file_matches(*file, pattern@),
{
    let pl = string_of(&chars_of(pattern));
    let mut k: usize = 0;
    while k < file.interfaces.len()
        invariant
            k <= file.interfaces.len(),
            forall|q: int| 0 <= q < k ==> !name_hit(#[trigger] file.interfaces@[q].name@, pl@),
        decreases file.interfaces.len() - k,
    {
        if hit(&file.interfaces[k].name, &pl) {
            assert(name_hit(file.interfaces@[k as int].name@, pattern@));
            return true;
        }
        k += 1;
    }
    let mut k: usize = 0;
    while k < file.services.len()
        invariant
            k <= file.services.len(),
            forall|q: int| 0 <= q < k ==> !name_hit(#[trigger] file.services@[q].name@, pl@),
        decreases file.services.len() - k,
    {
        if hit(&file.services[k].name, &pl) {
            assert(name_hit(file.services@[k as int].name@, pattern@));
            return true;
        }
        k += 1;
    }
    let mut k: usize = 0;
    while k < file.classes.len()
        invariant
            k <= file.classes.len(),
            forall|q: int| 0 <= q < k ==> !name_hit(#[trigger] file.classes@[q].name@, pl@),
        decreases file.classes.len() - k,
    {
        if hit(&file.classes[k].name, &pl) {
            assert(name_hit(file.classes@[k as int].name@, pattern@));
            return true;
        }
        k += 1;
    }
    let mut k: usize = 0;
    while k < file.functions.len()
        invariant
            k <= file.functions.len(),
            forall|q: int| 0 <= q < k ==> !name_hit(#[trigger] file.functions@[q].name@, pl@),
        decreases file.functions.len() - k,
    {
        if hit(&file.functions[k].name, &pl) {
            assert(name_hit(file.functions@[k as int].name@, pattern@));
            return true;
        }
        k += 1;
    }
    let mut k: usize = 0;
    while k < file.schemas.len()
        invariant
            k <= file.schemas.len(),
            forall|q: int| 0 <= q < k ==> !name_hit(#[trigger] file.schemas@[q].name@, pl@),
        decreases file.schemas.len() - k,
    {
        if hit(&file.schemas[k].name, &pl) {
            assert(name_hit(file.schemas@[k as int].name@, pattern@));
            return true;
        }
        k += 1;
    }
    let mut k: usize = 0;
    while k < file.implementations.len()
        invariant
            k <= file.implementations.len(),
            forall|q: int| 0 <= q < k ==> !name_hit(#[trigger] file.implementations@[q].target@, pl@),
        decreases file.implementations.len() - k,
    {
        if hit(&file.implementations[k].target, &pl) {
            assert(name_hit(file.implementations@[k as int].target@, pattern@));
            return true;
        }
        k += 1;
    }
    let mut k: usize = 0;
    while k < file.type_aliases.len()
        invariant
            k <= file.type_aliases.len(),
            forall|q: int| 0 <= q < k ==> !name_hit(#[trigger] file.type_aliases@[q].name@, pl@),
        decreases file.type_aliases.len() - k,
    {
        if hit(&file.type_aliases[k].name, &pl) {
            assert(name_hit(file.type_aliases@[k as int].name@, pattern@));
            return true;
        }
        k += 1;
    }
    false
}

/// The files, in order, that satisfy `keep`.
pub open spec fn files_where(files: Seq<IrFile>, pattern: Seq<char>) -> Seq<IrFile>
    decreases files.len(),
{
    if files.len() == 0 {
        Seq::empty()
    } else if spec_file_matches(files.last(), pattern) {
        files_where(files.drop_last(), pattern).push(files.last())
    } else {
        files_where(files.drop_last(), pattern)
    }
}

pub open spec fn deref_files(v: Seq<&IrFile>) -> Seq<IrFile> {
    v.map_values(|f: &IrFile| *f)
}

/// The files with an entity matching the focus pattern, in order.
pub fn filter_files_by_focus<'a>(files: &'a Vec<IrFile>, pattern: &str) -> (r: Vec<&'a IrFile>)
    ensures
        deref_files(r@) == files_where(files@, pattern@),
{
    let mut r: Vec<&'a IrFile> = Vec::new();
    let mut i: usize = 0;
    while i < files.len()
        invariant
            i <= files.len(),
            deref_files(r@) == files_where(files@.take(i as int), pattern@),
        decreases files.len() - i,
    {
        assert(files@.take(i + 1 as int).drop_last() =~= files@.take(i as int));
        assert(files@.take(i + 1 as int).last() == files@[i as int]);
        let ghost before = deref_files(r@);
        if file_has_matching_entity(&files[i], pattern) {
            r.push(&files[i]);
            assert(deref_files(r@) =~= before.push(files@[i as int]));
        }
        i += 1;
    }
    assert(files@.take(files.len() as int) =~= files@);
    r
}

// ---------------------------------------------------------------------------
// Path order and sorting
// ---------------------------------------------------------------------------

/// The rank of a component kind in the order of `std::path::Component`.
pub open spec fn comp_rank(c: Comp) -> int {
    match c {
        Comp::Root => 0,
        Comp::Cur => 1,
        Comp::Parent => 2,
        Comp::Normal(_) => 3,
    }
}

pub open spec fn comp_lt(a: Comp, b: Comp) -> bool {
    comp_rank(a) < comp_rank(b) || (a is Normal && b is Normal && seq_lt(a->Normal_0, b->Normal_0))
}

/// Lexicographic order of component sequences.
pub open spec fn comps_lt(a: Seq<Comp>, b: Seq<Comp>) -> bool
    decreases a.len(),
{
    if a.len() == 0 {
        b.len() > 0
    } else if b.len() == 0 {
        false
    } else if comp_lt(a[0], b[0]) {
        true
    } else if comp_lt(b[0], a[0]) {
        false
    } else {
        comps_lt(a.drop_first(), b.drop_first())
    }
}

/// The order of paths (`Path` compares component by component).
pub open spec fn path_lt(p: Seq<char>, q: Seq<char>) -> bool {
    comps_lt(components(p), components(q))
}

/// Inserting `x` into a sorted list after every element not greater than
/// it, as a stable sort does.
pub open spec fn ins_path(s: Seq<Seq<char>>, x: Seq<char>) -> Seq<Seq<char>>
    decreases s.len(),
{
    if s.len() == 0 {
        seq![x]
    } else if path_lt(x, s.last()) {
        ins_path(s.drop_last(), x).push(s.last())
    } else {
        s.push(x)
    }
}

/// The paths in increasing path order, equal ones in their given order
/// (`slice::sort`, which is stable).
pub open spec fn sort_paths(s: Seq<Seq<char>>) -> Seq<Seq<char>>
    decreases s.len(),
{
    if s.len() == 0 {
        Seq::empty()
    } else {
        ins_path(sort_paths(s.drop_last()), s.last())
    }
}

fn comp_lt_exec(a: &PathComponent, b: &PathComponent) -> (r: bool)
    ensures
        r == comp_lt(a@, b@),
{
    match (a, b) {
        (PathComponent::Normal(x), PathComponent::Normal(y)) => chars_lt(x, y),
        _ => rank_of(a) < rank_of(b),
    }
}

fn rank_of(c: &PathComponent) -> (r: u8)
    ensures
        r as int == comp_rank(c@),
{
    match c {
        PathComponent::Root => 0,
        PathComponent::Cur => 1,
        PathComponent::Parent => 2,
        PathComponent::Normal(_) => 3,
    }
}

/// `p < q` in path order.
pub fn path_less(p: &str, q: &str) -> (r: bool)
    ensures
        r == path_lt(p@, q@),
{
    let a = components_of(&chars_of(p));
    let b = components_of(&chars_of(q));
    let ghost av = comps_view(a@);
    let ghost bv = comps_view(b@);
    let mut i: usize = 0;
    assert(av.skip(0) =~= av);
    assert(bv.skip(0) =~= bv);
    while i < a.len() && i < b.len()
        invariant
            i <= a.len(),
            i <= b.len(),
            av == comps_view(a@),
            bv == comps_view(b@),
            av == components(p@),
            bv == components(q@),
            comps_lt(av, bv) == comps_lt(av.skip(i as int), bv.skip(i as int)),
        decreases a.len() - i,
    {
        assert(av.skip(i as int)[0] == a@[i as int]@);
        assert(bv.skip(i as int)[0] == b@[i as int]@);
        if comp_lt_exec(&a[i], &b[i]) {
            return true;
        }
        if comp_lt_exec(&b[i], &a[i]) {
            return false;
        }
        assert(av.skip(i as int).drop_first() =~= av.skip(i + 1 as int));
        assert(bv.skip(i as int).drop_first() =~= bv.skip(i + 1 as int));
        i += 1;
    }
    assert(av.skip(i as int).len() == a.len() - i);
    assert(bv.skip(i as int).len() == b.len() - i);
    i < b.len()
}

proof fn lemma_ins_path_at(s: Seq<Seq<char>>, x: Seq<char>, j: int)
    requires
        0 <= j <= s.len(),
        forall|k: int| j <= k < s.len() ==> path_lt(x, #[trigger] s[k]),
        j > 0 ==> !path_lt(x, s[j - 1]),
    ensures
        ins_path(s, x) == s.take(j).push(x) + s.skip(j),
    decreases s.len(),
{
    if s.len() == 0 {
        assert(s.take(j).push(x) + s.skip(j) =~= seq![x]);
    } else if j == s.len() {
        assert(s.take(j) =~= s);
        assert(s.take(j).push(x) + s.skip(j) =~= s.push(x));
    } else {
        assert(path_lt(x, s[s.len() - 1]));
        lemma_ins_path_at(s.drop_last(), x, j);
        assert(s.take(j).push(x) + s.skip(j) =~= (s.drop_last().take(j).push(x) + s.drop_last().skip(j)).push(s.last()));
    }
}

/// Sorts paths in path order, stably.
pub fn sort_path_list(v: &Vec<String>) -> (r: Vec<String>)
    ensures
        strs(r@) == sort_paths(strs(v@)),
{
    let ghost vv = strs(v@);
    let mut r: Vec<String> = Vec::new();
    let mut i: usize = 0;
    while i < v.len()
        invariant
            i <= v.len(),
            vv == strs(v@),
            strs(r@) == sort_paths(vv.take(i as int)),
        decreases v.len() - i,
    {
        assert(vv.take(i + 1 as int).drop_last() =~= vv.take(i as int));
        assert(vv.take(i + 1 as int).last() == v@[i as int]@);
        let x = &v[i];
        let ghost s = strs(r@);
        let mut j: usize = r.len();
        while j > 0 && path_less(x.as_str(), r[j - 1].as_str())
            invariant
                j <= r.len(),
                s == strs(r@),
                forall|k: int| j <= k < r.len() ==> path_lt(x@, #[trigger] s[k]),
            decreases j,
        {
            j -= 1;
        }
        proof {
            lemma_ins_path_at(s, x@, j as int);
        }
        r.insert(j, copy_string(x));
        assert(strs(r@) =~= s.take(j as int).push(x@) + s.skip(j as int));
        i += 1;
    }
    assert(vv.take(v.len() as int) =~= vv);
    r
}

// ---------------------------------------------------------------------------
// Build status split
// ---------------------------------------------------------------------------

/// The paths of the files with (or without) built status, in order.
pub open spec fn paths_with_status(files: Seq<IrFile>, built: bool) -> Seq<Seq<char>>
    decreases files.len(),
{
    if files.len() == 0 {
        Seq::empty()
    } else if (files.last().build_status == BuildStatus::Built) == built {
        paths_with_status(files.drop_last(), built).push(files.last().path@)
    } else {
        paths_with_status(files.drop_last(), built)
    }
}

/// Splits files into (built paths, other paths), each sorted in path
/// order.
pub fn partition_by_build_status(files: &Vec<&IrFile>) -> (r: (Vec<String>, Vec<String>))
    ensures
        strs(r.0@) == sort_paths(paths_with_status(deref_files(files@), true)),
        strs(r.1@) == sort_paths(paths_with_status(deref_files(files@), false)),
{
    let ghost fv = deref_files(files@);
    let mut built: Vec<String> = Vec::new();
    let mut non_built: Vec<String> = Vec::new();
    let mut i: usize = 0;
    while i < files.len()
        invariant
            i <= files.len(),
            fv == deref_files(files@),
            strs(built@) == paths_with_status(fv.take(i as int), true),
            strs(non_built@) == paths_with_status(fv.take(i as int), false),
        decreases files.len() - i,
    {
        let f = files[i];
        assert(fv.take(i + 1 as int).drop_last() =~= fv.take(i as int));
        assert(fv.take(i + 1 as int).last() == *f);
        let ghost b0 = strs(built@);
        let ghost n0 = strs(non_built@);
        match f.build_status {
            BuildStatus::Built => {
                built.push(copy_string(&f.path));
                assert(strs(built@) =~= b0.push(f.path@));
            },
            _ => {
                non_built.push(copy_string(&f.path));
                assert(strs(non_built@) =~= n0.push(f.path@));
            },
        }
        i += 1;
    }
    assert(fv.take(files.len() as int) =~= fv);
    (sort_path_list(&built), sort_path_list(&non_built))
}

// ---------------------------------------------------------------------------
// Directories
// ---------------------------------------------------------------------------

/// The directory of a file relative to the root, when it has one that is
/// under the root and not the root itself.
pub open spec fn rel_dir(path: Seq<char>, root: Seq<char>) -> Option<Seq<char>> {
    match parent(path) {
        None => None,
        Some(p) => match strip_prefix(p, root) {
            None => None,
            Some(rel) => if rel.len() > 0 {
                Some(rel)
            } else {
                None
            },
        },
    }
}

/// The directories of the files, as a set.
pub open spec fn dir_set(files: Seq<IrFile>, root: Seq<char>) -> Set<Seq<char>> {
    Set::new(|d: Seq<char>| exists|k: int| 0 <= k < files.len() && rel_dir(#[trigger] files[k].path@, root) == Some(d))
}

/// The directories of the files in increasing order, each once.
pub open spec fn sorted_dirs(files: Seq<IrFile>, root: Seq<char>) -> Seq<Seq<char>> {
    choose|ds: Seq<Seq<char>>| strictly_sorted(ds) && ds.to_set() == dir_set(files, root)
}

pub open spec fn comma() -> Seq<char> {
    seq![',', ' ']
}

fn comma_str() -> (r: &'static str)
    ensures
        r@ == comma(),
{
    let r = ", ";
    proof {
        reveal_strlit(", ");
        assert(r@ =~= comma());
    }
    r
}

fn rel_dir_of(path: &String, root: &str) -> (r: Option<String>)
    ensures
        match r {
            Some(d) => rel_dir(path@, root@) == Some(d@),
            None => rel_dir(path@, root@) is None,
        },
{
    match path_parent(path.as_str()) {
        None => None,
        Some(p) => match path_strip_prefix(p.as_str(), root) {
            None => None,
            Some(rel) => if rel.as_str().is_empty() {
                None
            } else {
                Some(rel)
            },
        },
    }
}

/// The directories of the files relative to the root, sorted and each
/// once.
pub fn directory_list(files: &Vec<&IrFile>, root: &str) -> (r: Vec<String>)
    ensures
        strictly_sorted(strs(r@)),
        strs(r@).to_set() == dir_set(deref_files(files@), root@),
        strs(r@) == sorted_dirs(deref_files(files@), root@),
{
    let ghost fv = deref_files(files@);
    let mut r: Vec<String> = Vec::new();
    let mut i: usize = 0;
    assert(strs(r@).to_set() =~= dir_set(fv.take(0), root@));
    while i < files.len()
        invariant
            i <= files.len(),
            fv == deref_files(files@),
            strictly_sorted(strs(r@)),
            strs(r@).to_set() == dir_set(fv.take(i as int), root@),
        decreases files.len() - i,
    {
        let f = files[i];
        assert(fv[i as int] == *f);
        let ghost before = strs(r@).to_set();
        let ghost nxt = fv.take(i + 1 as int);
        match rel_dir_of(&f.path, root) {
            Some(d) => {
                let ghost dv = d@;
                insert_sorted_unique(&mut r, d);
                assert(dir_set(nxt, root@) =~= before.insert(dv)) by {
                    assert forall|x| dir_set(nxt, root@).contains(x) <==> before.insert(dv).contains(x) by {
                        if dir_set(nxt, root@).contains(x) {
                            let k = choose|k: int| 0 <= k < nxt.len() && rel_dir(#[trigger] nxt[k].path@, root@) == Some(x);
                            if k < i {
                                assert(fv.take(i as int)[k] == nxt[k]);
                                assert(dir_set(fv.take(i as int), root@).contains(x));
                            }
                        }
                        if before.contains(x) {
                            let k = choose|k: int| 0 <= k < i && rel_dir(#[trigger] fv.take(i as int)[k].path@, root@) == Some(x);
                            assert(nxt[k] == fv.take(i as int)[k]);
                        }
                        if x == dv {
                            assert(nxt[i as int] == *f);
                        }
                    }
                }
            },
            None => {
                assert(dir_set(nxt, root@) =~= before) by {
                    assert forall|x| dir_set(nxt, root@).contains(x) <==> before.contains(x) by {
                        if dir_set(nxt, root@).contains(x) {
                            let k = choose|k: int| 0 <= k < nxt.len() && rel_dir(#[trigger] nxt[k].path@, root@) == Some(x);
                            if k < i {
                                assert(fv.take(i as int)[k] == nxt[k]);
                            } else {
                                assert(nxt[k] == *f);
                            }
                        }
                        if before.contains(x) {
                            let k = choose|k: int| 0 <= k < i && rel_dir(#[trigger] fv.take(i as int)[k].path@, root@) == Some(x);
                            assert(nxt[k] == fv.take(i as int)[k]);
                        }
                    }
                }
            },
        }
        i += 1;
    }
    assert(fv.take(files.len() as int) =~= fv);
    proof {
        let ds = sorted_dirs(fv, root@);
        assert(strictly_sorted(strs(r@)) && strs(r@).to_set() == dir_set(fv, root@));
        crate::text::lemma_sorted_listing_unique(ds, strs(r@));
    }
    r
}

/// The unique directories of the files relative to the root, sorted and
/// joined by `, `.
pub fn collect_directories(files: &Vec<&IrFile>, root: &str) -> (r: String)
    ensures
        r@ == join_with(sorted_dirs(deref_files(files@), root@), comma()),
{
    let ds = directory_list(files, root);
    join_strings(&ds, comma_str())
}

// ---------------------------------------------------------------------------
// Grouping by top-level directory
// ---------------------------------------------------------------------------

/// The top-level directory of a file relative to the root, `.` when there
/// is none.
pub open spec fn top_dir(path: Seq<char>, root: Seq<char>) -> Seq<char> {
    match strip_prefix(path, root) {
        Some(rel) => if components(rel).len() > 0 {
            crate::path::comp_text(components(rel)[0])
        } else {
            seq!['.']
        },
        None => seq!['.'],
    }
}

/// The files grouped by top-level directory, in increasing directory order,
/// files in order.
pub open spec fn top_groups(files: Seq<IrFile>, root: Seq<char>) -> Seq<(Seq<char>, Seq<IrFile>)>
    decreases files.len(),
{
    if files.len() == 0 {
        Seq::empty()
    } else {
        let f = files.last();
        crate::builder::ins_sorted(
            top_groups(files.drop_last(), root),
            top_dir(f.path@, root),
            seq![f],
            |v: Seq<IrFile>| v.push(f),
        )
    }
}

pub open spec fn file_groups_view<'a>(v: Seq<(String, Vec<&'a IrFile>)>) -> Seq<(Seq<char>, Seq<IrFile>)> {
    v.map_values(|e: (String, Vec<&'a IrFile>)| (e.0@, deref_files(e.1@)))
}

fn top_dir_of(path: &String, root: &str) -> (r: String)
    ensures
        r@ == top_dir(path@, root@),
{
    proof {
        reveal_strlit(".");
        assert("."@ =~= seq!['.']);
    }
    match path_strip_prefix(path.as_str(), root) {
        Some(rel) => {
            let cs = components_of(&chars_of(rel.as_str()));
            if cs.len() > 0 {
                assert(comps_view(cs@)[0] == cs@[0]@);
                string_of(&crate::path::comp_chars(&cs[0]))
            } else {
                string_of(&chars_of("."))
            }
        },
        None => string_of(&chars_of(".")),
    }
}

/// Groups files by their top-level directory relative to the root.
pub fn group_by_top_level_dir<'a>(files: &Vec<&'a IrFile>, root: &str) -> (r: Vec<(String, Vec<&'a IrFile>)>)
    ensures
        file_groups_view(r@) == top_groups(deref_files(files@), root@),
{
    let ghost fv = deref_files(files@);
    let mut groups: Vec<(String, Vec<&'a IrFile>)> = Vec::new();
    let mut i: usize = 0;
    proof {
        reveal_strlit(".");
    }
    while i < files.len()
        invariant
            i <= files.len(),
            fv == deref_files(files@),
            file_groups_view(groups@) == top_groups(fv.take(i as int), root@),
        decreases files.len() - i,
    {
        let f = files[i];
        assert(fv.take(i + 1 as int).drop_last() =~= fv.take(i as int));
        assert(fv.take(i + 1 as int).last() == *f);
        let key = top_dir_of(&f.path, root);
        let ghost gv = file_groups_view(groups@);
        let kc = chars_of(key.as_str());
        let mut j: usize = 0;
        while j < groups.len() && crate::text::chars_lt(&chars_of(groups[j].0.as_str()), &kc)
            invariant
                j <= groups.len(),
                gv == file_groups_view(groups@),
                kc@ == key@,
                forall|k: int| 0 <= k < j ==> seq_lt(#[trigger] gv[k].0, key@),
            decreases groups.len() - j,
        {
            assert(gv[j as int].0 == groups@[j as int].0@);
            j += 1;
        }
        proof {
            if j < groups.len() {
                assert(gv[j as int].0 == groups@[j as int].0@);
            }
        }
        if j < groups.len() && crate::text::str_eq(groups[j].0.as_str(), key.as_str()) {
            let (k, mut fs) = groups.remove(j);
            let ghost old_fs = deref_files(fs@);
            fs.push(f);
            assert(deref_files(fs@) =~= old_fs.push(*f));
            groups.insert(j, (k, fs));
            assert(file_groups_view(groups@) =~= gv.take(j as int) + (seq![(key@, gv[j as int].1.push(*f))]
                + gv.skip(j + 1 as int)));
        } else {
            let mut fs: Vec<&'a IrFile> = Vec::new();
            fs.push(f);
            assert(deref_files(fs@) =~= seq![*f]);
            groups.insert(j, (key, fs));
            assert(file_groups_view(groups@) =~= gv.take(j as int) + (seq![(key@, seq![*f])] + gv.skip(
                j as int,
            )));
        }
        proof {
            crate::builder::lemma_ins_sorted_at(gv, key@, seq![*f], |v: Seq<IrFile>| v.push(*f), j as int);
        }
        i += 1;
    }
    assert(fv.take(files.len() as int) =~= fv);
    groups
}

// ---------------------------------------------------------------------------
// Concerns
// ---------------------------------------------------------------------------

/// Some class, service or (when `with_interfaces`) interface of the file
/// carries decorators.
pub open spec fn has_decorators(f: IrFile, with_interfaces: bool) -> bool {
    ||| exists|k: int| 0 <= k < f.classes@.len() && (#[trigger] f.classes@[k]).decorators@.len() > 0
    ||| exists|k: int| 0 <= k < f.services@.len() && (#[trigger] f.services@[k]).decorators@.len() > 0
    ||| (with_interfaces && exists|k: int|
        0 <= k < f.interfaces@.len() && (#[trigger] f.interfaces@[k]).decorators@.len() > 0)
}

/// Whether a file falls under concern `c` (interfaces, services,
/// classes and functions, decorators, implementations; any other index
/// takes every file).
pub open spec fn concern_ok(f: IrFile, c: nat, with_interfaces: bool) -> bool {
    if c == 0 {
        f.interfaces@.len() > 0
    } else if c == 1 {
        f.services@.len() > 0
    } else if c == 2 {
        f.classes@.len() > 0 || f.functions@.len() > 0
    } else if c == 3 {
        has_decorators(f, with_interfaces)
    } else if c == 4 {
        f.implementations@.len() > 0
    } else {
        true
    }
}

/// The files of a concern, in order.
pub open spec fn concern_files(files: Seq<IrFile>, c: nat, with_interfaces: bool) -> Seq<IrFile>
    decreases files.len(),
{
    if files.len() == 0 {
        Seq::empty()
    } else if concern_ok(files.last(), c, with_interfaces) {
        concern_files(files.drop_last(), c, with_interfaces).push(files.last())
    } else {
        concern_files(files.drop_last(), c, with_interfaces)
    }
}

#[verifier::loop_isolation(false)]
fn decorated(f: &IrFile, with_interfaces: bool) -> (r: bool)
    ensures
        r == has_decorators(*f, with_interfaces),
{
    let mut k: usize = 0;
    while k < f.classes.len()
        invariant
            k <= f.classes.len(),
            forall|q: int| 0 <= q < k ==> (#[trigger] f.classes@[q]).decorators@.len() == 0,
        decreases f.classes.len() - k,
    {
        if f.classes[k].decorators.len() > 0 {
            assert(f.classes@[k as int].decorators@.len() > 0);
            return true;
        }
        k += 1;
    }
    let mut k: usize = 0;
    while k < f.services.len()
        invariant
            k <= f.services.len(),
            forall|q: int| 0 <= q < k ==> (#[trigger] f.services@[q]).decorators@.len() == 0,
        decreases f.services.len() - k,
    {
        if f.services[k].decorators.len() > 0 {
            assert(f.services@[k as int].decorators@.len() > 0);
            return true;
        }
        k += 1;
    }
    if !with_interfaces {
        return false;
    }
    let mut k: usize = 0;
    while k < f.interfaces.len()
        invariant
            k <= f.interfaces.len(),
            forall|q: int| 0 <= q < k ==> (#[trigger] f.interfaces@[q]).decorators@.len() == 0,
        decreases f.interfaces.len() - k,
    {
        if f.interfaces[k].decorators.len() > 0 {
            assert(f.interfaces@[k as int].decorators@.len() > 0);
            return true;
        }
        k += 1;
    }
    false
}

fn concern_holds(f: &IrFile, c: usize, with_interfaces: bool) -> (r: bool)
    ensures
        r == concern_ok(*f, c as nat, with_interfaces),
{
    if c == 0 {
        f.interfaces.len() > 0
    } else if c == 1 {
        f.services.len() > 0
    } else if c == 2 {
        f.classes.len() > 0 || f.functions.len() > 0
    } else if c == 3 {
        decorated(f, with_interfaces)
    } else if c == 4 {
        f.implementations.len() > 0
    } else {
        true
    }
}

fn select_concern<'a>(files: &Vec<&'a IrFile>, c: usize, with_interfaces: bool) -> (r: Vec<&'a IrFile>)
    ensures
        deref_files(r@) == concern_files(deref_files(files@), c as nat, with_interfaces),
{
    let ghost fv = deref_files(files@);
    let mut r: Vec<&'a IrFile> = Vec::new();
    let mut i: usize = 0;
    while i < files.len()
        invariant
            i <= files.len(),
            fv == deref_files(files@),
            deref_files(r@) == concern_files(fv.take(i as int), c as nat, with_interfaces),
        decreases files.len() - i,
    {
        let f = files[i];
        assert(fv.take(i + 1 as int).drop_last() =~= fv.take(i as int));
        assert(fv.take(i + 1 as int).last() == *f);
        let ghost before = deref_files(r@);
        if concern_holds(f, c, with_interfaces) {
            r.push(f);
            assert(deref_files(r@) =~= before.push(*f));
        }
        i += 1;
    }
    assert(fv.take(files.len() as int) =~= fv);
    r
}

/// Filters files by concern index: interfaces, services, classes or
/// functions, decorated classes or services, implementations; any other
/// index keeps every file.
pub fn filter_by_concern<'a>(files: &Vec<&'a IrFile>, concern_idx: usize) -> (r: Vec<&'a IrFile>)
    ensures
        deref_files(r@) == concern_files(deref_files(files@), concern_idx as nat, false),
{
    select_concern(files, concern_idx, false)
}

/// The project name: the root's final name, or `project`.
pub fn project_name_from_root(root: &str) -> (r: String)
    ensures
        r@ == crate::builder::spec_project_name(None, root@),
{
    proof {
        reveal_strlit("project");
    }
    match crate::path::path_file_name(root) {
        Some(n) => n,
        None => string_of(&chars_of("project")),
    }
}

// ---------------------------------------------------------------------------
// Agent assignments
// ---------------------------------------------------------------------------

/// What one sub-agent is asked to do.
#[derive(Debug, Clone)]
pub struct AgentAssignment {
    pub id: usize,
    pub title: String,
    pub scope: String,
    pub directory_focus: String,
    pub instructions: Vec<String>,
    pub built_files: Vec<String>,
    pub non_built_files: Vec<String>,
}

/// The content of an assignment.
pub struct AssignmentView {
    pub id: nat,
    pub title: Seq<char>,
    pub scope: Seq<char>,
    pub directory_focus: Seq<char>,
    pub instructions: Seq<Seq<char>>,
    pub built_files: Seq<Seq<char>>,
    pub non_built_files: Seq<Seq<char>>,
}

impl View for AgentAssignment {
    type V = AssignmentView;

    open spec fn view(&self) -> AssignmentView {
        AssignmentView {
            id: self.id as nat,
            title: self.title@,
            scope: self.scope@,
            directory_focus: self.directory_focus@,
            instructions: strs(self.instructions@),
            built_files: strs(self.built_files@),
            non_built_files: strs(self.non_built_files@),
        }
    }
}

pub open spec fn assignments_view(v: Seq<AgentAssignment>) -> Seq<AssignmentView> {
    v.map_values(|a: AgentAssignment| a@)
}

/// The number of concern roles.
pub const CONCERN_COUNT: usize = 5;

/// The title of concern role `i`.
pub open spec fn concern_title(i: nat) -> Seq<char> {
    if i == 0 { "Interface & Type Boundary Audit"@ }
    else if i == 1 { "Service Architecture Map"@ }
    else if i == 2 { "Method Signature Census"@ }
    else if i == 3 { "Cross-Cutting Concerns"@ }
    else { "Implementation Completeness Audit"@ }
}

/// The scope of concern role `i`.
pub open spec fn concern_scope(i: nat) -> Seq<char> {
    if i == 0 { "All interface, trait, and protocol definitions"@ }
    else if i == 1 { "All service definitions (HTTP controllers, gRPC, workers, etc.)"@ }
    else if i == 2 { "All public methods across classes, structs, impls"@ }
    else if i == 3 { "Decorators, middleware, annotations, generic constraints"@ }
    else { "All impl blocks, class implementations, protocol conformances"@ }
}

/// The instructions of concern role `i`.
pub open spec fn concern_instructions(i: nat) -> Seq<Seq<char>> {
    if i == 0 {
        seq![
            "Read every interface/trait/protocol definition in your assigned files"@,
            "For each, document: name, methods, extends chain, which types implement it"@,
            "Flag any interface with >10 methods (possible god-interface)"@,
            "Flag any interface with 0 implementors (dead interface)"@,
            "Flag any partial implementations (missing methods)"@,
        ]
    } else if i == 1 {
        seq![
            "Read every service definition in your assigned files"@,
            "Document: name, kind, routes/methods, injected dependencies"@,
            "Map the dependency graph between services"@,
            "Flag any service with >15 methods (possible god-service)"@,
            "Flag circular dependencies between services"@,
        ]
    } else if i == 2 {
        seq![
            "Catalog all public methods with their full signatures"@,
            "Group by owner (class/struct/trait)"@,
            "Flag inconsistent naming patterns (mixedCase vs snake_case in same module)"@,
            "Flag methods with >5 parameters (possible refactor target)"@,
            "Identify async/sync boundary crossings"@,
        ]
    } else if i == 3 {
        seq![
            "Catalog all decorator/annotation usage patterns"@,
            "Identify middleware chains and their ordering"@,
            "Map generic type parameter constraints"@,
            "Flag unused or redundant decorators"@,
            "Document the authentication/authorization boundary"@,
        ]
    } else {
        seq![
            "For every interface/trait, verify all implementations are complete"@,
            "Document which methods have default implementations vs required"@,
            "Flag orphaned implementations (impl for trait that doesn't exist)"@,
            "Map the inheritance/composition hierarchy"@,
            "Identify diamond inheritance or conflicting implementations"@,
        ]
    }
}

fn owned(s: &str) -> (r: String)
    ensures
        r@ == s@,
{
    string_of(&chars_of(s))
}

fn concern_title_string(i: usize) -> (r: String)
    ensures
        r@ == concern_title(i as nat),
{
    if i == 0 { owned("Interface & Type Boundary Audit") }
    else if i == 1 { owned("Service Architecture Map") }
    else if i == 2 { owned("Method Signature Census") }
    else if i == 3 { owned("Cross-Cutting Concerns") }
    else { owned("Implementation Completeness Audit") }
}

fn concern_scope_string(i: usize) -> (r: String)
    ensures
        r@ == concern_scope(i as nat),
{
    if i == 0 { owned("All interface, trait, and protocol definitions") }
    else if i == 1 { owned("All service definitions (HTTP controllers, gRPC, workers, etc.)") }
    else if i == 2 { owned("All public methods across classes, structs, impls") }
    else if i == 3 { owned("Decorators, middleware, annotations, generic constraints") }
    else { owned("All impl blocks, class implementations, protocol conformances") }
}

fn five(a: &str, b: &str, c: &str, d: &str, e: &str) -> (r: Vec<String>)
    ensures
        strs(r@) == seq![a@, b@, c@, d@, e@],
{
    let mut r: Vec<String> = Vec::new();
    r.push(owned(a));
    r.push(owned(b));
    r.push(owned(c));
    r.push(owned(d));
    r.push(owned(e));
    assert(strs(r@) =~= seq![a@, b@, c@, d@, e@]);
    r
}

fn concern_instruction_list(i: usize) -> (r: Vec<String>)
    ensures
        strs(r@) == concern_instructions(i as nat),
{
    if i == 0 {
        five(
            "Read every interface/trait/protocol definition in your assigned files",
            "For each, document: name, methods, extends chain, which types implement it",
            "Flag any interface with >10 methods (possible god-interface)",
            "Flag any interface with 0 implementors (dead interface)",
            "Flag any partial implementations (missing methods)",
        )
    } else if i == 1 {
        five(
            "Read every service definition in your assigned files",
            "Document: name, kind, routes/methods, injected dependencies",
            "Map the dependency graph between services",
            "Flag any service with >15 methods (possible god-service)",
            "Flag circular dependencies between services",
        )
    } else if i == 2 {
        five(
            "Catalog all public methods with their full signatures",
            "Group by owner (class/struct/trait)",
            "Flag inconsistent naming patterns (mixedCase vs snake_case in same module)",
            "Flag methods with >5 parameters (possible refactor target)",
            "Identify async/sync boundary crossings",
        )
    } else if i == 3 {
        five(
            "Catalog all decorator/annotation usage patterns",
            "Identify middleware chains and their ordering",
            "Map generic type parameter constraints",
            "Flag unused or redundant decorators",
            "Document the authentication/authorization boundary",
        )
    } else {
        five(
            "For every interface/trait, verify all implementations are complete",
            "Document which methods have default implementations vs required",
            "Flag orphaned implementations (impl for trait that doesn't exist)",
            "Map the inheritance/composition hierarchy",
            "Identify diamond inheritance or conflicting implementations",
        )
    }
}

/// An assignment over a set of files: directories, then built and other
/// paths, each sorted.
pub open spec fn files_assignment(
    id: nat,
    title: Seq<char>,
    scope: Seq<char>,
    instructions: Seq<Seq<char>>,
    fs: Seq<IrFile>,
    root: Seq<char>,
) -> AssignmentView {
    AssignmentView {
        id,
        title,
        scope,
        directory_focus: join_with(sorted_dirs(fs, root), comma()),
        instructions,
        built_files: sort_paths(paths_with_status(fs, true)),
        non_built_files: sort_paths(paths_with_status(fs, false)),
    }
}

fn make_assignment(
    id: usize,
    title: String,
    scope: String,
    instructions: Vec<String>,
    fs: &Vec<&IrFile>,
    root: &str,
) -> (a: AgentAssignment)
    ensures
        a@ == files_assignment(id as nat, title@, scope@, strs(instructions@), deref_files(fs@), root@),
{
    let (built, non_built) = partition_by_build_status(fs);
    let dirs = collect_directories(fs, root);
    AgentAssignment {
        id,
        title,
        scope,
        directory_focus: dirs,
        instructions,
        built_files: built,
        non_built_files: non_built,
    }
}

pub open spec fn min_nat(a: nat, b: nat) -> nat {
    if a < b { a } else { b }
}

/// The concern-based assignments: one per concern role, for the first
/// `min(agents, 5)` roles.
pub open spec fn spec_concern_assignments(fs: Seq<IrFile>, agents: nat, root: Seq<char>) -> Seq<AssignmentView> {
    Seq::new(
        min_nat(agents, 5),
        |i: int|
            files_assignment(
                (i + 1) as nat,
                concern_title(i as nat),
                concern_scope(i as nat),
                concern_instructions(i as nat),
                concern_files(fs, i as nat, true),
                root,
            ),
    )
}

/// Partitions files by structural concern (fewer than 500 files).
pub fn build_concern_assignments(files: &Vec<&IrFile>, agents: usize, root: &str) -> (r: Vec<AgentAssignment>)
    ensures
        assignments_view(r@) == spec_concern_assignments(deref_files(files@), agents as nat, root@),
{
    let agent_count = if agents < CONCERN_COUNT { agents } else { CONCERN_COUNT };
    let ghost fv = deref_files(files@);
    let mut r: Vec<AgentAssignment> = Vec::new();
    let mut i: usize = 0;
    while i < agent_count
        invariant
            i <= agent_count,
            agent_count == min_nat(agents as nat, 5),
            fv == deref_files(files@),
            assignments_view(r@) == spec_concern_assignments(fv, agents as nat, root@).take(i as int),
        decreases agent_count - i,
    {
        let fs = select_concern(files, i, true);
        let a = make_assignment(i + 1, concern_title_string(i), concern_scope_string(i), concern_instruction_list(i), &fs, root);
        let ghost before = assignments_view(r@);
        r.push(a);
        assert(assignments_view(r@) =~= before.push(a@));
        i += 1;
        assert(spec_concern_assignments(fv, agents as nat, root@).take(i as int) =~= before.push(a@));
    }
    assert(spec_concern_assignments(fv, agents as nat, root@).take(agent_count as int) =~= spec_concern_assignments(fv, agents as nat, root@));
    r
}

/// The files of a run of groups, group by group.
pub open spec fn groups_files(gs: Seq<(Seq<char>, Seq<IrFile>)>) -> Seq<IrFile>
    decreases gs.len(),
{
    if gs.len() == 0 {
        Seq::empty()
    } else {
        groups_files(gs.drop_last()) + gs.last().1
    }
}

pub open spec fn group_keys(gs: Seq<(Seq<char>, Seq<IrFile>)>) -> Seq<Seq<char>> {
    gs.map_values(|e: (Seq<char>, Seq<IrFile>)| e.0)
}

/// The `i`-th of `ac` shares of the directory groups: positions
/// `n*i/ac` up to `n*(i+1)/ac`.
pub open spec fn hybrid_share(g: Seq<(Seq<char>, Seq<IrFile>)>, i: nat, ac: nat) -> Seq<(Seq<char>, Seq<IrFile>)> {
    g.subrange(((g.len() * i) / ac) as int, ((g.len() * (i + 1)) / ac) as int)
}

/// The hybrid assignment of agent `i` among `ac` agents: a concern role
/// plus the `i`-th share of the top-level directories (falling back to the
/// concern's files when the share holds none).
pub open spec fn hybrid_assignment(i: nat, ac: nat, fs: Seq<IrFile>, root: Seq<char>) -> AssignmentView {
    let g = top_groups(fs, root);
    let share = hybrid_share(g, i, ac);
    let own = groups_files(share);
    let af = if own.len() == 0 {
        concern_files(fs, i, false)
    } else {
        own
    };
    files_assignment(
        i + 1,
        concern_title(i),
        concern_scope(i) + " (directories: "@ + join_with(group_keys(share), comma()) + ")"@,
        concern_instructions(i),
        af,
        root,
    )
}

pub open spec fn spec_hybrid_assignments(fs: Seq<IrFile>, agents: nat, root: Seq<char>) -> Seq<AssignmentView> {
    let ac = min_nat(agents, 5);
    Seq::new(ac, |i: int| hybrid_assignment(i as nat, ac, fs, root))
}

proof fn lemma_top_groups_len(fs: Seq<IrFile>, root: Seq<char>)
    ensures
        top_groups(fs, root).len() <= fs.len(),
    decreases fs.len(),
{
    if fs.len() > 0 {
        lemma_top_groups_len(fs.drop_last(), root);
        let f = fs.last();
        crate::builder::lemma_ins_sorted_len_pub(
            top_groups(fs.drop_last(), root),
            top_dir(f.path@, root),
            seq![f],
            |v: Seq<IrFile>| v.push(f),
        );
    }
}

pub proof fn lemma_div_bounds(n: nat, i: nat, ac: nat)
    requires
        0 < ac,
        i < ac,
    ensures
        (n * i) / ac <= (n * (i + 1)) / ac,
        (n * (i + 1)) / ac <= n,
{
    assert(n * i <= n * (i + 1)) by (nonlinear_arith);
    assert(n * (i + 1) <= n * ac) by (nonlinear_arith)
        requires
            i + 1 <= ac,
    ;
    vstd::arithmetic::div_mod::lemma_div_is_ordered((n * i) as int, (n * (i + 1)) as int, ac as int);
    vstd::arithmetic::div_mod::lemma_div_is_ordered((n * (i + 1)) as int, (n * ac) as int, ac as int);
    vstd::arithmetic::div_mod::lemma_div_by_multiple(n as int, ac as int);
}

/// Hybrid partitioning: concern roles combined with directory splitting
/// (500 to 2000 files).
pub fn build_hybrid_assignments(files: &Vec<&IrFile>, agents: usize, root: &str) -> (r: Vec<AgentAssignment>)
    requires
        files@.len() * 8 < usize::MAX,
    ensures
        assignments_view(r@) == spec_hybrid_assignments(deref_files(files@), agents as nat, root@),
{
    let ghost fv = deref_files(files@);
    let groups = group_by_top_level_dir(files, root);
    let ghost gv = file_groups_view(groups@);
    proof {
        lemma_top_groups_len(fv, root@);
    }
    let n = groups.len();
    let agent_count = if agents < CONCERN_COUNT { agents } else { CONCERN_COUNT };
    let mut r: Vec<AgentAssignment> = Vec::new();
    let mut i: usize = 0;
    while i < agent_count
        invariant
            i <= agent_count,
            agent_count == min_nat(agents as nat, 5),
            fv == deref_files(files@),
            gv == file_groups_view(groups@),
            gv == top_groups(fv, root@),
            n == groups.len(),
            n <= files@.len(),
            files@.len() * 8 < usize::MAX,
            assignments_view(r@) == spec_hybrid_assignments(fv, agents as nat, root@).take(i as int),
        decreases agent_count - i,
    {
        assert(n * (i + 1) <= n * 5) by (nonlinear_arith)
            requires
                i + 1 <= 5,
        ;
        assert(n * i <= n * (i + 1)) by (nonlinear_arith);
        assert(n * 5 <= files@.len() * 8) by (nonlinear_arith)
            requires
                n <= files@.len(),
        ;
        let start = (n * i) / agent_count;
        let end = (n * (i + 1)) / agent_count;
        proof {
            lemma_div_bounds(n as nat, i as nat, agent_count as nat);
        }
        let ghost share = gv.subrange(start as int, end as int);
        let mut own: Vec<&IrFile> = Vec::new();
        let mut keys: Vec<String> = Vec::new();
        let mut k: usize = start;
        while k < end
            invariant
                start <= k <= end <= n,
                n == groups.len(),
                gv == file_groups_view(groups@),
                share == gv.subrange(start as int, end as int),
                deref_files(own@) == groups_files(gv.subrange(start as int, k as int)),
                strs(keys@) == group_keys(gv.subrange(start as int, k as int)),
            decreases end - k,
        {
            let ghost before = deref_files(own@);
            let ghost kbefore = strs(keys@);
            assert(gv.subrange(start as int, k + 1 as int).drop_last() =~= gv.subrange(start as int, k as int));
            assert(gv.subrange(start as int, k + 1 as int).last() == gv[k as int]);
            let fs_k = &groups[k].1;
            let mut q: usize = 0;
            while q < fs_k.len()
                invariant
                    q <= fs_k.len(),
                    deref_files(own@) == before + deref_files(fs_k@).take(q as int),
                decreases fs_k.len() - q,
            {
                let ghost b2 = deref_files(own@);
                own.push(fs_k[q]);
                assert(deref_files(own@) =~= b2.push(*fs_k@[q as int]));
                q += 1;
                assert(deref_files(own@) =~= before + deref_files(fs_k@).take(q as int));
            }
            assert(deref_files(fs_k@).take(fs_k.len() as int) =~= deref_files(fs_k@));
            keys.push(copy_string(&groups[k].0));
            assert(strs(keys@) =~= kbefore.push(gv[k as int].0));
            assert(group_keys(gv.subrange(start as int, k + 1 as int)) =~= group_keys(gv.subrange(start as int, k as int)).push(gv[k as int].0));
            k += 1;
        }
        let af = if own.len() == 0 {
            select_concern(files, i, false)
        } else {
            own
        };
        let mut scope = concern_scope_string(i);
        crate::text::append_str(&mut scope, " (directories: ");
        let joined = join_strings(&keys, comma_str());
        crate::text::append_str(&mut scope, joined.as_str());
        crate::text::append_str(&mut scope, ")");
        let a = make_assignment(i + 1, concern_title_string(i), scope, concern_instruction_list(i), &af, root);
        let ghost before = assignments_view(r@);
        r.push(a);
        assert(assignments_view(r@) =~= before.push(a@));
        i += 1;
        assert(spec_hybrid_assignments(fv, agents as nat, root@).take(i as int) =~= before.push(a@));
    }
    assert(spec_hybrid_assignments(fv, agents as nat, root@).take(agent_count as int) =~= spec_hybrid_assignments(fv, agents as nat, root@));
    r
}

/// Inserting a directory group after every group with at least as many
/// files, as a stable sort by decreasing file count does.
pub open spec fn ins_by_count(s: Seq<(Seq<char>, Seq<IrFile>)>, x: (Seq<char>, Seq<IrFile>)) -> Seq<
    (Seq<char>, Seq<IrFile>),
>
    decreases s.len(),
{
    if s.len() == 0 {
        seq![x]
    } else if x.1.len() > s.last().1.len() {
        ins_by_count(s.drop_last(), x).push(s.last())
    } else {
        s.push(x)
    }
}

/// The groups by decreasing file count, ties in their given order.
pub open spec fn by_count(g: Seq<(Seq<char>, Seq<IrFile>)>) -> Seq<(Seq<char>, Seq<IrFile>)>
    decreases g.len(),
{
    if g.len() == 0 {
        Seq::empty()
    } else {
        ins_by_count(by_count(g.drop_last()), g.last())
    }
}

/// The entries dealt to agent `a` of `n`, round-robin: those at positions
/// `a`, `a + n`, `a + 2n`, ...
pub open spec fn round_robin(es: Seq<(Seq<char>, Seq<IrFile>)>, n: nat, a: nat) -> Seq<(Seq<char>, Seq<IrFile>)>
    decreases es.len(),
{
    if es.len() == 0 {
        Seq::empty()
    } else {
        let prev = round_robin(es.drop_last(), n, a);
        if ((es.len() - 1) as nat) % n == a {
            prev.push(es.last())
        } else {
            prev
        }
    }
}

/// The built (or other) paths of a run of groups: each group's paths
/// sorted, groups one after another.
pub open spec fn groups_paths(es: Seq<(Seq<char>, Seq<IrFile>)>, built: bool) -> Seq<Seq<char>>
    decreases es.len(),
{
    if es.len() == 0 {
        Seq::empty()
    } else {
        groups_paths(es.drop_last(), built) + sort_paths(paths_with_status(es.last().1, built))
    }
}

pub open spec fn directory_instructions() -> Seq<Seq<char>> {
    seq![
        "Catalog all interfaces, traits, protocols, services, and classes"@,
        "Document method signatures and their owners"@,
        "Flag god-objects (>10 methods on interface, >15 on service)"@,
        "Map implementation completeness for each trait/interface"@,
        "Identify cross-cutting patterns (decorators, middleware, annotations)"@,
    ]
}

/// The directory assignment of agent `a` among `n`.
pub open spec fn directory_assignment(a: nat, n: nat, fs: Seq<IrFile>, root: Seq<char>) -> AssignmentView {
    let es = round_robin(by_count(top_groups(fs, root)), n, a);
    let dirs = join_with(group_keys(es), comma());
    AssignmentView {
        id: a + 1,
        title: "Directory Group "@ + crate::text::dec(a + 1) + " ("@ + dirs + ")"@,
        scope: "All entities in: "@ + dirs,
        directory_focus: dirs,
        instructions: directory_instructions(),
        built_files: groups_paths(es, true),
        non_built_files: groups_paths(es, false),
    }
}

pub open spec fn spec_directory_assignments(fs: Seq<IrFile>, agents: nat, root: Seq<char>) -> Seq<AssignmentView> {
    let n = if agents == 0 { 1nat } else { agents };
    Seq::new(n, |a: int| directory_assignment(a as nat, n, fs, root))
}

proof fn lemma_ins_by_count_at(s: Seq<(Seq<char>, Seq<IrFile>)>, x: (Seq<char>, Seq<IrFile>), j: int)
    requires
        0 <= j <= s.len(),
        forall|k: int| j <= k < s.len() ==> x.1.len() > (#[trigger] s[k]).1.len(),
        j > 0 ==> !(x.1.len() > s[j - 1].1.len()),
    ensures
        ins_by_count(s, x) == s.take(j).push(x) + s.skip(j),
    decreases s.len(),
{
    if s.len() == 0 {
        assert(s.take(j).push(x) + s.skip(j) =~= seq![x]);
    } else if j == s.len() {
        assert(s.take(j) =~= s);
        assert(s.take(j).push(x) + s.skip(j) =~= s.push(x));
    } else {
        assert(x.1.len() > s[s.len() - 1].1.len());
        lemma_ins_by_count_at(s.drop_last(), x, j);
        assert(s.take(j).push(x) + s.skip(j) =~= (s.drop_last().take(j).push(x) + s.drop_last().skip(j)).push(s.last()));
    }
}

fn copy_group<'a>(g: &(String, Vec<&'a IrFile>)) -> (r: (String, Vec<&'a IrFile>))
    ensures
        r.0@ == g.0@,
        deref_files(r.1@) == deref_files(g.1@),
{
    let fs = g.1.clone();
    assert(fs@ =~= g.1@);
    (copy_string(&g.0), fs)
}

fn sort_by_count<'a>(g: &Vec<(String, Vec<&'a IrFile>)>) -> (r: Vec<(String, Vec<&'a IrFile>)>)
    ensures
        file_groups_view(r@) == by_count(file_groups_view(g@)),
{
    let ghost gv = file_groups_view(g@);
    let mut r: Vec<(String, Vec<&'a IrFile>)> = Vec::new();
    let mut i: usize = 0;
    while i < g.len()
        invariant
            i <= g.len(),
            gv == file_groups_view(g@),
            file_groups_view(r@) == by_count(gv.take(i as int)),
        decreases g.len() - i,
    {
        assert(gv.take(i + 1 as int).drop_last() =~= gv.take(i as int));
        assert(gv.take(i + 1 as int).last() == gv[i as int]);
        let x = copy_group(&g[i]);
        let ghost xv = (x.0@, deref_files(x.1@));
        assert(xv == gv[i as int]);
        let ghost s = file_groups_view(r@);
        let mut j: usize = r.len();
        while j > 0 && x.1.len() > r[j - 1].1.len()
            invariant
                j <= r.len(),
                s == file_groups_view(r@),
                xv == (x.0@, deref_files(x.1@)),
                forall|k: int| j <= k < r.len() ==> xv.1.len() > (#[trigger] s[k]).1.len(),
            decreases j,
        {
            assert(s[j - 1].1.len() == r@[j - 1].1@.len());
            j -= 1;
        }
        proof {
            if j > 0 {
                assert(s[j - 1].1.len() == r@[j - 1].1@.len());
            }
            lemma_ins_by_count_at(s, xv, j as int);
        }
        r.insert(j, x);
        assert(file_groups_view(r@) =~= s.take(j as int).push(xv) + s.skip(j as int));
        i += 1;
    }
    assert(gv.take(g.len() as int) =~= gv);
    r
}

fn directory_instruction_list() -> (r: Vec<String>)
    ensures
        strs(r@) == directory_instructions(),
{
    five(
        "Catalog all interfaces, traits, protocols, services, and classes",
        "Document method signatures and their owners",
        "Flag god-objects (>10 methods on interface, >15 on service)",
        "Map implementation completeness for each trait/interface",
        "Identify cross-cutting patterns (decorators, middleware, annotations)",
    )
}

fn extend_strings(v: &mut Vec<String>, w: &Vec<String>)
    ensures
        strs(final(v)@) == strs(old(v)@) + strs(w@),
{
    let mut i: usize = 0;
    while i < w.len()
        invariant
            i <= w.len(),
            strs(v@) == strs(old(v)@) + strs(w@).take(i as int),
        decreases w.len() - i,
    {
        let ghost b = strs(v@);
        v.push(copy_string(&w[i]));
        assert(strs(v@) =~= b.push(strs(w@)[i as int]));
        i += 1;
        assert(strs(v@) =~= strs(old(v)@) + strs(w@).take(i as int));
    }
    assert(strs(w@).take(w.len() as int) =~= strs(w@));
}

/// Directory-based partitioning (more than 2000 files): top-level
/// directories, largest first, dealt round-robin to the agents.
pub fn build_directory_assignments(files: &Vec<&IrFile>, agents: usize, root: &str) -> (r: Vec<AgentAssignment>)
    requires
        agents < usize::MAX,
    ensures
        assignments_view(r@) == spec_directory_assignments(deref_files(files@), agents as nat, root@),
{
    let ghost fv = deref_files(files@);
    let groups = group_by_top_level_dir(files, root);
    let entries = sort_by_count(&groups);
    let ghost ev = file_groups_view(entries@);
    assert(ev == by_count(top_groups(fv, root@)));
    let agent_count: usize = if agents == 0 { 1 } else { agents };
    let mut r: Vec<AgentAssignment> = Vec::new();
    let mut a: usize = 0;
    while a < agent_count
        invariant
            a <= agent_count,
            agent_count == (if agents == 0 { 1nat } else { agents as nat }),
            agent_count < usize::MAX,
            fv == deref_files(files@),
            ev == file_groups_view(entries@),
            ev == by_count(top_groups(fv, root@)),
            assignments_view(r@) == spec_directory_assignments(fv, agents as nat, root@).take(a as int),
        decreases agent_count - a,
    {
        let mut built: Vec<String> = Vec::new();
        let mut non_built: Vec<String> = Vec::new();
        let mut names: Vec<String> = Vec::new();
        let mut k: usize = 0;
        while k < entries.len()
            invariant
                k <= entries.len(),
                a < agent_count,
                ev == file_groups_view(entries@),
                strs(built@) == groups_paths(round_robin(ev.take(k as int), agent_count as nat, a as nat), true),
                strs(non_built@) == groups_paths(round_robin(ev.take(k as int), agent_count as nat, a as nat), false),
                strs(names@) == group_keys(round_robin(ev.take(k as int), agent_count as nat, a as nat)),
            decreases entries.len() - k,
        {
            assert(ev.take(k + 1 as int).drop_last() =~= ev.take(k as int));
            assert(ev.take(k + 1 as int).last() == ev[k as int]);
            if k % agent_count == a {
                let ghost rr0 = round_robin(ev.take(k as int), agent_count as nat, a as nat);
                let (b, nb) = partition_by_build_status(&entries[k].1);
                extend_strings(&mut built, &b);
                extend_strings(&mut non_built, &nb);
                let ghost n0 = strs(names@);
                names.push(copy_string(&entries[k].0));
                assert(strs(names@) =~= n0.push(ev[k as int].0));
                assert(round_robin(ev.take(k + 1 as int), agent_count as nat, a as nat) == rr0.push(ev[k as int]));
                assert(rr0.push(ev[k as int]).drop_last() =~= rr0);
                assert(group_keys(rr0.push(ev[k as int])) =~= group_keys(rr0).push(ev[k as int].0));
            }
            k += 1;
        }
        assert(ev.take(entries.len() as int) =~= ev);
        let dirs = join_strings(&names, comma_str());
        let mut title = owned("Directory Group ");
        let num = crate::text::decimal((a + 1) as u64);
        crate::text::append_str(&mut title, num.as_str());
        crate::text::append_str(&mut title, " (");
        crate::text::append_str(&mut title, dirs.as_str());
        crate::text::append_str(&mut title, ")");
        let mut scope = owned("All entities in: ");
        crate::text::append_str(&mut scope, dirs.as_str());
        let asg = AgentAssignment {
            id: a + 1,
            title,
            scope,
            directory_focus: dirs,
            instructions: directory_instruction_list(),
            built_files: built,
            non_built_files: non_built,
        };
        let ghost before = assignments_view(r@);
        r.push(asg);
        assert(asg@ == directory_assignment(a as nat, agent_count as nat, fv, root@)) by {
            assert(asg@.title =~= directory_assignment(a as nat, agent_count as nat, fv, root@).title);
            assert(asg@.scope =~= directory_assignment(a as nat, agent_count as nat, fv, root@).scope);
        }
        assert(assignments_view(r@) =~= before.push(asg@));
        a += 1;
        assert(spec_directory_assignments(fv, agents as nat, root@).take(a as int) =~= before.push(asg@));
    }
    assert(spec_directory_assignments(fv, agents as nat, root@).take(agent_count as int) =~= spec_directory_assignments(fv, agents as nat, root@));
    r
}

} // verus!
