//! Scan statistics and index construction.

use vstd::prelude::*;
use crate::ir::{ClassDef, ImplDef, IrFile, Language, ScanIndex, ScanStats, ServiceDef};

verus! {

/// The sum of `f` over the files.
pub open spec fn files_total(files: Seq<IrFile>, f: spec_fn(IrFile) -> int) -> int
    decreases files.len(),
{
    if files.len() == 0 {
        0
    } else {
        files_total(files.drop_last(), f) + f(files.last())
    }
}

pub open spec fn class_method_total(s: Seq<ClassDef>) -> int
    decreases s.len(),
{
    if s.len() == 0 {
        0
    } else {
        class_method_total(s.drop_last()) + s.last().methods@.len()
    }
}

pub open spec fn service_method_total(s: Seq<ServiceDef>) -> int
    decreases s.len(),
{
    if s.len() == 0 {
        0
    } else {
        service_method_total(s.drop_last()) + s.last().methods@.len()
    }
}

pub open spec fn impl_method_total(s: Seq<ImplDef>) -> int
    decreases s.len(),
{
    if s.len() == 0 {
        0
    } else {
        impl_method_total(s.drop_last()) + s.last().methods@.len()
    }
}

/// The methods a file holds: those of its classes, services and
/// implementations.
pub open spec fn file_methods(f: IrFile) -> int {
    class_method_total(f.classes@) + service_method_total(f.services@) + impl_method_total(
        f.implementations@,
    )
}

pub open spec fn interfaces_in(f: IrFile) -> int {
    f.interfaces@.len() as int
}

pub open spec fn services_in(f: IrFile) -> int {
    f.services@.len() as int
}

pub open spec fn classes_in(f: IrFile) -> int {
    f.classes@.len() as int
}

pub open spec fn functions_in(f: IrFile) -> int {
    f.functions@.len() as int
}

pub open spec fn schemas_in(f: IrFile) -> int {
    f.schemas@.len() as int
}

pub open spec fn type_aliases_in(f: IrFile) -> int {
    f.type_aliases@.len() as int
}

pub open spec fn implementations_in(f: IrFile) -> int {
    f.implementations@.len() as int
}

/// Whether every total that `compute_stats` keeps fits a `usize`.
pub open spec fn totals_fit(files: Seq<IrFile>) -> bool {
    &&& files_total(files, |f: IrFile| interfaces_in(f)) <= usize::MAX
    &&& files_total(files, |f: IrFile| services_in(f)) <= usize::MAX
    &&& files_total(files, |f: IrFile| classes_in(f)) <= usize::MAX
    &&& files_total(files, |f: IrFile| functions_in(f)) <= usize::MAX
    &&& files_total(files, |f: IrFile| schemas_in(f)) <= usize::MAX
    &&& files_total(files, |f: IrFile| type_aliases_in(f)) <= usize::MAX
    &&& files_total(files, |f: IrFile| implementations_in(f)) <= usize::MAX
    &&& files_total(files, |f: IrFile| file_methods(f)) <= usize::MAX
}

/// The position of language `l` in a tally, or -1.
pub open spec fn tally_pos(t: Seq<(Language, nat)>, l: Language) -> int
    decreases t.len(),
{
    if t.len() == 0 {
        -1
    } else {
        let k = tally_pos(t.drop_last(), l);
        if k >= 0 {
            k
        } else if t.last().0 == l {
            t.len() - 1
        } else {
            -1
        }
    }
}

/// A tally with one more file of language `l`.
pub open spec fn tally_add(t: Seq<(Language, nat)>, l: Language) -> Seq<(Language, nat)> {
    let k = tally_pos(t, l);
    if k >= 0 {
        t.update(k, (l, t[k].1 + 1))
    } else {
        t.push((l, 1nat))
    }
}

/// The number of files per language, one entry per language, in the order
/// the languages first occur.
pub open spec fn language_tally(files: Seq<IrFile>) -> Seq<(Language, nat)>
    decreases files.len(),
{
    if files.len() == 0 {
        Seq::empty()
    } else {
        tally_add(language_tally(files.drop_last()), files.last().language)
    }
}

pub open spec fn tally_view(v: Seq<(Language, usize)>) -> Seq<(Language, nat)> {
    v.map_values(|p: (Language, usize)| (p.0, p.1 as nat))
}

/// The sum of the counts of a tally.
pub open spec fn tally_sum(t: Seq<(Language, nat)>) -> int
    decreases t.len(),
{
    if t.len() == 0 {
        0
    } else {
        tally_sum(t.drop_last()) + t.last().1
    }
}

/// The number of files of language `l`.
pub open spec fn files_of(files: Seq<IrFile>, l: Language) -> int
    decreases files.len(),
{
    if files.len() == 0 {
        0
    } else {
        files_of(files.drop_last(), l) + if files.last().language == l {
            1int
        } else {
            0int
        }
    }
}

proof fn lemma_tally_pos(t: Seq<(Language, nat)>, l: Language)
    ensures
        -1 <= tally_pos(t, l) < t.len(),
        tally_pos(t, l) >= 0 ==> t[tally_pos(t, l)].0 == l,
        tally_pos(t, l) >= 0 ==> forall|j: int| 0 <= j < tally_pos(t, l) ==> t[j].0 != l,
        tally_pos(t, l) < 0 ==> forall|j: int| 0 <= j < t.len() ==> t[j].0 != l,
    decreases t.len(),
{
    if t.len() > 0 {
        let p = t.drop_last();
        lemma_tally_pos(p, l);
        assert forall|j: int| 0 <= j < p.len() implies p[j] == t[j] by {}
    }
}

proof fn lemma_tally_sum_update(t: Seq<(Language, nat)>, k: int, x: (Language, nat))
    requires
        0 <= k < t.len(),
    ensures
        tally_sum(t.update(k, x)) == tally_sum(t) - t[k].1 + x.1,
    decreases t.len(),
{
    if k < t.len() - 1 {
        assert(t.update(k, x).drop_last() =~= t.drop_last().update(k, x));
        lemma_tally_sum_update(t.drop_last(), k, x);
    } else {
        assert(t.update(k, x).drop_last() =~= t.drop_last());
    }
}

/// The per-language counts of `compute_stats` are right: the entry of each
/// language seen counts its files, no language is listed twice, a language
/// with files is listed, and the counts add up to the number of files.
pub proof fn lemma_language_tally(files: Seq<IrFile>)
    ensures
        tally_sum(language_tally(files)) == files.len(),
        forall|i: int|
            0 <= i < language_tally(files).len() ==> language_tally(files)[i].1 == files_of(
                files,
                #[trigger] language_tally(files)[i].0,
            ),
        forall|i: int, j: int|
            0 <= i < j < language_tally(files).len() ==> language_tally(files)[i].0
                != language_tally(files)[j].0,
        forall|l: Language|
            files_of(files, l) > 0 ==> exists|i: int|
                0 <= i < language_tally(files).len() && (#[trigger] language_tally(files)[i]).0
                    == l,
    decreases files.len(),
{
    if files.len() > 0 {
        let prev = files.drop_last();
        let t = language_tally(prev);
        let l = files.last().language;
        lemma_language_tally(prev);
        lemma_tally_pos(t, l);
        let k = tally_pos(t, l);
        let nt = language_tally(files);
        assert(nt == tally_add(t, l));
        assert forall|m: Language| m != l implies files_of(files, m) == files_of(prev, m) by {}
        assert(files_of(files, l) == files_of(prev, l) + 1);
        if k >= 0 {
            assert(nt == t.update(k, (l, t[k].1 + 1)));
            lemma_tally_sum_update(t, k, (l, t[k].1 + 1));
            assert forall|i: int| 0 <= i < nt.len() implies nt[i].1 == files_of(
                files,
                #[trigger] nt[i].0,
            ) by {
                if i != k {
                    assert(nt[i] == t[i]);
                    assert(t[i].0 != l);
                }
            }
            assert forall|m: Language| files_of(files, m) > 0 implies exists|i: int|
                0 <= i < nt.len() && (#[trigger] nt[i]).0 == m by {
                if m == l {
                    assert(nt[k].0 == m);
                } else {
                    assert(files_of(prev, m) > 0);
                    let i = choose|i: int| 0 <= i < t.len() && (#[trigger] t[i]).0 == m;
                    assert(i != k);
                    assert(nt[i] == t[i]);
                    assert(nt[i].0 == m);
                }
            }
        } else {
            assert(nt == t.push((l, 1nat)));
            assert(nt.drop_last() =~= t);
            assert(files_of(prev, l) == 0) by {
                lemma_files_of_nonneg(prev, l);
                if files_of(prev, l) > 0 {
                    let j = choose|j: int| 0 <= j < t.len() && (#[trigger] t[j]).0 == l;
                    assert(t[j].0 != l);
                }
            }
            assert forall|i: int| 0 <= i < nt.len() implies nt[i].1 == files_of(
                files,
                #[trigger] nt[i].0,
            ) by {
                if i < t.len() {
                    assert(nt[i] == t[i]);
                    assert(t[i].0 != l);
                }
            }
            assert forall|m: Language| files_of(files, m) > 0 implies exists|i: int|
                0 <= i < nt.len() && (#[trigger] nt[i]).0 == m by {
                if m == l {
                    assert(nt[t.len() as int].0 == m);
                } else {
                    assert(files_of(prev, m) > 0);
                    let i = choose|i: int| 0 <= i < t.len() && (#[trigger] t[i]).0 == m;
                    assert(nt[i] == t[i]);
                    assert(nt[i].0 == m);
                }
            }
        }
    }
}

proof fn lemma_files_of_nonneg(files: Seq<IrFile>, l: Language)
    ensures
        files_of(files, l) >= 0,
    decreases files.len(),
{
    if files.len() > 0 {
        lemma_files_of_nonneg(files.drop_last(), l);
    }
}

fn count_methods_of_classes(s: &Vec<ClassDef>, acc: usize, bound: Ghost<int>) -> (r: usize)
    requires
        acc + class_method_total(s@) <= bound@ <= usize::MAX,
    ensures
        r == acc + class_method_total(s@),
{
    let mut r = acc;
    let mut i: usize = 0;
    while i < s.len()
        invariant
            i <= s.len(),
            r == acc + class_method_total(s@.take(i as int)),
            acc + class_method_total(s@) <= bound@ <= usize::MAX,
        decreases s.len() - i,
    {
        assert(s@.take(i + 1 as int).drop_last() =~= s@.take(i as int));
        proof {
            lemma_class_total_prefix(s@, i as int + 1);
        }
        r = r + s[i].methods.len();
        i += 1;
    }
    assert(s@.take(s.len() as int) =~= s@);
    r
}

proof fn lemma_class_total_prefix(s: Seq<ClassDef>, n: int)
    requires
        0 <= n <= s.len(),
    ensures
        class_method_total(s.take(n)) <= class_method_total(s),
    decreases s.len(),
{
    if n < s.len() {
        assert(s.drop_last().take(n) =~= s.take(n));
        lemma_class_total_prefix(s.drop_last(), n);
    } else {
        assert(s.take(n) =~= s);
    }
}

fn count_methods_of_services(s: &Vec<ServiceDef>, acc: usize, bound: Ghost<int>) -> (r: usize)
    requires
        acc + service_method_total(s@) <= bound@ <= usize::MAX,
    ensures
        r == acc + service_method_total(s@),
{
    let mut r = acc;
    let mut i: usize = 0;
    while i < s.len()
        invariant
            i <= s.len(),
            r == acc + service_method_total(s@.take(i as int)),
            acc + service_method_total(s@) <= bound@ <= usize::MAX,
        decreases s.len() - i,
    {
        assert(s@.take(i + 1 as int).drop_last() =~= s@.take(i as int));
        proof {
            lemma_service_total_prefix(s@, i as int + 1);
        }
        r = r + s[i].methods.len();
        i += 1;
    }
    assert(s@.take(s.len() as int) =~= s@);
    r
}

proof fn lemma_service_total_prefix(s: Seq<ServiceDef>, n: int)
    requires
        0 <= n <= s.len(),
    ensures
        service_method_total(s.take(n)) <= service_method_total(s),
    decreases s.len(),
{
    if n < s.len() {
        assert(s.drop_last().take(n) =~= s.take(n));
        lemma_service_total_prefix(s.drop_last(), n);
    } else {
        assert(s.take(n) =~= s);
    }
}

fn count_methods_of_impls(s: &Vec<ImplDef>, acc: usize, bound: Ghost<int>) -> (r: usize)
    requires
        acc + impl_method_total(s@) <= bound@ <= usize::MAX,
    ensures
        r == acc + impl_method_total(s@),
{
    let mut r = acc;
    let mut i: usize = 0;
    while i < s.len()
        invariant
            i <= s.len(),
            r == acc + impl_method_total(s@.take(i as int)),
            acc + impl_method_total(s@) <= bound@ <= usize::MAX,
        decreases s.len() - i,
    {
        assert(s@.take(i + 1 as int).drop_last() =~= s@.take(i as int));
        proof {
            lemma_impl_total_prefix(s@, i as int + 1);
        }
        r = r + s[i].methods.len();
        i += 1;
    }
    assert(s@.take(s.len() as int) =~= s@);
    r
}

proof fn lemma_impl_total_prefix(s: Seq<ImplDef>, n: int)
    requires
        0 <= n <= s.len(),
    ensures
        impl_method_total(s.take(n)) <= impl_method_total(s),
    decreases s.len(),
{
    if n < s.len() {
        assert(s.drop_last().take(n) =~= s.take(n));
        lemma_impl_total_prefix(s.drop_last(), n);
    } else {
        assert(s.take(n) =~= s);
    }
}

proof fn lemma_files_total_prefix(files: Seq<IrFile>, f: spec_fn(IrFile) -> int, n: int)
    requires
        0 <= n <= files.len(),
        forall|x: IrFile| #[trigger] f(x) >= 0,
    ensures
        files_total(files.take(n), f) <= files_total(files, f),
        0 <= files_total(files.take(n), f),
    decreases files.len(),
{
    if n < files.len() {
        assert(files.drop_last().take(n) =~= files.take(n));
        lemma_files_total_prefix(files.drop_last(), f, n);
    } else {
        assert(files.take(n) =~= files);
        lemma_files_total_nonneg(files, f);
    }
}

proof fn lemma_files_total_nonneg(files: Seq<IrFile>, f: spec_fn(IrFile) -> int)
    requires
        forall|x: IrFile| #[trigger] f(x) >= 0,
    ensures
        0 <= files_total(files, f),
    decreases files.len(),
{
    if files.len() > 0 {
        lemma_files_total_nonneg(files.drop_last(), f);
    }
}

proof fn lemma_method_totals_nonneg(f: IrFile)
    ensures
        class_method_total(f.classes@) >= 0,
        service_method_total(f.services@) >= 0,
        impl_method_total(f.implementations@) >= 0,
{
    lemma_class_total_prefix(f.classes@, 0);
    lemma_service_total_prefix(f.services@, 0);
    lemma_impl_total_prefix(f.implementations@, 0);
}

/// Adds one file of language `l` to the tally `t`.
fn tally_file(t: &mut Vec<(Language, usize)>, l: Language, bound: Ghost<int>)
    requires
        tally_sum(tally_view(old(t)@)) < bound@ <= usize::MAX,
        forall|i: int| 0 <= i < old(t)@.len() ==> old(t)@[i].1 <= tally_sum(tally_view(old(t)@)),
    ensures
        tally_view(final(t)@) == tally_add(tally_view(old(t)@), l),
{
    let ghost tv = tally_view(t@);
    proof {
        lemma_tally_pos(tv, l);
    }
    let mut i: usize = 0;
    while i < t.len()
        invariant
            i <= t.len(),
            tv == tally_view(t@),
            tv == tally_view(old(t)@),
            forall|j: int| 0 <= j < i ==> t@[j].0 != l,
            forall|j: int| 0 <= j < t@.len() ==> t@[j].1 <= tally_sum(tv),
            tally_sum(tv) < bound@ <= usize::MAX,
            -1 <= tally_pos(tv, l) < tv.len(),
            tally_pos(tv, l) >= 0 ==> tv[tally_pos(tv, l)].0 == l,
            tally_pos(tv, l) >= 0 ==> forall|j: int| 0 <= j < tally_pos(tv, l) ==> tv[j].0 != l,
            tally_pos(tv, l) < 0 ==> forall|j: int| 0 <= j < tv.len() ==> tv[j].0 != l,
        decreases t.len() - i,
    {
        if t[i].0 == l {
            let c = t[i].1;
            assert(tally_pos(tv, l) == i as int) by {
                if tally_pos(tv, l) < 0 {
                    assert(tv[i as int].0 == l);
                } else if tally_pos(tv, l) > i {
                    assert(tv[i as int].0 == l);
                }
            }
            t.set(i, (l, c + 1));
            assert(tally_view(t@) =~= tv.update(i as int, (l, tv[i as int].1 + 1)));
            return;
        }
        i += 1;
    }
    assert(tally_pos(tv, l) < 0) by {
        if tally_pos(tv, l) >= 0 {
            assert(t@[tally_pos(tv, l)].0 != l);
        }
    }
    t.push((l, 1));
    assert(tally_view(t@) =~= tv.push((l, 1nat)));
}

proof fn lemma_tally_entries_bounded(t: Seq<(Language, nat)>, i: int)
    requires
        0 <= i < t.len(),
    ensures
        t[i].1 <= tally_sum(t),
    decreases t.len(),
{
    lemma_tally_sum_nonneg(t.drop_last());
    if i < t.len() - 1 {
        lemma_tally_entries_bounded(t.drop_last(), i);
    }
}

proof fn lemma_tally_sum_nonneg(t: Seq<(Language, nat)>)
    ensures
        tally_sum(t) >= 0,
    decreases t.len(),
{
    if t.len() > 0 {
        lemma_tally_sum_nonneg(t.drop_last());
    }
}

/// The statistics of a scan: how many files, how many files per language
/// (in the order the languages first occur), how many entities of each
/// kind and how many methods (of classes, services and implementations);
/// the timing and cache counters are passed through.
pub fn compute_stats(files: &Vec<IrFile>, parse_duration_ms: u64, cache_hits: usize, cache_misses: usize) -> (s: ScanStats)
    requires
        totals_fit(files@),
    ensures
        s.total_files == files@.len(),
        tally_view(s.files_by_language@) == language_tally(files@),
        s.total_interfaces == files_total(files@, |f: IrFile| interfaces_in(f)),
        s.total_services == files_total(files@, |f: IrFile| services_in(f)),
        s.total_classes == files_total(files@, |f: IrFile| classes_in(f)),
        s.total_methods == files_total(files@, |f: IrFile| file_methods(f)),
        s.total_functions == files_total(files@, |f: IrFile| functions_in(f)),
        s.total_schemas == files_total(files@, |f: IrFile| schemas_in(f)),
        s.total_type_aliases == files_total(files@, |f: IrFile| type_aliases_in(f)),
        s.total_implementations == files_total(files@, |f: IrFile| implementations_in(f)),
        s.parse_duration_ms == parse_duration_ms,
        s.cache_hits == cache_hits,
        s.cache_misses == cache_misses,
{
    let ghost fs = files@;
    let ghost fi = |f: IrFile| interfaces_in(f);
    let ghost fsv = |f: IrFile| services_in(f);
    let ghost fc = |f: IrFile| classes_in(f);
    let ghost ffn = |f: IrFile| functions_in(f);
    let ghost fsc = |f: IrFile| schemas_in(f);
    let ghost fta = |f: IrFile| type_aliases_in(f);
    let ghost fim = |f: IrFile| implementations_in(f);
    let ghost fm = |f: IrFile| file_methods(f);
    proof {
        assert forall|x: IrFile| #[trigger] fm(x) >= 0 by {
            lemma_method_totals_nonneg(x);
        }
    }
    let mut total_interfaces: usize = 0;
    let mut total_services: usize = 0;
    let mut total_classes: usize = 0;
    let mut total_methods: usize = 0;
    let mut total_functions: usize = 0;
    let mut total_schemas: usize = 0;
    let mut total_type_aliases: usize = 0;
    let mut total_implementations: usize = 0;
    let mut by_language: Vec<(Language, usize)> = Vec::new();
    let mut i: usize = 0;
    while i < files.len()
        invariant
            i <= files.len(),
            fs == files@,
            totals_fit(fs),
            forall|x: IrFile| #[trigger] fm(x) >= 0,
            fi == (|f: IrFile| interfaces_in(f)),
            fsv == (|f: IrFile| services_in(f)),
            fc == (|f: IrFile| classes_in(f)),
            ffn == (|f: IrFile| functions_in(f)),
            fsc == (|f: IrFile| schemas_in(f)),
            fta == (|f: IrFile| type_aliases_in(f)),
            fim == (|f: IrFile| implementations_in(f)),
            fm == (|f: IrFile| file_methods(f)),
            total_interfaces == files_total(fs.take(i as int), fi),
            total_services == files_total(fs.take(i as int), fsv),
            total_classes == files_total(fs.take(i as int), fc),
            total_functions == files_total(fs.take(i as int), ffn),
            total_schemas == files_total(fs.take(i as int), fsc),
            total_type_aliases == files_total(fs.take(i as int), fta),
            total_implementations == files_total(fs.take(i as int), fim),
            total_methods == files_total(fs.take(i as int), fm),
            tally_view(by_language@) == language_tally(fs.take(i as int)),
        decreases files.len() - i,
    {
        let file = &files[i];
        let ghost next = fs.take(i + 1 as int);
        assert(next.drop_last() =~= fs.take(i as int));
        assert(next.last() == *file);
        proof {
            lemma_files_total_prefix(fs, fi, i + 1);
            lemma_files_total_prefix(fs, fsv, i + 1);
            lemma_files_total_prefix(fs, fc, i + 1);
            lemma_files_total_prefix(fs, ffn, i + 1);
            lemma_files_total_prefix(fs, fsc, i + 1);
            lemma_files_total_prefix(fs, fta, i + 1);
            lemma_files_total_prefix(fs, fim, i + 1);
            lemma_files_total_prefix(fs, fm, i + 1);
            lemma_method_totals_nonneg(*file);
            lemma_language_tally(fs.take(i as int));
            assert forall|j: int| 0 <= j < by_language@.len() implies by_language@[j].1 <= tally_sum(
                tally_view(by_language@),
            ) by {
                assert(tally_view(by_language@)[j].1 == by_language@[j].1);
                lemma_tally_entries_bounded(tally_view(by_language@), j);
            }
        }
        tally_file(&mut by_language, file.language, Ghost(i as int + 1));
        total_interfaces = total_interfaces + file.interfaces.len();
        total_services = total_services + file.services.len();
        total_classes = total_classes + file.classes.len();
        total_functions = total_functions + file.functions.len();
        total_schemas = total_schemas + file.schemas.len();
        total_type_aliases = total_type_aliases + file.type_aliases.len();
        total_implementations = total_implementations + file.implementations.len();
        let ghost bound = files_total(fs, fm);
        let m1 = count_methods_of_classes(&file.classes, total_methods, Ghost(bound));
        let m2 = count_methods_of_services(&file.services, m1, Ghost(bound));
        total_methods = count_methods_of_impls(&file.implementations, m2, Ghost(bound));
        i += 1;
    }
    assert(fs.take(files.len() as int) =~= fs);
    ScanStats {
        total_files: files.len(),
        files_by_language: by_language,
        total_interfaces,
        total_services,
        total_classes,
        total_methods,
        total_functions,
        total_schemas,
        total_type_aliases,
        total_implementations,
        parse_duration_ms,
        cache_hits,
        cache_misses,
    }
}

/// A fully built index of parsed files: the files in the order given and
/// their statistics.
pub fn build_index(
    root: String,
    version: String,
    scanned_at: String,
    files: Vec<IrFile>,
    parse_duration_ms: u64,
    cache_hits: usize,
    cache_misses: usize,
) -> (ix: ScanIndex)
    requires
        totals_fit(files@),
    ensures
        ix.root == root,
        ix.version == version,
        ix.scanned_at == scanned_at,
        ix.files@ == files@,
        ix.stats.total_files == files@.len(),
        tally_view(ix.stats.files_by_language@) == language_tally(files@),
        ix.stats.total_interfaces == files_total(files@, |f: IrFile| interfaces_in(f)),
        ix.stats.total_services == files_total(files@, |f: IrFile| services_in(f)),
        ix.stats.total_classes == files_total(files@, |f: IrFile| classes_in(f)),
        ix.stats.total_methods == files_total(files@, |f: IrFile| file_methods(f)),
        ix.stats.total_functions == files_total(files@, |f: IrFile| functions_in(f)),
        ix.stats.total_schemas == files_total(files@, |f: IrFile| schemas_in(f)),
        ix.stats.total_type_aliases == files_total(files@, |f: IrFile| type_aliases_in(f)),
        ix.stats.total_implementations == files_total(files@, |f: IrFile| implementations_in(f)),
        ix.stats.parse_duration_ms == parse_duration_ms,
        ix.stats.cache_hits == cache_hits,
        ix.stats.cache_misses == cache_misses,
{
    let stats = compute_stats(&files, parse_duration_ms, cache_hits, cache_misses);
    let mut index = ScanIndex::new(root, version, scanned_at);
    index.files = files;
    index.stats = stats;
    index
}

} // verus!
