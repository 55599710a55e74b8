//! Queries over a scan index: entity summaries, name lookups, statistics.

use vstd::prelude::*;
use vstd::string::StringExecFns;
use crate::ir::{
    BuildStatus, ClassDef, Confidence, EntityKind, EntitySummary, FilterParams, FunctionDef,
    ImplDef, InterfaceDef, IrFile, Language, ScanIndex, SchemaDef, ServiceDef, TypeAlias,
    Visibility,
};
use crate::text::{contains_seq, str_contains, copy_string};
use crate::input_validation::{name_matches, regex_find};

verus! {

/// The content of an entity summary.
pub struct SummarySpec {
    pub name: Seq<char>,
    pub kind: EntityKind,
    pub file: Seq<char>,
    pub line: u32,
    pub language: Language,
    pub build_status: BuildStatus,
    pub confidence: Confidence,
}

impl View for EntitySummary {
    type V = SummarySpec;

    open spec fn view(&self) -> SummarySpec {
        SummarySpec {
            name: self.name@,
            kind: self.kind,
            file: self.file@,
            line: self.line,
            language: self.language,
            build_status: self.build_status,
            confidence: self.confidence,
        }
    }
}

pub open spec fn summaries_view(v: Seq<EntitySummary>) -> Seq<SummarySpec> {
    v.map_values(|x: EntitySummary| x@)
}

/// A name passes the name filter when the pattern, a regular expression,
/// matches it (a pattern that is no valid regex is taken as a substring),
/// or when there is no pattern.
pub open spec fn name_ok(f: FilterParams, name: Seq<char>) -> bool {
    match f.name_pattern {
        None => true,
        Some(p) => name_matches(p@, name),
    }
}

pub open spec fn vis_ok(f: FilterParams, v: Visibility) -> bool {
    match f.visibility {
        None => true,
        Some(x) => x == v,
    }
}

pub open spec fn kind_ok(f: FilterParams, k: EntityKind) -> bool {
    match f.kind {
        None => true,
        Some(ks) => ks@.contains(k),
    }
}

/// A file passes the filter when its language and build status are allowed.
pub open spec fn file_ok(f: FilterParams, file: IrFile) -> bool {
    &&& match f.languages {
        None => true,
        Some(ls) => ls@.contains(file.language),
    }
    &&& match f.build_status {
        None => true,
        Some(b) => b == file.build_status,
    }
}

pub open spec fn summary_of(file: IrFile, name: Seq<char>, kind: EntityKind, line: u32) -> SummarySpec {
    SummarySpec {
        name,
        kind,
        file: file.path@,
        line,
        language: file.language,
        build_status: file.build_status,
        confidence: file.confidence,
    }
}

/// The name an implementation block is listed under: "Trait for Type", or
/// just the type for an inherent impl.
pub open spec fn impl_display_name(i: ImplDef) -> Seq<char> {
    match i.trait_name {
        Some(t) => t@ + " for "@ + i.target@,
        None => i.target@,
    }
}

/// Check if a name matches an optional name pattern: a regular expression
/// searched for in the name, or, when it does not compile, a substring.
pub fn matches_name(pattern: &Option<String>, name: &str) -> (r: bool)
    ensures
        r == match pattern {
            None => true,
            Some(p) => name_matches(p@, name@),
        },
{
    match pattern {
        None => true,
        Some(p) => match regex_find(p.as_str(), name) {
            Some(b) => b,
            None => str_contains(name, p.as_str()),
        },
    }
}

fn visibility_ok(filter: &FilterParams, v: Visibility) -> (r: bool)
    ensures
        r == vis_ok(*filter, v),
{
    match filter.visibility {
        None => true,
        Some(x) => x == v,
    }
}

fn kind_allowed(filter: &FilterParams, k: EntityKind) -> (r: bool)
    ensures
        r == kind_ok(*filter, k),
{
    match &filter.kind {
        None => true,
        Some(ks) => {
            let mut i: usize = 0;
            while i < ks.len()
                invariant
                    i <= ks.len(),
                    filter.kind == Some(*ks),
                    forall|j: int| 0 <= j < i ==> ks@[j] != k,
                decreases ks.len() - i,
            {
                if ks[i] == k {
                    assert(ks@[i as int] == k);
                    assert(ks@.contains(k));
                    return true;
                }
                i += 1;
            }
            false
        },
    }
}

fn file_allowed(filter: &FilterParams, file: &IrFile) -> (r: bool)
    ensures
        r == file_ok(*filter, *file),
{
    let lang_ok = match &filter.languages {
        None => true,
        Some(ls) => {
            let mut found = false;
            let mut i: usize = 0;
            while i < ls.len()
                invariant
                    i <= ls.len(),
                    found == (exists|j: int| 0 <= j < i && ls@[j] == file.language),
                decreases ls.len() - i,
            {
                if ls[i] == file.language {
                    found = true;
                }
                i += 1;
            }
            assert(found == ls@.contains(file.language));
            found
        },
    };
    let status_ok = match filter.build_status {
        None => true,
        Some(b) => b == file.build_status,
    };
    lang_ok && status_ok
}

fn make_summary(file: &IrFile, name: String, kind: EntityKind, line: u32) -> (s: EntitySummary)
    ensures
        s@ == summary_of(*file, name@, kind, line),
{
    EntitySummary {
        name,
        kind,
        file: copy_string(&file.path),
        line,
        language: file.language,
        build_status: file.build_status,
        confidence: file.confidence,
    }
}

fn impl_name(i: &ImplDef) -> (r: String)
    ensures
        r@ == impl_display_name(*i),
{
    match &i.trait_name {
        Some(t) => {
            let mut s = copy_string(t);
            s.append(" for ");
            s.append(i.target.as_str());
            s
        },
        None => copy_string(&i.target),
    }
}

pub open spec fn interface_summaries(file: IrFile, f: FilterParams, items: Seq<InterfaceDef>) -> Seq<SummarySpec>
    decreases items.len(),
{
    if items.len() == 0 {
        Seq::empty()
    } else {
        let prev = interface_summaries(file, f, items.drop_last());
        let x = items.last();
        if name_ok(f, x.name@) && vis_ok(f, x.visibility) {
            prev.push(summary_of(file, x.name@, EntityKind::Interface, x.span.start_line))
        } else {
            prev
        }
    }
}

pub open spec fn service_summaries(file: IrFile, f: FilterParams, items: Seq<ServiceDef>) -> Seq<SummarySpec>
    decreases items.len(),
{
    if items.len() == 0 {
        Seq::empty()
    } else {
        let prev = service_summaries(file, f, items.drop_last());
        let x = items.last();
        if name_ok(f, x.name@) {
            prev.push(summary_of(file, x.name@, EntityKind::Service, x.span.start_line))
        } else {
            prev
        }
    }
}

pub open spec fn class_summaries(file: IrFile, f: FilterParams, items: Seq<ClassDef>) -> Seq<SummarySpec>
    decreases items.len(),
{
    if items.len() == 0 {
        Seq::empty()
    } else {
        let prev = class_summaries(file, f, items.drop_last());
        let x = items.last();
        if name_ok(f, x.name@) && vis_ok(f, x.visibility) {
            prev.push(summary_of(file, x.name@, EntityKind::Class, x.span.start_line))
        } else {
            prev
        }
    }
}

pub open spec fn function_summaries(file: IrFile, f: FilterParams, items: Seq<FunctionDef>) -> Seq<SummarySpec>
    decreases items.len(),
{
    if items.len() == 0 {
        Seq::empty()
    } else {
        let prev = function_summaries(file, f, items.drop_last());
        let x = items.last();
        if name_ok(f, x.name@) && vis_ok(f, x.visibility) {
            prev.push(summary_of(file, x.name@, EntityKind::Function, x.span.start_line))
        } else {
            prev
        }
    }
}

pub open spec fn schema_summaries(file: IrFile, f: FilterParams, items: Seq<SchemaDef>) -> Seq<SummarySpec>
    decreases items.len(),
{
    if items.len() == 0 {
        Seq::empty()
    } else {
        let prev = schema_summaries(file, f, items.drop_last());
        let x = items.last();
        if name_ok(f, x.name@) {
            prev.push(summary_of(file, x.name@, EntityKind::Schema, x.span.start_line))
        } else {
            prev
        }
    }
}

pub open spec fn impl_summaries(file: IrFile, f: FilterParams, items: Seq<ImplDef>) -> Seq<SummarySpec>
    decreases items.len(),
{
    if items.len() == 0 {
        Seq::empty()
    } else {
        let prev = impl_summaries(file, f, items.drop_last());
        let x = items.last();
        if name_ok(f, impl_display_name(x)) {
            prev.push(summary_of(file, impl_display_name(x), EntityKind::Impl, x.span.start_line))
        } else {
            prev
        }
    }
}

pub open spec fn type_alias_summaries(file: IrFile, f: FilterParams, items: Seq<TypeAlias>) -> Seq<SummarySpec>
    decreases items.len(),
{
    if items.len() == 0 {
        Seq::empty()
    } else {
        let prev = type_alias_summaries(file, f, items.drop_last());
        let x = items.last();
        if name_ok(f, x.name@) && vis_ok(f, x.visibility) {
            prev.push(summary_of(file, x.name@, EntityKind::TypeAlias, x.span.start_line))
        } else {
            prev
        }
    }
}

/// The summaries of one kind of entity in a file, under a filter.
pub open spec fn kind_summaries(file: IrFile, f: FilterParams, k: EntityKind) -> Seq<SummarySpec> {
    if !kind_ok(f, k) {
        Seq::empty()
    } else {
        match k {
            EntityKind::Interface => interface_summaries(file, f, file.interfaces@),
            EntityKind::Service => service_summaries(file, f, file.services@),
            EntityKind::Class => class_summaries(file, f, file.classes@),
            EntityKind::Function => function_summaries(file, f, file.functions@),
            EntityKind::Schema => schema_summaries(file, f, file.schemas@),
            EntityKind::Impl => impl_summaries(file, f, file.implementations@),
            EntityKind::TypeAlias => type_alias_summaries(file, f, file.type_aliases@),
            EntityKind::Method => Seq::empty(),
        }
    }
}

/// The summaries one file contributes under a filter, in the order
/// interfaces, services, classes, functions, schemas, impls, type aliases.
pub open spec fn file_summaries(file: IrFile, f: FilterParams) -> Seq<SummarySpec> {
    if !file_ok(f, file) {
        Seq::empty()
    } else {
        kind_summaries(file, f, EntityKind::Interface) + kind_summaries(file, f, EntityKind::Service)
            + kind_summaries(file, f, EntityKind::Class) + kind_summaries(file, f, EntityKind::Function)
            + kind_summaries(file, f, EntityKind::Schema) + kind_summaries(file, f, EntityKind::Impl)
            + kind_summaries(file, f, EntityKind::TypeAlias)
    }
}

/// The summaries of a sequence of files, in order.
pub open spec fn all_summaries(files: Seq<IrFile>, f: FilterParams) -> Seq<SummarySpec>
    decreases files.len(),
{
    if files.len() == 0 {
        Seq::empty()
    } else {
        all_summaries(files.drop_last(), f) + file_summaries(files.last(), f)
    }
}

fn add_interface_summaries(file: &IrFile, filter: &FilterParams, out: &mut Vec<EntitySummary>)
    ensures
        summaries_view(final(out)@) == summaries_view(old(out)@) + kind_summaries(
            *file,
            *filter,
            EntityKind::Interface,
        ),
{
    if !kind_allowed(filter, EntityKind::Interface) {
        assert(summaries_view(old(out)@) + Seq::<SummarySpec>::empty() =~= summaries_view(old(out)@));
        return;
    }
    let items = &file.interfaces;
    let mut i: usize = 0;
    while i < items.len()
        invariant
            i <= items.len(),
            items == &file.interfaces,
            summaries_view(out@) == summaries_view(old(out)@) + interface_summaries(*file, *filter, items@.take(i as int)),
        decreases items.len() - i,
    {
        let x = &items[i];
        assert(items@.take(i + 1 as int).drop_last() =~= items@.take(i as int));
        assert(items@.take(i + 1 as int).last() == *x);
        let ghost before = summaries_view(out@);
        if matches_name(&filter.name_pattern, x.name.as_str()) && visibility_ok(filter, x.visibility) {
            out.push(make_summary(file, copy_string(&x.name), EntityKind::Interface, x.span.start_line));
            assert(summaries_view(out@) =~= before.push(summary_of(*file, x.name@, EntityKind::Interface, x.span.start_line)));
        }
        i += 1;
    }
    assert(items@.take(items.len() as int) =~= items@);
}

fn add_service_summaries(file: &IrFile, filter: &FilterParams, out: &mut Vec<EntitySummary>)
    ensures
        summaries_view(final(out)@) == summaries_view(old(out)@) + kind_summaries(
            *file,
            *filter,
            EntityKind::Service,
        ),
{
    if !kind_allowed(filter, EntityKind::Service) {
        assert(summaries_view(old(out)@) + Seq::<SummarySpec>::empty() =~= summaries_view(old(out)@));
        return;
    }
    let items = &file.services;
    let mut i: usize = 0;
    while i < items.len()
        invariant
            i <= items.len(),
            items == &file.services,
            summaries_view(out@) == summaries_view(old(out)@) + service_summaries(*file, *filter, items@.take(i as int)),
        decreases items.len() - i,
    {
        let x = &items[i];
        assert(items@.take(i + 1 as int).drop_last() =~= items@.take(i as int));
        assert(items@.take(i + 1 as int).last() == *x);
        let ghost before = summaries_view(out@);
        if matches_name(&filter.name_pattern, x.name.as_str()) {
            out.push(make_summary(file, copy_string(&x.name), EntityKind::Service, x.span.start_line));
            assert(summaries_view(out@) =~= before.push(summary_of(*file, x.name@, EntityKind::Service, x.span.start_line)));
        }
        i += 1;
    }
    assert(items@.take(items.len() as int) =~= items@);
}

fn add_class_summaries(file: &IrFile, filter: &FilterParams, out: &mut Vec<EntitySummary>)
    ensures
        summaries_view(final(out)@) == summaries_view(old(out)@) + kind_summaries(
            *file,
            *filter,
            EntityKind::Class,
        ),
{
    if !kind_allowed(filter, EntityKind::Class) {
        assert(summaries_view(old(out)@) + Seq::<SummarySpec>::empty() =~= summaries_view(old(out)@));
        return;
    }
    let items = &file.classes;
    let mut i: usize = 0;
    while i < items.len()
        invariant
            i <= items.len(),
            items == &file.classes,
            summaries_view(out@) == summaries_view(old(out)@) + class_summaries(*file, *filter, items@.take(i as int)),
        decreases items.len() - i,
    {
        let x = &items[i];
        assert(items@.take(i + 1 as int).drop_last() =~= items@.take(i as int));
        assert(items@.take(i + 1 as int).last() == *x);
        let ghost before = summaries_view(out@);
        if matches_name(&filter.name_pattern, x.name.as_str()) && visibility_ok(filter, x.visibility) {
            out.push(make_summary(file, copy_string(&x.name), EntityKind::Class, x.span.start_line));
            assert(summaries_view(out@) =~= before.push(summary_of(*file, x.name@, EntityKind::Class, x.span.start_line)));
        }
        i += 1;
    }
    assert(items@.take(items.len() as int) =~= items@);
}

fn add_function_summaries(file: &IrFile, filter: &FilterParams, out: &mut Vec<EntitySummary>)
    ensures
        summaries_view(final(out)@) == summaries_view(old(out)@) + kind_summaries(
            *file,
            *filter,
            EntityKind::Function,
        ),
{
    if !kind_allowed(filter, EntityKind::Function) {
        assert(summaries_view(old(out)@) + Seq::<SummarySpec>::empty() =~= summaries_view(old(out)@));
        return;
    }
    let items = &file.functions;
    let mut i: usize = 0;
    while i < items.len()
        invariant
            i <= items.len(),
            items == &file.functions,
            summaries_view(out@) == summaries_view(old(out)@) + function_summaries(*file, *filter, items@.take(i as int)),
        decreases items.len() - i,
    {
        let x = &items[i];
        assert(items@.take(i + 1 as int).drop_last() =~= items@.take(i as int));
        assert(items@.take(i + 1 as int).last() == *x);
        let ghost before = summaries_view(out@);
        if matches_name(&filter.name_pattern, x.name.as_str()) && visibility_ok(filter, x.visibility) {
            out.push(make_summary(file, copy_string(&x.name), EntityKind::Function, x.span.start_line));
            assert(summaries_view(out@) =~= before.push(summary_of(*file, x.name@, EntityKind::Function, x.span.start_line)));
        }
        i += 1;
    }
    assert(items@.take(items.len() as int) =~= items@);
}

fn add_schema_summaries(file: &IrFile, filter: &FilterParams, out: &mut Vec<EntitySummary>)
    ensures
        summaries_view(final(out)@) == summaries_view(old(out)@) + kind_summaries(
            *file,
            *filter,
            EntityKind::Schema,
        ),
{
    if !kind_allowed(filter, EntityKind::Schema) {
        assert(summaries_view(old(out)@) + Seq::<SummarySpec>::empty() =~= summaries_view(old(out)@));
        return;
    }
    let items = &file.schemas;
    let mut i: usize = 0;
    while i < items.len()
        invariant
            i <= items.len(),
            items == &file.schemas,
            summaries_view(out@) == summaries_view(old(out)@) + schema_summaries(*file, *filter, items@.take(i as int)),
        decreases items.len() - i,
    {
        let x = &items[i];
        assert(items@.take(i + 1 as int).drop_last() =~= items@.take(i as int));
        assert(items@.take(i + 1 as int).last() == *x);
        let ghost before = summaries_view(out@);
        if matches_name(&filter.name_pattern, x.name.as_str()) {
            out.push(make_summary(file, copy_string(&x.name), EntityKind::Schema, x.span.start_line));
            assert(summaries_view(out@) =~= before.push(summary_of(*file, x.name@, EntityKind::Schema, x.span.start_line)));
        }
        i += 1;
    }
    assert(items@.take(items.len() as int) =~= items@);
}

fn add_impl_summaries(file: &IrFile, filter: &FilterParams, out: &mut Vec<EntitySummary>)
    ensures
        summaries_view(final(out)@) == summaries_view(old(out)@) + kind_summaries(
            *file,
            *filter,
            EntityKind::Impl,
        ),
{
    if !kind_allowed(filter, EntityKind::Impl) {
        assert(summaries_view(old(out)@) + Seq::<SummarySpec>::empty() =~= summaries_view(old(out)@));
        return;
    }
    let items = &file.implementations;
    let mut i: usize = 0;
    while i < items.len()
        invariant
            i <= items.len(),
            items == &file.implementations,
            summaries_view(out@) == summaries_view(old(out)@) + impl_summaries(*file, *filter, items@.take(i as int)),
        decreases items.len() - i,
    {
        let x = &items[i];
        assert(items@.take(i + 1 as int).drop_last() =~= items@.take(i as int));
        assert(items@.take(i + 1 as int).last() == *x);
        let ghost before = summaries_view(out@);
        let name = impl_name(x);
        if matches_name(&filter.name_pattern, name.as_str()) {
            out.push(make_summary(file, name, EntityKind::Impl, x.span.start_line));
            assert(summaries_view(out@) =~= before.push(summary_of(*file, impl_display_name(*x), EntityKind::Impl, x.span.start_line)));
        }
        i += 1;
    }
    assert(items@.take(items.len() as int) =~= items@);
}

fn add_type_alias_summaries(file: &IrFile, filter: &FilterParams, out: &mut Vec<EntitySummary>)
    ensures
        summaries_view(final(out)@) == summaries_view(old(out)@) + kind_summaries(
            *file,
            *filter,
            EntityKind::TypeAlias,
        ),
{
    if !kind_allowed(filter, EntityKind::TypeAlias) {
        assert(summaries_view(old(out)@) + Seq::<SummarySpec>::empty() =~= summaries_view(old(out)@));
        return;
    }
    let items = &file.type_aliases;
    let mut i: usize = 0;
    while i < items.len()
        invariant
            i <= items.len(),
            items == &file.type_aliases,
            summaries_view(out@) == summaries_view(old(out)@) + type_alias_summaries(*file, *filter, items@.take(i as int)),
        decreases items.len() - i,
    {
        let x = &items[i];
        assert(items@.take(i + 1 as int).drop_last() =~= items@.take(i as int));
        assert(items@.take(i + 1 as int).last() == *x);
        let ghost before = summaries_view(out@);
        if matches_name(&filter.name_pattern, x.name.as_str()) && visibility_ok(filter, x.visibility) {
            out.push(make_summary(file, copy_string(&x.name), EntityKind::TypeAlias, x.span.start_line));
            assert(summaries_view(out@) =~= before.push(summary_of(*file, x.name@, EntityKind::TypeAlias, x.span.start_line)));
        }
        i += 1;
    }
    assert(items@.take(items.len() as int) =~= items@);
}

fn add_file_summaries(file: &IrFile, filter: &FilterParams, out: &mut Vec<EntitySummary>)
    ensures
        summaries_view(final(out)@) == summaries_view(old(out)@) + file_summaries(*file, *filter),
{
    let ghost s0 = summaries_view(out@);
    if file_allowed(filter, file) {
        add_interface_summaries(file, filter, out);
        assert(summaries_view(out@) =~= s0 + (kind_summaries(*file, *filter, EntityKind::Interface)));
        add_service_summaries(file, filter, out);
        assert(summaries_view(out@) =~= s0 + (kind_summaries(*file, *filter, EntityKind::Interface) + kind_summaries(*file, *filter, EntityKind::Service)));
        add_class_summaries(file, filter, out);
        assert(summaries_view(out@) =~= s0 + (kind_summaries(*file, *filter, EntityKind::Interface) + kind_summaries(*file, *filter, EntityKind::Service) + kind_summaries(*file, *filter, EntityKind::Class)));
        add_function_summaries(file, filter, out);
        assert(summaries_view(out@) =~= s0 + (kind_summaries(*file, *filter, EntityKind::Interface) + kind_summaries(*file, *filter, EntityKind::Service) + kind_summaries(*file, *filter, EntityKind::Class) + kind_summaries(*file, *filter, EntityKind::Function)));
        add_schema_summaries(file, filter, out);
        assert(summaries_view(out@) =~= s0 + (kind_summaries(*file, *filter, EntityKind::Interface) + kind_summaries(*file, *filter, EntityKind::Service) + kind_summaries(*file, *filter, EntityKind::Class) + kind_summaries(*file, *filter, EntityKind::Function) + kind_summaries(*file, *filter, EntityKind::Schema)));
        add_impl_summaries(file, filter, out);
        assert(summaries_view(out@) =~= s0 + (kind_summaries(*file, *filter, EntityKind::Interface) + kind_summaries(*file, *filter, EntityKind::Service) + kind_summaries(*file, *filter, EntityKind::Class) + kind_summaries(*file, *filter, EntityKind::Function) + kind_summaries(*file, *filter, EntityKind::Schema) + kind_summaries(*file, *filter, EntityKind::Impl)));
        add_type_alias_summaries(file, filter, out);
        assert(summaries_view(out@) =~= s0 + (kind_summaries(*file, *filter, EntityKind::Interface) + kind_summaries(*file, *filter, EntityKind::Service) + kind_summaries(*file, *filter, EntityKind::Class) + kind_summaries(*file, *filter, EntityKind::Function) + kind_summaries(*file, *filter, EntityKind::Schema) + kind_summaries(*file, *filter, EntityKind::Impl) + kind_summaries(*file, *filter, EntityKind::TypeAlias)));
    } else {
        assert(s0 + file_summaries(*file, *filter) =~= s0);
    }
}

impl ScanIndex {
    /// Get all entity summaries passing a filter: per file (in order, when
    /// its language and build status pass), interfaces, services, classes,
    /// functions, schemas, impls and type aliases whose kind, name (as a
    /// substring) and, for interfaces, classes, functions and type aliases,
    /// visibility pass.
    pub fn get_entity_summaries(&self, filter: &FilterParams) -> (r: Vec<EntitySummary>)
        ensures
            summaries_view(r@) == all_summaries(self.files@, *filter),
    {
        let mut out: Vec<EntitySummary> = Vec::new();
        let mut i: usize = 0;
        while i < self.files.len()
            invariant
                i <= self.files.len(),
                summaries_view(out@) == all_summaries(self.files@.take(i as int), *filter),
            decreases self.files.len() - i,
        {
            let file = &self.files[i];
            assert(self.files@.take(i + 1 as int).drop_last() =~= self.files@.take(i as int));
            assert(self.files@.take(i + 1 as int).last() == *file);
            let ghost before = summaries_view(out@);
            add_file_summaries(file, filter, &mut out);
            i += 1;
        }
        assert(self.files@.take(self.files.len() as int) =~= self.files@);
        out
    }
}

/// `s` is a summary of an entity of kind `k` in `file` whose name passes
/// the filter's name pattern.
pub open spec fn listed_from(s: SummarySpec, file: IrFile, f: FilterParams, k: EntityKind) -> bool {
    &&& s.kind == k
    &&& s.file == file.path@
    &&& s.language == file.language
    &&& s.build_status == file.build_status
    &&& match f.name_pattern {
        None => true,
        Some(p) => name_matches(p@, s.name),
    }
}

proof fn lemma_interface_summaries_listed(file: IrFile, f: FilterParams, items: Seq<InterfaceDef>)
    ensures
        forall|k: int|
            0 <= k < interface_summaries(file, f, items).len() ==> listed_from(
                #[trigger] interface_summaries(file, f, items)[k],
                file,
                f,
                EntityKind::Interface,
            ),
    decreases items.len(),
{
    if items.len() > 0 {
        lemma_interface_summaries_listed(file, f, items.drop_last());
        let prev = interface_summaries(file, f, items.drop_last());
        let r = interface_summaries(file, f, items);
        assert forall|k: int| 0 <= k < r.len() implies listed_from(#[trigger] r[k], file, f, EntityKind::Interface) by {
            if k < prev.len() {
                assert(r[k] == prev[k]);
            }
        }
    }
}

proof fn lemma_service_summaries_listed(file: IrFile, f: FilterParams, items: Seq<ServiceDef>)
    ensures
        forall|k: int|
            0 <= k < service_summaries(file, f, items).len() ==> listed_from(
                #[trigger] service_summaries(file, f, items)[k],
                file,
                f,
                EntityKind::Service,
            ),
    decreases items.len(),
{
    if items.len() > 0 {
        lemma_service_summaries_listed(file, f, items.drop_last());
        let prev = service_summaries(file, f, items.drop_last());
        let r = service_summaries(file, f, items);
        assert forall|k: int| 0 <= k < r.len() implies listed_from(#[trigger] r[k], file, f, EntityKind::Service) by {
            if k < prev.len() {
                assert(r[k] == prev[k]);
            }
        }
    }
}

proof fn lemma_class_summaries_listed(file: IrFile, f: FilterParams, items: Seq<ClassDef>)
    ensures
        forall|k: int|
            0 <= k < class_summaries(file, f, items).len() ==> listed_from(
                #[trigger] class_summaries(file, f, items)[k],
                file,
                f,
                EntityKind::Class,
            ),
    decreases items.len(),
{
    if items.len() > 0 {
        lemma_class_summaries_listed(file, f, items.drop_last());
        let prev = class_summaries(file, f, items.drop_last());
        let r = class_summaries(file, f, items);
        assert forall|k: int| 0 <= k < r.len() implies listed_from(#[trigger] r[k], file, f, EntityKind::Class) by {
            if k < prev.len() {
                assert(r[k] == prev[k]);
            }
        }
    }
}

proof fn lemma_function_summaries_listed(file: IrFile, f: FilterParams, items: Seq<FunctionDef>)
    ensures
        forall|k: int|
            0 <= k < function_summaries(file, f, items).len() ==> listed_from(
                #[trigger] function_summaries(file, f, items)[k],
                file,
                f,
                EntityKind::Function,
            ),
    decreases items.len(),
{
    if items.len() > 0 {
        lemma_function_summaries_listed(file, f, items.drop_last());
        let prev = function_summaries(file, f, items.drop_last());
        let r = function_summaries(file, f, items);
        assert forall|k: int| 0 <= k < r.len() implies listed_from(#[trigger] r[k], file, f, EntityKind::Function) by {
            if k < prev.len() {
                assert(r[k] == prev[k]);
            }
        }
    }
}

proof fn lemma_schema_summaries_listed(file: IrFile, f: FilterParams, items: Seq<SchemaDef>)
    ensures
        forall|k: int|
            0 <= k < schema_summaries(file, f, items).len() ==> listed_from(
                #[trigger] schema_summaries(file, f, items)[k],
                file,
                f,
                EntityKind::Schema,
            ),
    decreases items.len(),
{
    if items.len() > 0 {
        lemma_schema_summaries_listed(file, f, items.drop_last());
        let prev = schema_summaries(file, f, items.drop_last());
        let r = schema_summaries(file, f, items);
        assert forall|k: int| 0 <= k < r.len() implies listed_from(#[trigger] r[k], file, f, EntityKind::Schema) by {
            if k < prev.len() {
                assert(r[k] == prev[k]);
            }
        }
    }
}

proof fn lemma_impl_summaries_listed(file: IrFile, f: FilterParams, items: Seq<ImplDef>)
    ensures
        forall|k: int|
            0 <= k < impl_summaries(file, f, items).len() ==> listed_from(
                #[trigger] impl_summaries(file, f, items)[k],
                file,
                f,
                EntityKind::Impl,
            ),
    decreases items.len(),
{
    if items.len() > 0 {
        lemma_impl_summaries_listed(file, f, items.drop_last());
        let prev = impl_summaries(file, f, items.drop_last());
        let r = impl_summaries(file, f, items);
        assert forall|k: int| 0 <= k < r.len() implies listed_from(#[trigger] r[k], file, f, EntityKind::Impl) by {
            if k < prev.len() {
                assert(r[k] == prev[k]);
            }
        }
    }
}

proof fn lemma_type_alias_summaries_listed(file: IrFile, f: FilterParams, items: Seq<TypeAlias>)
    ensures
        forall|k: int|
            0 <= k < type_alias_summaries(file, f, items).len() ==> listed_from(
                #[trigger] type_alias_summaries(file, f, items)[k],
                file,
                f,
                EntityKind::TypeAlias,
            ),
    decreases items.len(),
{
    if items.len() > 0 {
        lemma_type_alias_summaries_listed(file, f, items.drop_last());
        let prev = type_alias_summaries(file, f, items.drop_last());
        let r = type_alias_summaries(file, f, items);
        assert forall|k: int| 0 <= k < r.len() implies listed_from(#[trigger] r[k], file, f, EntityKind::TypeAlias) by {
            if k < prev.len() {
                assert(r[k] == prev[k]);
            }
        }
    }
}

/// What the entity summaries of a scan satisfy, whatever the filter: each
/// is an entity of one of the scanned files, of a kind the filter allows
/// (never a method), in a language and with a build status the filter
/// allows, and with a name that passes the filter's name pattern.
pub proof fn lemma_summaries_pass_filter(files: Seq<IrFile>, f: FilterParams)
    ensures
        forall|k: int|
            0 <= k < all_summaries(files, f).len() ==> {
                let s = #[trigger] all_summaries(files, f)[k];
                &&& s.kind != EntityKind::Method
                &&& (f.kind matches Some(ks) ==> ks@.contains(s.kind))
                &&& (f.languages matches Some(ls) ==> ls@.contains(s.language))
                &&& (f.build_status matches Some(b) ==> s.build_status == b)
                &&& (f.name_pattern matches Some(p) ==> name_matches(p@, s.name))
                &&& exists|i: int| 0 <= i < files.len() && s.file == (#[trigger] files[i]).path@
            },
    decreases files.len(),
{
    if files.len() > 0 {
        let init = files.drop_last();
        let file = files.last();
        lemma_summaries_pass_filter(init, f);
        lemma_interface_summaries_listed(file, f, file.interfaces@);
        lemma_service_summaries_listed(file, f, file.services@);
        lemma_class_summaries_listed(file, f, file.classes@);
        lemma_function_summaries_listed(file, f, file.functions@);
        lemma_schema_summaries_listed(file, f, file.schemas@);
        lemma_impl_summaries_listed(file, f, file.implementations@);
        lemma_type_alias_summaries_listed(file, f, file.type_aliases@);
        let prev = all_summaries(init, f);
        let fs = file_summaries(file, f);
        let r = all_summaries(files, f);
        assert(r == prev + fs);
        assert forall|k: int| 0 <= k < r.len() implies ({
            let s = #[trigger] r[k];
            &&& s.kind != EntityKind::Method
            &&& (f.kind matches Some(ks) ==> ks@.contains(s.kind))
            &&& (f.languages matches Some(ls) ==> ls@.contains(s.language))
            &&& (f.build_status matches Some(b) ==> s.build_status == b)
            &&& (f.name_pattern matches Some(p) ==> name_matches(p@, s.name))
            &&& exists|i: int| 0 <= i < files.len() && s.file == (#[trigger] files[i]).path@
        }) by {
            if k < prev.len() {
                assert(r[k] == prev[k]);
                let i = choose|i: int| 0 <= i < init.len() && prev[k].file == (#[trigger] init[i]).path@;
                assert(files[i] == init[i]);
            } else {
                let s = r[k];
                assert(s == fs[k - prev.len()]);
                assert(files[files.len() - 1] == file);
                let a = kind_summaries(file, f, EntityKind::Interface);
                let b = kind_summaries(file, f, EntityKind::Service);
                let c = kind_summaries(file, f, EntityKind::Class);
                let d = kind_summaries(file, f, EntityKind::Function);
                let e = kind_summaries(file, f, EntityKind::Schema);
                let g = kind_summaries(file, f, EntityKind::Impl);
                let h = kind_summaries(file, f, EntityKind::TypeAlias);
                let j = k - prev.len();
                assert(fs == a + b + c + d + e + g + h);
                if j < a.len() {
                    assert(s == a[j]);
                } else if j < a.len() + b.len() {
                    assert(s == b[j - a.len()]);
                } else if j < a.len() + b.len() + c.len() {
                    assert(s == c[j - a.len() - b.len()]);
                } else if j < a.len() + b.len() + c.len() + d.len() {
                    assert(s == d[j - a.len() - b.len() - c.len()]);
                } else if j < a.len() + b.len() + c.len() + d.len() + e.len() {
                    assert(s == e[j - a.len() - b.len() - c.len() - d.len()]);
                } else if j < a.len() + b.len() + c.len() + d.len() + e.len() + g.len() {
                    assert(s == g[j - a.len() - b.len() - c.len() - d.len() - e.len()]);
                } else {
                    assert(s == h[j - a.len() - b.len() - c.len() - d.len() - e.len() - g.len()]);
                }
            }
        }
    }
}

} // verus!
