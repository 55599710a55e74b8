//! Queries over a scan index: entities by name, kind, framework or owner.
//!
//! Every query walks the files in scan order and each file's entities in
//! order, so results come in scan order.

use vstd::prelude::*;
use crate::index::{all_summaries, summaries_view};
use crate::ir::{
    ClassDef, EntitySummary, FilterParams, FunctionDef, ImplDef, InterfaceDef, IrFile, MethodDef,
    ScanIndex, SchemaDef, SchemaKind, ServiceDef, ServiceKind, TypeAlias,
};
use crate::path::{components, path_eq};
use crate::text::{contains_seq, copy_string, str_contains, str_eq, string_of, chars_of, strs};
use crate::manifest::strings_contain;

verus! {

pub open spec fn opt_str(o: Option<&str>) -> Option<Seq<char>> {
    match o {
        Some(s) => Some(s@),
        None => None,
    }
}

/// A name passes an optional pattern when it contains it.
pub open spec fn pattern_ok(p: Option<Seq<char>>, name: Seq<char>) -> bool {
    match p {
        None => true,
        Some(q) => contains_seq(name, q),
    }
}

/// A framework passes an optional filter when it equals it.
pub open spec fn framework_ok(p: Option<Seq<char>>, fw: Seq<char>) -> bool {
    match p {
        None => true,
        Some(q) => fw == q,
    }
}

/// The content of a service kind.
pub enum KindSpec {
    HttpController,
    GrpcService,
    GraphqlResolver,
    Worker,
    Microservice,
    CliCommand,
    EventHandler,
    Middleware,
    Repository,
    Custom(Seq<char>),
}

pub open spec fn kind_view(k: ServiceKind) -> KindSpec {
    match k {
        ServiceKind::HttpController => KindSpec::HttpController,
        ServiceKind::GrpcService => KindSpec::GrpcService,
        ServiceKind::GraphqlResolver => KindSpec::GraphqlResolver,
        ServiceKind::Worker => KindSpec::Worker,
        ServiceKind::Microservice => KindSpec::Microservice,
        ServiceKind::CliCommand => KindSpec::CliCommand,
        ServiceKind::EventHandler => KindSpec::EventHandler,
        ServiceKind::Middleware => KindSpec::Middleware,
        ServiceKind::Repository => KindSpec::Repository,
        ServiceKind::Custom(s) => KindSpec::Custom(s@),
    }
}

pub open spec fn opt_kind(o: Option<&ServiceKind>) -> Option<KindSpec> {
    match o {
        Some(k) => Some(kind_view(*k)),
        None => None,
    }
}

pub open spec fn kind_ok(p: Option<KindSpec>, k: ServiceKind) -> bool {
    match p {
        None => true,
        Some(q) => kind_view(k) == q,
    }
}

fn name_matches(p: Option<&str>, name: &str) -> (r: bool)
    ensures
        r == pattern_ok(opt_str(p), name@),
{
    match p {
        None => true,
        Some(q) => str_contains(name, q),
    }
}

fn framework_matches(p: Option<&str>, fw: &str) -> (r: bool)
    ensures
        r == framework_ok(opt_str(p), fw@),
{
    match p {
        None => true,
        Some(q) => str_eq(fw, q),
    }
}

/// Whether two service kinds are the same.
pub fn service_kind_eq(a: &ServiceKind, b: &ServiceKind) -> (r: bool)
    ensures
        r == (kind_view(*a) == kind_view(*b)),
{
    match (a, b) {
        (ServiceKind::HttpController, ServiceKind::HttpController) => true,
        (ServiceKind::GrpcService, ServiceKind::GrpcService) => true,
        (ServiceKind::GraphqlResolver, ServiceKind::GraphqlResolver) => true,
        (ServiceKind::Worker, ServiceKind::Worker) => true,
        (ServiceKind::Microservice, ServiceKind::Microservice) => true,
        (ServiceKind::CliCommand, ServiceKind::CliCommand) => true,
        (ServiceKind::EventHandler, ServiceKind::EventHandler) => true,
        (ServiceKind::Middleware, ServiceKind::Middleware) => true,
        (ServiceKind::Repository, ServiceKind::Repository) => true,
        (ServiceKind::Custom(x), ServiceKind::Custom(y)) => str_eq(x.as_str(), y.as_str()),
        _ => false,
    }
}

fn service_kind_ok(p: Option<&ServiceKind>, k: &ServiceKind) -> (r: bool)
    ensures
        r == kind_ok(opt_kind(p), *k),
{
    match p {
        None => true,
        Some(q) => service_kind_eq(k, q),
    }
}

fn implements_trait(x: &ImplDef, trait_name: &str) -> (r: bool)
    ensures
        r == (x.trait_name matches Some(t) && t@ == trait_name@),
{
    match &x.trait_name {
        Some(t) => str_eq(t.as_str(), trait_name),
        None => false,
    }
}

/// The interfaces of the files, in order.
pub open spec fn all_interfaces(files: Seq<IrFile>) -> Seq<InterfaceDef>
    decreases files.len(),
{
    if files.len() == 0 {
        Seq::empty()
    } else {
        all_interfaces(files.drop_last()) + files.last().interfaces@
    }
}

/// The result of `get_interfaces`: the interfaces passing the filter, in order.
pub open spec fn keep_interfaces(s: Seq<InterfaceDef>, name_pattern: Option<&str>) -> Seq<InterfaceDef>
    decreases s.len(),
{
    if s.len() == 0 {
        Seq::empty()
    } else {
        let x = s.last();
        if pattern_ok(opt_str(name_pattern), x.name@) {
            keep_interfaces(s.drop_last(), name_pattern).push(x)
        } else {
            keep_interfaces(s.drop_last(), name_pattern)
        }
    }
}

/// The result of `get_interfaces_by_name`: the interfaces passing the filter, in order.
pub open spec fn keep_interfaces_by_name(s: Seq<InterfaceDef>, name: &str) -> Seq<InterfaceDef>
    decreases s.len(),
{
    if s.len() == 0 {
        Seq::empty()
    } else {
        let x = s.last();
        if x.name@ == name@ {
            keep_interfaces_by_name(s.drop_last(), name).push(x)
        } else {
            keep_interfaces_by_name(s.drop_last(), name)
        }
    }
}

/// The classes of the files, in order.
pub open spec fn all_classes(files: Seq<IrFile>) -> Seq<ClassDef>
    decreases files.len(),
{
    if files.len() == 0 {
        Seq::empty()
    } else {
        all_classes(files.drop_last()) + files.last().classes@
    }
}

/// The result of `get_classes`: the classes passing the filter, in order.
pub open spec fn keep_classes(s: Seq<ClassDef>, name_pattern: Option<&str>) -> Seq<ClassDef>
    decreases s.len(),
{
    if s.len() == 0 {
        Seq::empty()
    } else {
        let x = s.last();
        if pattern_ok(opt_str(name_pattern), x.name@) {
            keep_classes(s.drop_last(), name_pattern).push(x)
        } else {
            keep_classes(s.drop_last(), name_pattern)
        }
    }
}

/// The result of `get_classes_by_name`: the classes passing the filter, in order.
pub open spec fn keep_classes_by_name(s: Seq<ClassDef>, name: &str) -> Seq<ClassDef>
    decreases s.len(),
{
    if s.len() == 0 {
        Seq::empty()
    } else {
        let x = s.last();
        if x.name@ == name@ {
            keep_classes_by_name(s.drop_last(), name).push(x)
        } else {
            keep_classes_by_name(s.drop_last(), name)
        }
    }
}

/// The services of the files, in order.
pub open spec fn all_services(files: Seq<IrFile>) -> Seq<ServiceDef>
    decreases files.len(),
{
    if files.len() == 0 {
        Seq::empty()
    } else {
        all_services(files.drop_last()) + files.last().services@
    }
}

/// The result of `get_services`: the services passing the filter, in order.
pub open spec fn keep_services(s: Seq<ServiceDef>, kind: Option<&ServiceKind>) -> Seq<ServiceDef>
    decreases s.len(),
{
    if s.len() == 0 {
        Seq::empty()
    } else {
        let x = s.last();
        if kind_ok(opt_kind(kind), x.kind) {
            keep_services(s.drop_last(), kind).push(x)
        } else {
            keep_services(s.drop_last(), kind)
        }
    }
}

/// The implementations of the files, in order.
pub open spec fn all_implementations(files: Seq<IrFile>) -> Seq<ImplDef>
    decreases files.len(),
{
    if files.len() == 0 {
        Seq::empty()
    } else {
        all_implementations(files.drop_last()) + files.last().implementations@
    }
}

/// The result of `get_implementations`: the implementations passing the filter, in order.
pub open spec fn keep_implementations(s: Seq<ImplDef>, trait_name: &str) -> Seq<ImplDef>
    decreases s.len(),
{
    if s.len() == 0 {
        Seq::empty()
    } else {
        let x = s.last();
        if x.trait_name matches Some(t) && t@ == trait_name@ {
            keep_implementations(s.drop_last(), trait_name).push(x)
        } else {
            keep_implementations(s.drop_last(), trait_name)
        }
    }
}

/// The schemas of the files, in order.
pub open spec fn all_schemas(files: Seq<IrFile>) -> Seq<SchemaDef>
    decreases files.len(),
{
    if files.len() == 0 {
        Seq::empty()
    } else {
        all_schemas(files.drop_last()) + files.last().schemas@
    }
}

/// The result of `get_schemas`: the schemas passing the filter, in order.
pub open spec fn keep_schemas(s: Seq<SchemaDef>, framework: Option<&str>) -> Seq<SchemaDef>
    decreases s.len(),
{
    if s.len() == 0 {
        Seq::empty()
    } else {
        let x = s.last();
        if framework_ok(opt_str(framework), x.source_framework@) {
            keep_schemas(s.drop_last(), framework).push(x)
        } else {
            keep_schemas(s.drop_last(), framework)
        }
    }
}

/// The result of `get_schemas_by_kind`: the schemas passing the filter, in order.
pub open spec fn keep_schemas_by_kind(s: Seq<SchemaDef>, kind: SchemaKind) -> Seq<SchemaDef>
    decreases s.len(),
{
    if s.len() == 0 {
        Seq::empty()
    } else {
        let x = s.last();
        if x.kind == kind {
            keep_schemas_by_kind(s.drop_last(), kind).push(x)
        } else {
            keep_schemas_by_kind(s.drop_last(), kind)
        }
    }
}

/// The functions of the files, in order.
pub open spec fn all_functions(files: Seq<IrFile>) -> Seq<FunctionDef>
    decreases files.len(),
{
    if files.len() == 0 {
        Seq::empty()
    } else {
        all_functions(files.drop_last()) + files.last().functions@
    }
}

/// The result of `get_functions`: the functions passing the filter, in order.
pub open spec fn keep_functions(s: Seq<FunctionDef>, name_pattern: Option<&str>) -> Seq<FunctionDef>
    decreases s.len(),
{
    if s.len() == 0 {
        Seq::empty()
    } else {
        let x = s.last();
        if pattern_ok(opt_str(name_pattern), x.name@) {
            keep_functions(s.drop_last(), name_pattern).push(x)
        } else {
            keep_functions(s.drop_last(), name_pattern)
        }
    }
}

/// The type_aliases of the files, in order.
pub open spec fn all_type_aliases(files: Seq<IrFile>) -> Seq<TypeAlias>
    decreases files.len(),
{
    if files.len() == 0 {
        Seq::empty()
    } else {
        all_type_aliases(files.drop_last()) + files.last().type_aliases@
    }
}

/// The result of `get_type_aliases`: the type_aliases passing the filter, in order.
pub open spec fn keep_type_aliases(s: Seq<TypeAlias>, name_pattern: Option<&str>) -> Seq<TypeAlias>
    decreases s.len(),
{
    if s.len() == 0 {
        Seq::empty()
    } else {
        let x = s.last();
        if pattern_ok(opt_str(name_pattern), x.name@) {
            keep_type_aliases(s.drop_last(), name_pattern).push(x)
        } else {
            keep_type_aliases(s.drop_last(), name_pattern)
        }
    }
}

pub open spec fn derefs<T>(v: Seq<&T>) -> Seq<T> {
    v.map_values(|x: &T| *x)
}

/// The methods of the classes named `owner`, in order.
pub open spec fn class_methods(s: Seq<ClassDef>, owner: Seq<char>) -> Seq<MethodDef>
    decreases s.len(),
{
    if s.len() == 0 {
        Seq::empty()
    } else if s.last().name@ == owner {
        class_methods(s.drop_last(), owner) + s.last().methods@
    } else {
        class_methods(s.drop_last(), owner)
    }
}

/// The methods of the implementations whose target is `owner`, in order.
pub open spec fn impl_methods(s: Seq<ImplDef>, owner: Seq<char>) -> Seq<MethodDef>
    decreases s.len(),
{
    if s.len() == 0 {
        Seq::empty()
    } else if s.last().target@ == owner {
        impl_methods(s.drop_last(), owner) + s.last().methods@
    } else {
        impl_methods(s.drop_last(), owner)
    }
}

/// The result of `get_methods_by_owner`: per file, the methods of the
/// classes named `owner`, then those of the implementations for `owner`.
pub open spec fn owner_methods(files: Seq<IrFile>, owner: Seq<char>) -> Seq<MethodDef>
    decreases files.len(),
{
    if files.len() == 0 {
        Seq::empty()
    } else {
        owner_methods(files.drop_last(), owner) + class_methods(files.last().classes@, owner)
            + impl_methods(files.last().implementations@, owner)
    }
}

/// The index of the first file whose path equals `path` as a path.
pub open spec fn first_file_index(files: Seq<IrFile>, path: Seq<char>) -> Option<int> {
    if exists|i: int| 0 <= i < files.len() && components(#[trigger] files[i].path@) == components(path) {
        Some(choose|i: int| 0 <= i < files.len() && components(#[trigger] files[i].path@) == components(path)
            && forall|j: int| 0 <= j < i ==> components(#[trigger] files[j].path@) != components(path))
    } else {
        None
    }
}

fn push_methods<'a>(r: &mut Vec<&'a MethodDef>, ms: &'a Vec<MethodDef>)
    ensures
        derefs(final(r)@) == derefs(old(r)@) + ms@,
{
    let ghost start = derefs(r@);
    let mut k: usize = 0;
    while k < ms.len()
        invariant
            k <= ms.len(),
            derefs(r@) == start + ms@.take(k as int),
        decreases ms.len() - k,
    {
        let ghost before = derefs(r@);
        r.push(&ms[k]);
        assert(derefs(r@) =~= before.push(ms@[k as int]));
        assert(start + ms@.take(k + 1 as int) =~= (start + ms@.take(k as int)).push(ms@[k as int]));
        k += 1;
    }
    assert(ms@.take(ms.len() as int) =~= ms@);
}

fn file_owner_methods<'a>(file: &'a IrFile, owner: &str, r: &mut Vec<&'a MethodDef>)
    ensures
        derefs(final(r)@) == derefs(old(r)@) + class_methods(file.classes@, owner@)
            + impl_methods(file.implementations@, owner@),
{
    let ghost start = derefs(r@);
    let mut j: usize = 0;
    while j < file.classes.len()
        invariant
            j <= file.classes.len(),
            derefs(r@) == start + class_methods(file.classes@.take(j as int), owner@),
        decreases file.classes.len() - j,
    {
        let c = &file.classes[j];
        assert(file.classes@.take(j + 1 as int).drop_last() =~= file.classes@.take(j as int));
        assert(file.classes@.take(j + 1 as int).last() == *c);
        if str_eq(c.name.as_str(), owner) {
            push_methods(r, &c.methods);
        }
        j += 1;
    }
    assert(file.classes@.take(file.classes.len() as int) =~= file.classes@);
    let ghost mid = derefs(r@);
    let mut j: usize = 0;
    while j < file.implementations.len()
        invariant
            j <= file.implementations.len(),
            derefs(r@) == mid + impl_methods(file.implementations@.take(j as int), owner@),
        decreases file.implementations.len() - j,
    {
        let x = &file.implementations[j];
        assert(file.implementations@.take(j + 1 as int).drop_last() =~= file.implementations@.take(j as int));
        assert(file.implementations@.take(j + 1 as int).last() == *x);
        if str_eq(x.target.as_str(), owner) {
            push_methods(r, &x.methods);
        }
        j += 1;
    }
    assert(file.implementations@.take(file.implementations.len() as int) =~= file.implementations@);
}

impl ScanIndex {
    /// All interfaces, in scan order, whose name contains the pattern (all of them without one).
    pub fn get_interfaces(&self, name_pattern: Option<&str>) -> (r: Vec<&InterfaceDef>)
        ensures
            derefs(r@) == keep_interfaces(all_interfaces(self.files@), name_pattern),
    {
        let mut r: Vec<&InterfaceDef> = Vec::new();
        let mut i: usize = 0;
        while i < self.files.len()
            invariant
                i <= self.files.len(),
                derefs(r@) == keep_interfaces(all_interfaces(self.files@.take(i as int)), name_pattern),
            decreases self.files.len() - i,
        {
            let file = &self.files[i];
            let ghost base = all_interfaces(self.files@.take(i as int));
            let mut j: usize = 0;
            assert(base + file.interfaces@.take(0) =~= base);
            while j < file.interfaces.len()
                invariant
                    j <= file.interfaces.len(),
                    derefs(r@) == keep_interfaces(base + file.interfaces@.take(j as int), name_pattern),
                decreases file.interfaces.len() - j,
            {
                let x = &file.interfaces[j];
                let ghost before = derefs(r@);
                assert((base + file.interfaces@.take(j + 1 as int)).drop_last() =~= base + file.interfaces@.take(j as int));
                assert((base + file.interfaces@.take(j + 1 as int)).last() == *x);
                if name_matches(name_pattern, x.name.as_str()) {
                    r.push(x);
                    assert(derefs(r@) =~= before.push(*x));
                }
                j += 1;
            }
            assert(self.files@.take(i + 1 as int).drop_last() =~= self.files@.take(i as int));
            assert(self.files@.take(i + 1 as int).last() == *file);
            assert(base + file.interfaces@.take(file.interfaces.len() as int) =~= all_interfaces(self.files@.take(i + 1 as int)));
            i += 1;
        }
        assert(self.files@.take(self.files.len() as int) =~= self.files@);
        r
    }

    /// The interfaces with exactly this name, in scan order.
    pub fn get_interfaces_by_name(&self, name: &str) -> (r: Vec<&InterfaceDef>)
        ensures
            derefs(r@) == keep_interfaces_by_name(all_interfaces(self.files@), name),
    {
        let mut r: Vec<&InterfaceDef> = Vec::new();
        let mut i: usize = 0;
        while i < self.files.len()
            invariant
                i <= self.files.len(),
                derefs(r@) == keep_interfaces_by_name(all_interfaces(self.files@.take(i as int)), name),
            decreases self.files.len() - i,
        {
            let file = &self.files[i];
            let ghost base = all_interfaces(self.files@.take(i as int));
            let mut j: usize = 0;
            assert(base + file.interfaces@.take(0) =~= base);
            while j < file.interfaces.len()
                invariant
                    j <= file.interfaces.len(),
                    derefs(r@) == keep_interfaces_by_name(base + file.interfaces@.take(j as int), name),
                decreases file.interfaces.len() - j,
            {
                let x = &file.interfaces[j];
                let ghost before = derefs(r@);
                assert((base + file.interfaces@.take(j + 1 as int)).drop_last() =~= base + file.interfaces@.take(j as int));
                assert((base + file.interfaces@.take(j + 1 as int)).last() == *x);
                if str_eq(x.name.as_str(), name) {
                    r.push(x);
                    assert(derefs(r@) =~= before.push(*x));
                }
                j += 1;
            }
            assert(self.files@.take(i + 1 as int).drop_last() =~= self.files@.take(i as int));
            assert(self.files@.take(i + 1 as int).last() == *file);
            assert(base + file.interfaces@.take(file.interfaces.len() as int) =~= all_interfaces(self.files@.take(i + 1 as int)));
            i += 1;
        }
        assert(self.files@.take(self.files.len() as int) =~= self.files@);
        r
    }

    /// All classes, in scan order, whose name contains the pattern (all of them without one).
    pub fn get_classes(&self, name_pattern: Option<&str>) -> (r: Vec<&ClassDef>)
        ensures
            derefs(r@) == keep_classes(all_classes(self.files@), name_pattern),
    {
        let mut r: Vec<&ClassDef> = Vec::new();
        let mut i: usize = 0;
        while i < self.files.len()
            invariant
                i <= self.files.len(),
                derefs(r@) == keep_classes(all_classes(self.files@.take(i as int)), name_pattern),
            decreases self.files.len() - i,
        {
            let file = &self.files[i];
            let ghost base = all_classes(self.files@.take(i as int));
            let mut j: usize = 0;
            assert(base + file.classes@.take(0) =~= base);
            while j < file.classes.len()
                invariant
                    j <= file.classes.len(),
                    derefs(r@) == keep_classes(base + file.classes@.take(j as int), name_pattern),
                decreases file.classes.len() - j,
            {
                let x = &file.classes[j];
                let ghost before = derefs(r@);
                assert((base + file.classes@.take(j + 1 as int)).drop_last() =~= base + file.classes@.take(j as int));
                assert((base + file.classes@.take(j + 1 as int)).last() == *x);
                if name_matches(name_pattern, x.name.as_str()) {
                    r.push(x);
                    assert(derefs(r@) =~= before.push(*x));
                }
                j += 1;
            }
            assert(self.files@.take(i + 1 as int).drop_last() =~= self.files@.take(i as int));
            assert(self.files@.take(i + 1 as int).last() == *file);
            assert(base + file.classes@.take(file.classes.len() as int) =~= all_classes(self.files@.take(i + 1 as int)));
            i += 1;
        }
        assert(self.files@.take(self.files.len() as int) =~= self.files@);
        r
    }

    /// The classes with exactly this name, in scan order.
    pub fn get_classes_by_name(&self, name: &str) -> (r: Vec<&ClassDef>)
        ensures
            derefs(r@) == keep_classes_by_name(all_classes(self.files@), name),
    {
        let mut r: Vec<&ClassDef> = Vec::new();
        let mut i: usize = 0;
        while i < self.files.len()
            invariant
                i <= self.files.len(),
                derefs(r@) == keep_classes_by_name(all_classes(self.files@.take(i as int)), name),
            decreases self.files.len() - i,
        {
            let file = &self.files[i];
            let ghost base = all_classes(self.files@.take(i as int));
            let mut j: usize = 0;
            assert(base + file.classes@.take(0) =~= base);
            while j < file.classes.len()
                invariant
                    j <= file.classes.len(),
                    derefs(r@) == keep_classes_by_name(base + file.classes@.take(j as int), name),
                decreases file.classes.len() - j,
            {
                let x = &file.classes[j];
                let ghost before = derefs(r@);
                assert((base + file.classes@.take(j + 1 as int)).drop_last() =~= base + file.classes@.take(j as int));
                assert((base + file.classes@.take(j + 1 as int)).last() == *x);
                if str_eq(x.name.as_str(), name) {
                    r.push(x);
                    assert(derefs(r@) =~= before.push(*x));
                }
                j += 1;
            }
            assert(self.files@.take(i + 1 as int).drop_last() =~= self.files@.take(i as int));
            assert(self.files@.take(i + 1 as int).last() == *file);
            assert(base + file.classes@.take(file.classes.len() as int) =~= all_classes(self.files@.take(i + 1 as int)));
            i += 1;
        }
        assert(self.files@.take(self.files.len() as int) =~= self.files@);
        r
    }

    /// All services, in scan order, of the given kind (all of them without one).
    pub fn get_services(&self, kind: Option<&ServiceKind>) -> (r: Vec<&ServiceDef>)
        ensures
            derefs(r@) == keep_services(all_services(self.files@), kind),
    {
        let mut r: Vec<&ServiceDef> = Vec::new();
        let mut i: usize = 0;
        while i < self.files.len()
            invariant
                i <= self.files.len(),
                derefs(r@) == keep_services(all_services(self.files@.take(i as int)), kind),
            decreases self.files.len() - i,
        {
            let file = &self.files[i];
            let ghost base = all_services(self.files@.take(i as int));
            let mut j: usize = 0;
            assert(base + file.services@.take(0) =~= base);
            while j < file.services.len()
                invariant
                    j <= file.services.len(),
                    derefs(r@) == keep_services(base + file.services@.take(j as int), kind),
                decreases file.services.len() - j,
            {
                let x = &file.services[j];
                let ghost before = derefs(r@);
                assert((base + file.services@.take(j + 1 as int)).drop_last() =~= base + file.services@.take(j as int));
                assert((base + file.services@.take(j + 1 as int)).last() == *x);
                if service_kind_ok(kind, &x.kind) {
                    r.push(x);
                    assert(derefs(r@) =~= before.push(*x));
                }
                j += 1;
            }
            assert(self.files@.take(i + 1 as int).drop_last() =~= self.files@.take(i as int));
            assert(self.files@.take(i + 1 as int).last() == *file);
            assert(base + file.services@.take(file.services.len() as int) =~= all_services(self.files@.take(i + 1 as int)));
            i += 1;
        }
        assert(self.files@.take(self.files.len() as int) =~= self.files@);
        r
    }

    /// The implementations of a trait or interface, in scan order.
    pub fn get_implementations(&self, trait_name: &str) -> (r: Vec<&ImplDef>)
        ensures
            derefs(r@) == keep_implementations(all_implementations(self.files@), trait_name),
    {
        let mut r: Vec<&ImplDef> = Vec::new();
        let mut i: usize = 0;
        while i < self.files.len()
            invariant
                i <= self.files.len(),
                derefs(r@) == keep_implementations(all_implementations(self.files@.take(i as int)), trait_name),
            decreases self.files.len() - i,
        {
            let file = &self.files[i];
            let ghost base = all_implementations(self.files@.take(i as int));
            let mut j: usize = 0;
            assert(base + file.implementations@.take(0) =~= base);
            while j < file.implementations.len()
                invariant
                    j <= file.implementations.len(),
                    derefs(r@) == keep_implementations(base + file.implementations@.take(j as int), trait_name),
                decreases file.implementations.len() - j,
            {
                let x = &file.implementations[j];
                let ghost before = derefs(r@);
                assert((base + file.implementations@.take(j + 1 as int)).drop_last() =~= base + file.implementations@.take(j as int));
                assert((base + file.implementations@.take(j + 1 as int)).last() == *x);
                if implements_trait(x, trait_name) {
                    r.push(x);
                    assert(derefs(r@) =~= before.push(*x));
                }
                j += 1;
            }
            assert(self.files@.take(i + 1 as int).drop_last() =~= self.files@.take(i as int));
            assert(self.files@.take(i + 1 as int).last() == *file);
            assert(base + file.implementations@.take(file.implementations.len() as int) =~= all_implementations(self.files@.take(i + 1 as int)));
            i += 1;
        }
        assert(self.files@.take(self.files.len() as int) =~= self.files@);
        r
    }

    /// All schemas, in scan order, of the given framework (all of them without one).
    pub fn get_schemas(&self, framework: Option<&str>) -> (r: Vec<&SchemaDef>)
        ensures
            derefs(r@) == keep_schemas(all_schemas(self.files@), framework),
    {
        let mut r: Vec<&SchemaDef> = Vec::new();
        let mut i: usize = 0;
        while i < self.files.len()
            invariant
                i <= self.files.len(),
                derefs(r@) == keep_schemas(all_schemas(self.files@.take(i as int)), framework),
            decreases self.files.len() - i,
        {
            let file = &self.files[i];
            let ghost base = all_schemas(self.files@.take(i as int));
            let mut j: usize = 0;
            assert(base + file.schemas@.take(0) =~= base);
            while j < file.schemas.len()
                invariant
                    j <= file.schemas.len(),
                    derefs(r@) == keep_schemas(base + file.schemas@.take(j as int), framework),
                decreases file.schemas.len() - j,
            {
                let x = &file.schemas[j];
                let ghost before = derefs(r@);
                assert((base + file.schemas@.take(j + 1 as int)).drop_last() =~= base + file.schemas@.take(j as int));
                assert((base + file.schemas@.take(j + 1 as int)).last() == *x);
                if framework_matches(framework, x.source_framework.as_str()) {
                    r.push(x);
                    assert(derefs(r@) =~= before.push(*x));
                }
                j += 1;
            }
            assert(self.files@.take(i + 1 as int).drop_last() =~= self.files@.take(i as int));
            assert(self.files@.take(i + 1 as int).last() == *file);
            assert(base + file.schemas@.take(file.schemas.len() as int) =~= all_schemas(self.files@.take(i + 1 as int)));
            i += 1;
        }
        assert(self.files@.take(self.files.len() as int) =~= self.files@);
        r
    }

    /// The schemas of a kind, in scan order.
    pub fn get_schemas_by_kind(&self, kind: SchemaKind) -> (r: Vec<&SchemaDef>)
        ensures
            derefs(r@) == keep_schemas_by_kind(all_schemas(self.files@), kind),
    {
        let mut r: Vec<&SchemaDef> = Vec::new();
        let mut i: usize = 0;
        while i < self.files.len()
            invariant
                i <= self.files.len(),
                derefs(r@) == keep_schemas_by_kind(all_schemas(self.files@.take(i as int)), kind),
            decreases self.files.len() - i,
        {
            let file = &self.files[i];
            let ghost base = all_schemas(self.files@.take(i as int));
            let mut j: usize = 0;
            assert(base + file.schemas@.take(0) =~= base);
            while j < file.schemas.len()
                invariant
                    j <= file.schemas.len(),
                    derefs(r@) == keep_schemas_by_kind(base + file.schemas@.take(j as int), kind),
                decreases file.schemas.len() - j,
            {
                let x = &file.schemas[j];
                let ghost before = derefs(r@);
                assert((base + file.schemas@.take(j + 1 as int)).drop_last() =~= base + file.schemas@.take(j as int));
                assert((base + file.schemas@.take(j + 1 as int)).last() == *x);
                if x.kind == kind {
                    r.push(x);
                    assert(derefs(r@) =~= before.push(*x));
                }
                j += 1;
            }
            assert(self.files@.take(i + 1 as int).drop_last() =~= self.files@.take(i as int));
            assert(self.files@.take(i + 1 as int).last() == *file);
            assert(base + file.schemas@.take(file.schemas.len() as int) =~= all_schemas(self.files@.take(i + 1 as int)));
            i += 1;
        }
        assert(self.files@.take(self.files.len() as int) =~= self.files@);
        r
    }

    /// All functions, in scan order, whose name contains the pattern (all of them without one).
    pub fn get_functions(&self, name_pattern: Option<&str>) -> (r: Vec<&FunctionDef>)
        ensures
            derefs(r@) == keep_functions(all_functions(self.files@), name_pattern),
    {
        let mut r: Vec<&FunctionDef> = Vec::new();
        let mut i: usize = 0;
        while i < self.files.len()
            invariant
                i <= self.files.len(),
                derefs(r@) == keep_functions(all_functions(self.files@.take(i as int)), name_pattern),
            decreases self.files.len() - i,
        {
            let file = &self.files[i];
            let ghost base = all_functions(self.files@.take(i as int));
            let mut j: usize = 0;
            assert(base + file.functions@.take(0) =~= base);
            while j < file.functions.len()
                invariant
                    j <= file.functions.len(),
                    derefs(r@) == keep_functions(base + file.functions@.take(j as int), name_pattern),
                decreases file.functions.len() - j,
            {
                let x = &file.functions[j];
                let ghost before = derefs(r@);
                assert((base + file.functions@.take(j + 1 as int)).drop_last() =~= base + file.functions@.take(j as int));
                assert((base + file.functions@.take(j + 1 as int)).last() == *x);
                if name_matches(name_pattern, x.name.as_str()) {
                    r.push(x);
                    assert(derefs(r@) =~= before.push(*x));
                }
                j += 1;
            }
            assert(self.files@.take(i + 1 as int).drop_last() =~= self.files@.take(i as int));
            assert(self.files@.take(i + 1 as int).last() == *file);
            assert(base + file.functions@.take(file.functions.len() as int) =~= all_functions(self.files@.take(i + 1 as int)));
            i += 1;
        }
        assert(self.files@.take(self.files.len() as int) =~= self.files@);
        r
    }

    /// All type aliases, in scan order, whose name contains the pattern (all of them without one).
    pub fn get_type_aliases(&self, name_pattern: Option<&str>) -> (r: Vec<&TypeAlias>)
        ensures
            derefs(r@) == keep_type_aliases(all_type_aliases(self.files@), name_pattern),
    {
        let mut r: Vec<&TypeAlias> = Vec::new();
        let mut i: usize = 0;
        while i < self.files.len()
            invariant
                i <= self.files.len(),
                derefs(r@) == keep_type_aliases(all_type_aliases(self.files@.take(i as int)), name_pattern),
            decreases self.files.len() - i,
        {
            let file = &self.files[i];
            let ghost base = all_type_aliases(self.files@.take(i as int));
            let mut j: usize = 0;
            assert(base + file.type_aliases@.take(0) =~= base);
            while j < file.type_aliases.len()
                invariant
                    j <= file.type_aliases.len(),
                    derefs(r@) == keep_type_aliases(base + file.type_aliases@.take(j as int), name_pattern),
                decreases file.type_aliases.len() - j,
            {
                let x = &file.type_aliases[j];
                let ghost before = derefs(r@);
                assert((base + file.type_aliases@.take(j + 1 as int)).drop_last() =~= base + file.type_aliases@.take(j as int));
                assert((base + file.type_aliases@.take(j + 1 as int)).last() == *x);
                if name_matches(name_pattern, x.name.as_str()) {
                    r.push(x);
                    assert(derefs(r@) =~= before.push(*x));
                }
                j += 1;
            }
            assert(self.files@.take(i + 1 as int).drop_last() =~= self.files@.take(i as int));
            assert(self.files@.take(i + 1 as int).last() == *file);
            assert(base + file.type_aliases@.take(file.type_aliases.len() as int) =~= all_type_aliases(self.files@.take(i + 1 as int)));
            i += 1;
        }
        assert(self.files@.take(self.files.len() as int) =~= self.files@);
        r
    }


    /// All methods of an owner, in scan order: per file, those of the
    /// classes with that name, then those of the implementations for it.
    pub fn get_methods_by_owner(&self, owner: &str) -> (r: Vec<&MethodDef>)
        ensures
            derefs(r@) == owner_methods(self.files@, owner@),
    {
        let mut r: Vec<&MethodDef> = Vec::new();
        let mut i: usize = 0;
        while i < self.files.len()
            invariant
                i <= self.files.len(),
                derefs(r@) == owner_methods(self.files@.take(i as int), owner@),
            decreases self.files.len() - i,
        {
            let file = &self.files[i];
            assert(self.files@.take(i + 1 as int).drop_last() =~= self.files@.take(i as int));
            assert(self.files@.take(i + 1 as int).last() == *file);
            file_owner_methods(file, owner, &mut r);
            i += 1;
        }
        assert(self.files@.take(self.files.len() as int) =~= self.files@);
        r
    }

    /// Search entities of every kind whose name contains `pattern`: the
    /// entity summaries under a filter holding that pattern alone.
    pub fn search(&self, pattern: &str) -> (r: Vec<EntitySummary>)
        ensures
            exists|f: FilterParams|
                {
                    &&& f.languages is None
                    &&& f.name_pattern matches Some(p) && p@ == pattern@
                    &&& f.kind is None
                    &&& f.build_status is None
                    &&& f.visibility is None
                    &&& summaries_view(r@) == all_summaries(self.files@, f)
                },
    {
        let filter = FilterParams {
            languages: None,
            name_pattern: Some(string_of(&chars_of(pattern))),
            kind: None,
            build_status: None,
            visibility: None,
        };
        self.get_entity_summaries(&filter)
    }

    /// The first file whose path equals `path` (as paths: the same
    /// components).
    pub fn get_file(&self, path: &str) -> (r: Option<&IrFile>)
        ensures
            match first_file_index(self.files@, path@) {
                None => r is None,
                Some(i) => r matches Some(f) && *f == self.files@[i],
            },
    {
        let mut i: usize = 0;
        while i < self.files.len()
            invariant
                i <= self.files.len(),
                forall|j: int| 0 <= j < i ==> components(#[trigger] self.files@[j].path@) != components(path@),
            decreases self.files.len() - i,
        {
            if path_eq(self.files[i].path.as_str(), path) {
                let ghost k = choose|k: int| 0 <= k < self.files@.len() && components(#[trigger] self.files@[k].path@) == components(path@)
                    && forall|j: int| 0 <= j < k ==> components(#[trigger] self.files@[j].path@) != components(path@);
                assert(0 <= i < self.files@.len() && components(self.files@[i as int].path@) == components(path@)
                    && forall|j: int| 0 <= j < i ==> components(#[trigger] self.files@[j].path@) != components(path@));
                assert(k == i as int) by {
                    if k < i {
                    } else if k > i {
                        assert(components(self.files@[i as int].path@) != components(path@));
                    }
                }
                return Some(&self.files[i]);
            }
            i += 1;
        }
        None
    }
}

/// The implementing types, each once, in order of first appearance.
pub open spec fn distinct_targets(impls: Seq<ImplDef>) -> Seq<Seq<char>>
    decreases impls.len(),
{
    if impls.len() == 0 {
        Seq::empty()
    } else {
        let prev = distinct_targets(impls.drop_last());
        let t = impls.last().target@;
        if prev.contains(t) {
            prev
        } else {
            prev.push(t)
        }
    }
}

/// The distinct implementing types hold every implementing type exactly
/// once.
pub proof fn lemma_distinct_targets(impls: Seq<ImplDef>)
    ensures
        distinct_targets(impls).no_duplicates(),
        forall|t: Seq<char>|
            #[trigger] distinct_targets(impls).contains(t) <==> exists|i: int|
                0 <= i < impls.len() && (#[trigger] impls[i]).target@ == t,
    decreases impls.len(),
{
    if impls.len() > 0 {
        let init = impls.drop_last();
        lemma_distinct_targets(init);
        let prev = distinct_targets(init);
        let t = impls.last().target@;
        assert forall|u: Seq<char>|
            #[trigger] distinct_targets(impls).contains(u) <==> exists|i: int|
                0 <= i < impls.len() && (#[trigger] impls[i]).target@ == u by {
            if distinct_targets(impls).contains(u) {
                if prev.contains(u) {
                    let i = choose|i: int| 0 <= i < init.len() && (#[trigger] init[i]).target@ == u;
                    assert(impls[i] == init[i]);
                } else {
                    assert(u == t);
                    assert(impls[impls.len() - 1] == impls.last());
                }
            }
            if exists|i: int| 0 <= i < impls.len() && (#[trigger] impls[i]).target@ == u {
                let i = choose|i: int| 0 <= i < impls.len() && (#[trigger] impls[i]).target@ == u;
                if i < impls.len() - 1 {
                    assert(init[i] == impls[i]);
                    assert(prev.contains(u));
                    if !prev.contains(t) {
                        let q = choose|q: int| 0 <= q < prev.len() && prev[q] == u;
                        assert(prev.push(t)[q] == u);
                    }
                } else {
                    if !prev.contains(t) {
                        assert(prev.push(t)[prev.len() as int] == t);
                    }
                }
            }
        }
    }
}

/// The distinct types implementing the given implementations, in order of
/// first appearance.
pub fn implementing_targets(impls: &Vec<&ImplDef>) -> (r: Vec<String>)
    ensures
        strs(r@) == distinct_targets(derefs(impls@)),
{
    let ghost d = derefs(impls@);
    let mut r: Vec<String> = Vec::new();
    let mut i: usize = 0;
    while i < impls.len()
        invariant
            i <= impls.len(),
            d == derefs(impls@),
            strs(r@) == distinct_targets(d.take(i as int)),
        decreases impls.len() - i,
    {
        let x = impls[i];
        proof {
            assert(d.take(i + 1 as int).drop_last() =~= d.take(i as int));
            assert(d.take(i + 1 as int).last() == *x);
        }
        if !strings_contain(&r, &x.target) {
            let ghost before = strs(r@);
            r.push(copy_string(&x.target));
            assert(strs(r@) =~= before.push(x.target@));
        }
        i += 1;
    }
    assert(d.take(impls.len() as int) =~= d);
    r
}

} // verus!
