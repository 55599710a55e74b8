//! The text listings of the command line: the rows of its tables (drawn by
//! comfy-table), the appendices that follow them, and the compact one-line
//! forms of each kind of entity.

use vstd::prelude::*;
use crate::ir::{
    build_status_label, language_name, ClassDef, EntityKind, EntitySummary, FilterParams, ImplDef, Language,
    MatchResult, MatchStrategy, MatchedEntity, ScanStats, UnmatchedEntity, ValidationResult, Violation,
    ViolationSeverity, InterfaceDef, InterfaceKind, IrFile, MethodDef, MethodSignature, RouteDef, ScanIndex,
    SchemaDef, SchemaField, SchemaKind, ServiceDef, ServiceKind, Visibility,
};
use crate::index::{summaries_view, SummarySpec};
use crate::manifest::{violations_view, ManifestViolation, ViolationSpec};
use crate::path::{pieces_view, split_chars, split_on};
use crate::queries::{all_implementations, derefs, owner_methods};
use crate::text::{
    append_str, chars_of, contains_seq, lowercase, str_eq, string_of, to_lowercase, trim, trim_chars, dec, decimal, join_strings, join_with, str_contains, strs,
};
use crate::tui::{
    async_prefix, call_label, call_text, http_method_debug, http_method_text, location, location_text, opt_or,
    service_kind_debug, service_kind_text,
};

verus! {

// ---------------------------------------------------------------------------
// Tables
// ---------------------------------------------------------------------------

/// What comfy-table prints for a table with this header and these rows
/// (its default ASCII preset, no width limit).
pub uninterp spec fn table_text(header: Seq<Seq<char>>, rows: Seq<Seq<Seq<char>>>) -> Seq<char>;

/// The cells of each row.
pub open spec fn rows_view(rows: Seq<Vec<String>>) -> Seq<Seq<Seq<char>>> {
    rows.map_values(|r: Vec<String>| strs(r@))
}

/// Draws a table with `comfy_table::Table`: a new table, the header, the
/// rows in order, then its `Display` text. The contract claims that the
/// text is `table_text` of the header and the rows; comfy-table is built
/// without its terminal feature, so no terminal width enters the layout.
#[verifier::external_body]
pub(crate) fn render_table(header: &Vec<String>, rows: &Vec<Vec<String>>) -> (r: String)
    ensures
        r@ == table_text(strs(header@), rows_view(rows@)),
{
    let mut table = comfy_table::Table::new();
    table.set_header(header.clone());
    for row in rows {
        table.add_row(row.clone());
    }
    table.to_string()
}

fn text(s: &str) -> (r: String)
    ensures
        r@ == s@,
{
    String::from_str(s)
}

// ---------------------------------------------------------------------------
// Interfaces
// ---------------------------------------------------------------------------

/// The word the listing uses for each kind of interface.
pub open spec fn interface_kind_label(k: InterfaceKind) -> Seq<char> {
    match k {
        InterfaceKind::Interface => "interface"@,
        InterfaceKind::Trait => "trait"@,
        InterfaceKind::Protocol => "protocol"@,
        InterfaceKind::AbstractClass => "abstract"@,
        InterfaceKind::PureVirtual => "virtual"@,
        InterfaceKind::Module => "module"@,
    }
}

/// The word the listing uses for a kind of interface.
pub fn interface_kind_str(kind: &InterfaceKind) -> (r: &'static str)
    ensures
        r@ == interface_kind_label(*kind),
{
    match kind {
        InterfaceKind::Interface => "interface",
        InterfaceKind::Trait => "trait",
        InterfaceKind::Protocol => "protocol",
        InterfaceKind::AbstractClass => "abstract",
        InterfaceKind::PureVirtual => "virtual",
        InterfaceKind::Module => "module",
    }
}

pub open spec fn interface_header() -> Seq<Seq<char>> {
    seq!["Language"@, "Kind"@, "Name"@, "Methods"@, "Extends"@, "File"@]
}

/// The table row of an interface: its kind word (twice, under "Language"
/// and "Kind"), name, method count, the interfaces it extends and where it
/// starts.
pub open spec fn interface_row(i: InterfaceDef) -> Seq<Seq<char>> {
    seq![
        interface_kind_label(i.language_kind),
        interface_kind_label(i.language_kind),
        i.name@,
        dec(i.methods@.len()),
        join_with(strs(i.extends@), ", "@),
        location(i.file@, i.span.start_line),
    ]
}

/// `  [async ]name(...) -> return type` for each method signature.
pub open spec fn signature_lines(ms: Seq<MethodSignature>) -> Seq<char>
    decreases ms.len(),
{
    if ms.len() == 0 {
        Seq::empty()
    } else {
        signature_lines(ms.drop_last()) + "  "@ + call_label(
            ms.last().is_async,
            ms.last().name@,
            ms.last().return_type,
        ) + "\n"@
    }
}

/// The methods of each interface that has any, under a `name methods:`
/// heading after a blank line.
pub open spec fn interface_methods_text(items: Seq<InterfaceDef>) -> Seq<char>
    decreases items.len(),
{
    if items.len() == 0 {
        Seq::empty()
    } else {
        let i = items.last();
        interface_methods_text(items.drop_last()) + if i.methods@.len() == 0 {
            Seq::empty()
        } else {
            "\n"@ + i.name@ + " methods:\n"@ + signature_lines(i.methods@)
        }
    }
}

/// The table listing of interfaces, followed by their methods when asked.
pub open spec fn interfaces_listing(items: Seq<InterfaceDef>, show_methods: bool) -> Seq<char> {
    table_text(interface_header(), items.map_values(|i: InterfaceDef| interface_row(i))) + if show_methods {
        "\n"@ + interface_methods_text(items)
    } else {
        Seq::empty()
    }
}

/// `interface:name [file] n methods`, one line per interface.
pub open spec fn interfaces_compact(items: Seq<InterfaceDef>) -> Seq<char>
    decreases items.len(),
{
    if items.len() == 0 {
        Seq::empty()
    } else {
        let i = items.last();
        interfaces_compact(items.drop_last()) + "interface:"@ + i.name@ + " ["@ + i.file@ + "] "@ + dec(
            i.methods@.len(),
        ) + " methods\n"@
    }
}

fn interface_row_cells(i: &InterfaceDef) -> (r: Vec<String>)
    ensures
        strs(r@) == interface_row(*i),
{
    let kind = interface_kind_str(&i.language_kind);
    let mut r: Vec<String> = Vec::new();
    r.push(text(kind));
    r.push(text(kind));
    r.push(i.name.clone());
    r.push(decimal(i.methods.len() as u64));
    r.push(join_strings(&i.extends, ", "));
    r.push(location_text(i.file.as_str(), i.span.start_line));
    assert(strs(r@) =~= interface_row(*i));
    r
}

fn signature_lines_text(ms: &Vec<MethodSignature>, out: &mut String)
    ensures
        final(out)@ == old(out)@ + signature_lines(ms@),
{
    let mut i: usize = 0;
    while i < ms.len()
        invariant
            i <= ms.len(),
            out@ == old(out)@ + signature_lines(ms@.take(i as int)),
        decreases ms.len() - i,
    {
        let m = &ms[i];
        assert(ms@.take(i + 1 as int).drop_last() =~= ms@.take(i as int));
        append_str(out, "  ");
        let c = call_text(m.is_async, m.name.as_str(), &m.return_type);
        append_str(out, c.as_str());
        append_str(out, "\n");
        i += 1;
    }
    assert(ms@.take(ms.len() as int) =~= ms@);
}

/// The table listing of these interfaces, in order, followed by their
/// methods when `show_methods` is set.
pub fn interfaces_text(items: &Vec<&InterfaceDef>, show_methods: bool) -> (r: String)
    ensures
        r@ == interfaces_listing(derefs(items@), show_methods),
{
    let ghost iv = derefs(items@);
    let header = vec![text("Language"), text("Kind"), text("Name"), text("Methods"), text("Extends"), text("File")];
    assert(strs(header@) =~= interface_header());
    let mut rows: Vec<Vec<String>> = Vec::new();
    let mut k: usize = 0;
    while k < items.len()
        invariant
            k <= items.len(),
            iv == derefs(items@),
            rows@.len() == k,
            forall|j: int| 0 <= j < k ==> #[trigger] strs(rows@[j]@) == interface_row(iv[j]),
        decreases items.len() - k,
    {
        rows.push(interface_row_cells(items[k]));
        k += 1;
    }
    assert(rows_view(rows@) =~= iv.map_values(|i: InterfaceDef| interface_row(i)));
    let mut out = render_table(&header, &rows);
    if show_methods {
        append_str(&mut out, "\n");
        let mut i: usize = 0;
        while i < items.len()
            invariant
                i <= items.len(),
                iv == derefs(items@),
                out@ == table_text(interface_header(), iv.map_values(|i: InterfaceDef| interface_row(i))) + "\n"@
                    + interface_methods_text(iv.take(i as int)),
            decreases items.len() - i,
        {
            let x = items[i];
            assert(iv.take(i + 1 as int).drop_last() =~= iv.take(i as int));
            if x.methods.len() > 0 {
                append_str(&mut out, "\n");
                append_str(&mut out, x.name.as_str());
                append_str(&mut out, " methods:\n");
                signature_lines_text(&x.methods, &mut out);
            }
            i += 1;
        }
        assert(iv.take(items.len() as int) =~= iv);
    }
    out
}

/// The compact listing of these interfaces, one line each.
pub fn interfaces_compact_text(items: &Vec<&InterfaceDef>) -> (r: String)
    ensures
        r@ == interfaces_compact(derefs(items@)),
{
    let ghost iv = derefs(items@);
    let mut out = String::new();
    let mut i: usize = 0;
    while i < items.len()
        invariant
            i <= items.len(),
            iv == derefs(items@),
            out@ == interfaces_compact(iv.take(i as int)),
        decreases items.len() - i,
    {
        let x = items[i];
        assert(iv.take(i + 1 as int).drop_last() =~= iv.take(i as int));
        append_str(&mut out, "interface:");
        append_str(&mut out, x.name.as_str());
        append_str(&mut out, " [");
        append_str(&mut out, x.file.as_str());
        append_str(&mut out, "] ");
        let n = decimal(x.methods.len() as u64);
        append_str(&mut out, n.as_str());
        append_str(&mut out, " methods\n");
        i += 1;
    }
    assert(iv.take(items.len() as int) =~= iv);
    out
}


// ---------------------------------------------------------------------------
// Name filters
// ---------------------------------------------------------------------------

/// Whether `name` passes a name filter: it contains the filter's text, and
/// anything passes no filter.
pub open spec fn name_passes(filter: Option<String>, name: Seq<char>) -> bool {
    match filter {
        Some(n) => contains_seq(name, n@),
        None => true,
    }
}

fn passes(filter: &Option<String>, name: &str) -> (r: bool)
    ensures
        r == name_passes(*filter, name@),
{
    match filter {
        Some(n) => str_contains(name, n.as_str()),
        None => true,
    }
}

/// The words of pieces of a filter list, each trimmed and lower-cased.
pub open spec fn words_of(pieces: Seq<Seq<char>>) -> Seq<Seq<char>>
    decreases pieces.len(),
{
    if pieces.len() == 0 {
        Seq::empty()
    } else {
        words_of(pieces.drop_last()).push(lowercase(trim(pieces.last())))
    }
}

/// The words of a comma-separated filter list (`--kind`, `--visibility`).
pub open spec fn filter_words(list: Seq<char>) -> Seq<Seq<char>> {
    words_of(split_on(list, ','))
}

/// Whether a word passes a list filter: it is one of the list's words, and
/// anything passes no list.
pub open spec fn word_passes(list: Option<String>, word: Seq<char>) -> bool {
    match list {
        Some(l) => filter_words(l@).contains(word),
        None => true,
    }
}

/// The words of a comma-separated filter list, each piece trimmed and
/// lower-cased, in order.
pub fn filter_words_of(list: &str) -> (r: Vec<String>)
    ensures
        strs(r@) == filter_words(list@),
{
    let pieces = split_chars(&chars_of(list), ',');
    let ghost pv = pieces_view(pieces@);
    let mut r: Vec<String> = Vec::new();
    let mut i: usize = 0;
    while i < pieces.len()
        invariant
            i <= pieces.len(),
            pv == pieces_view(pieces@),
            pv == split_on(list@, ','),
            strs(r@) == words_of(pv.take(i as int)),
        decreases pieces.len() - i,
    {
        assert(pv.take(i + 1 as int).drop_last() =~= pv.take(i as int));
        assert(pv[i as int] == pieces@[i as int]@);
        let word = to_lowercase(string_of(&trim_chars(&pieces[i])).as_str());
        let ghost before = strs(r@);
        let ghost wv = word@;
        r.push(word);
        assert(strs(r@) =~= before.push(wv));
        i += 1;
    }
    assert(pv.take(pieces.len() as int) =~= pv);
    r
}

fn list_words(list: &Option<String>) -> (r: Option<Vec<String>>)
    ensures
        match *list {
            None => r is None,
            Some(l) => r matches Some(w) && strs(w@) == filter_words(l@),
        },
{
    match list {
        Some(l) => Some(filter_words_of(l.as_str())),
        None => None,
    }
}

fn word_in(words: &Option<Vec<String>>, word: &String) -> (r: bool)
    ensures
        r == match *words {
            None => true,
            Some(w) => strs(w@).contains(word@),
        },
{
    match words {
        Some(w) => crate::manifest::strings_contain(w, word),
        None => true,
    }
}

// ---------------------------------------------------------------------------
// Services
// ---------------------------------------------------------------------------

/// The word a `--kind` list names a service kind by: its snake_case name,
/// or the lower-cased name of a custom kind.
pub open spec fn service_kind_word(k: ServiceKind) -> Seq<char> {
    match k {
        ServiceKind::HttpController => "http_controller"@,
        ServiceKind::GrpcService => "grpc_service"@,
        ServiceKind::GraphqlResolver => "graphql_resolver"@,
        ServiceKind::Worker => "worker"@,
        ServiceKind::Microservice => "microservice"@,
        ServiceKind::CliCommand => "cli_command"@,
        ServiceKind::EventHandler => "event_handler"@,
        ServiceKind::Middleware => "middleware"@,
        ServiceKind::Repository => "repository"@,
        ServiceKind::Custom(c) => lowercase(c@),
    }
}

/// The word a `--kind` list names a service kind by.
pub fn service_kind_word_of(k: &ServiceKind) -> (r: String)
    ensures
        r@ == service_kind_word(*k),
{
    match k {
        ServiceKind::HttpController => text("http_controller"),
        ServiceKind::GrpcService => text("grpc_service"),
        ServiceKind::GraphqlResolver => text("graphql_resolver"),
        ServiceKind::Worker => text("worker"),
        ServiceKind::Microservice => text("microservice"),
        ServiceKind::CliCommand => text("cli_command"),
        ServiceKind::EventHandler => text("event_handler"),
        ServiceKind::Middleware => text("middleware"),
        ServiceKind::Repository => text("repository"),
        ServiceKind::Custom(c) => to_lowercase(c.as_str()),
    }
}

/// The services whose name passes the name filter and whose kind is one of
/// the kind list's words, in order.
pub open spec fn services_passing(s: Seq<ServiceDef>, filter: Option<String>, kind: Option<String>) -> Seq<
    ServiceDef,
>
    decreases s.len(),
{
    if s.len() == 0 {
        Seq::empty()
    } else if name_passes(filter, s.last().name@) && word_passes(kind, service_kind_word(s.last().kind)) {
        services_passing(s.drop_last(), filter, kind).push(s.last())
    } else {
        services_passing(s.drop_last(), filter, kind)
    }
}

/// Keeps the services whose name contains `name` and whose kind is named
/// by the comma-separated `kind` list (any service passes a missing filter).
pub fn services_named<'a>(items: Vec<&'a ServiceDef>, name: &Option<String>, kind: &Option<String>) -> (r: Vec<
    &'a ServiceDef,
>)
    ensures
        derefs(r@) == services_passing(derefs(items@), *name, *kind),
{
    let ghost iv = derefs(items@);
    let words = list_words(kind);
    let mut r: Vec<&ServiceDef> = Vec::new();
    let mut i: usize = 0;
    while i < items.len()
        invariant
            i <= items.len(),
            iv == derefs(items@),
            match *kind {
                None => words is None,
                Some(l) => words matches Some(w) && strs(w@) == filter_words(l@),
            },
            derefs(r@) == services_passing(iv.take(i as int), *name, *kind),
        decreases items.len() - i,
    {
        let x = items[i];
        assert(iv.take(i + 1 as int).drop_last() =~= iv.take(i as int));
        let ghost before = derefs(r@);
        let w = service_kind_word_of(&x.kind);
        if passes(name, x.name.as_str()) && word_in(&words, &w) {
            r.push(x);
            assert(derefs(r@) =~= before.push(*x));
        }
        i += 1;
    }
    assert(iv.take(items.len() as int) =~= iv);
    r
}

pub open spec fn service_header(show_deps: bool) -> Seq<Seq<char>> {
    let base = seq!["Kind"@, "Name"@, "Methods"@, "Routes"@, "File"@];
    if show_deps {
        base.push("Dependencies"@)
    } else {
        base
    }
}

/// The table row of a service: its kind (as `{:?}` prints it), name,
/// method and route counts, where it starts, and its dependencies when
/// asked.
pub open spec fn service_row(s: ServiceDef, show_deps: bool) -> Seq<Seq<char>> {
    let base = seq![
        service_kind_text(s.kind),
        s.name@,
        dec(s.methods@.len()),
        dec(s.routes@.len()),
        location(s.file@, s.span.start_line),
    ];
    if show_deps {
        base.push(join_with(strs(s.dependencies@), ", "@))
    } else {
        base
    }
}

/// `  METHOD path -> handler` for each route.
pub open spec fn route_lines(rs: Seq<RouteDef>) -> Seq<char>
    decreases rs.len(),
{
    if rs.len() == 0 {
        Seq::empty()
    } else {
        let r = rs.last();
        route_lines(rs.drop_last()) + "  "@ + http_method_text(r.method) + " "@ + r.path@ + " -> "@
            + r.handler@ + "\n"@
    }
}

/// The routes of each service that has any, under a `name routes:`
/// heading after a blank line.
pub open spec fn service_routes_text(items: Seq<ServiceDef>) -> Seq<char>
    decreases items.len(),
{
    if items.len() == 0 {
        Seq::empty()
    } else {
        let s = items.last();
        service_routes_text(items.drop_last()) + if s.routes@.len() == 0 {
            Seq::empty()
        } else {
            "\n"@ + s.name@ + " routes:\n"@ + route_lines(s.routes@)
        }
    }
}

/// The table listing of services, followed by their routes when asked.
pub open spec fn services_listing(items: Seq<ServiceDef>, show_routes: bool, show_deps: bool) -> Seq<char> {
    table_text(service_header(show_deps), items.map_values(|s: ServiceDef| service_row(s, show_deps)))
        + if show_routes {
        "\n"@ + service_routes_text(items)
    } else {
        Seq::empty()
    }
}

/// `service:name [Kind] n methods`, one line per service.
pub open spec fn services_compact(items: Seq<ServiceDef>) -> Seq<char>
    decreases items.len(),
{
    if items.len() == 0 {
        Seq::empty()
    } else {
        let s = items.last();
        services_compact(items.drop_last()) + "service:"@ + s.name@ + " ["@ + service_kind_text(s.kind)
            + "] "@ + dec(s.methods@.len()) + " methods\n"@
    }
}

fn service_row_cells(s: &ServiceDef, show_deps: bool) -> (r: Vec<String>)
    ensures
        strs(r@) == service_row(*s, show_deps),
{
    let mut r: Vec<String> = Vec::new();
    r.push(service_kind_debug(&s.kind));
    r.push(s.name.clone());
    r.push(decimal(s.methods.len() as u64));
    r.push(decimal(s.routes.len() as u64));
    r.push(location_text(s.file.as_str(), s.span.start_line));
    if show_deps {
        r.push(join_strings(&s.dependencies, ", "));
    }
    assert(strs(r@) =~= service_row(*s, show_deps));
    r
}

fn route_lines_text(rs: &Vec<RouteDef>, out: &mut String)
    ensures
        final(out)@ == old(out)@ + route_lines(rs@),
{
    let mut i: usize = 0;
    while i < rs.len()
        invariant
            i <= rs.len(),
            out@ == old(out)@ + route_lines(rs@.take(i as int)),
        decreases rs.len() - i,
    {
        let r = &rs[i];
        assert(rs@.take(i + 1 as int).drop_last() =~= rs@.take(i as int));
        append_str(out, "  ");
        let m = http_method_debug(r.method);
        append_str(out, m.as_str());
        append_str(out, " ");
        append_str(out, r.path.as_str());
        append_str(out, " -> ");
        append_str(out, r.handler.as_str());
        append_str(out, "\n");
        i += 1;
    }
    assert(rs@.take(rs.len() as int) =~= rs@);
}

/// The table listing of these services, in order, with a dependencies
/// column when `show_deps` is set, followed by their routes when
/// `show_routes` is set.
pub fn services_text(items: &Vec<&ServiceDef>, show_routes: bool, show_deps: bool) -> (r: String)
    ensures
        r@ == services_listing(derefs(items@), show_routes, show_deps),
{
    let ghost iv = derefs(items@);
    let mut header = vec![text("Kind"), text("Name"), text("Methods"), text("Routes"), text("File")];
    if show_deps {
        header.push(text("Dependencies"));
    }
    assert(strs(header@) =~= service_header(show_deps));
    let mut rows: Vec<Vec<String>> = Vec::new();
    let mut k: usize = 0;
    while k < items.len()
        invariant
            k <= items.len(),
            iv == derefs(items@),
            rows@.len() == k,
            forall|j: int| 0 <= j < k ==> #[trigger] strs(rows@[j]@) == service_row(iv[j], show_deps),
        decreases items.len() - k,
    {
        rows.push(service_row_cells(items[k], show_deps));
        k += 1;
    }
    assert(rows_view(rows@) =~= iv.map_values(|s: ServiceDef| service_row(s, show_deps)));
    let mut out = render_table(&header, &rows);
    if show_routes {
        append_str(&mut out, "\n");
        let mut i: usize = 0;
        while i < items.len()
            invariant
                i <= items.len(),
                iv == derefs(items@),
                out@ == table_text(service_header(show_deps), iv.map_values(|s: ServiceDef| service_row(s, show_deps)))
                    + "\n"@ + service_routes_text(iv.take(i as int)),
            decreases items.len() - i,
        {
            let x = items[i];
            assert(iv.take(i + 1 as int).drop_last() =~= iv.take(i as int));
            if x.routes.len() > 0 {
                append_str(&mut out, "\n");
                append_str(&mut out, x.name.as_str());
                append_str(&mut out, " routes:\n");
                route_lines_text(&x.routes, &mut out);
            }
            i += 1;
        }
        assert(iv.take(items.len() as int) =~= iv);
    }
    out
}

/// The compact listing of these services, one line each.
pub fn services_compact_text(items: &Vec<&ServiceDef>) -> (r: String)
    ensures
        r@ == services_compact(derefs(items@)),
{
    let ghost iv = derefs(items@);
    let mut out = String::new();
    let mut i: usize = 0;
    while i < items.len()
        invariant
            i <= items.len(),
            iv == derefs(items@),
            out@ == services_compact(iv.take(i as int)),
        decreases items.len() - i,
    {
        let x = items[i];
        assert(iv.take(i + 1 as int).drop_last() =~= iv.take(i as int));
        append_str(&mut out, "service:");
        append_str(&mut out, x.name.as_str());
        append_str(&mut out, " [");
        let k = service_kind_debug(&x.kind);
        append_str(&mut out, k.as_str());
        append_str(&mut out, "] ");
        let n = decimal(x.methods.len() as u64);
        append_str(&mut out, n.as_str());
        append_str(&mut out, " methods\n");
        i += 1;
    }
    assert(iv.take(items.len() as int) =~= iv);
    out
}

// ---------------------------------------------------------------------------
// Schemas
// ---------------------------------------------------------------------------

/// The text `{:?}` gives for a schema kind.
pub open spec fn schema_kind_text(k: SchemaKind) -> Seq<char> {
    match k {
        SchemaKind::ValidationSchema => "ValidationSchema"@,
        SchemaKind::OrmModel => "OrmModel"@,
        SchemaKind::DataTransfer => "DataTransfer"@,
        SchemaKind::DomainEvent => "DomainEvent"@,
    }
}

/// The text `{:?}` gives for a schema kind.
pub fn schema_kind_debug(k: SchemaKind) -> (r: String)
    ensures
        r@ == schema_kind_text(k),
{
    match k {
        SchemaKind::ValidationSchema => text("ValidationSchema"),
        SchemaKind::OrmModel => text("OrmModel"),
        SchemaKind::DataTransfer => text("DataTransfer"),
        SchemaKind::DomainEvent => text("DomainEvent"),
    }
}

/// The word a `--kind` list names a schema kind by (its snake_case name).
pub open spec fn schema_kind_word(k: SchemaKind) -> Seq<char> {
    match k {
        SchemaKind::ValidationSchema => "validation_schema"@,
        SchemaKind::OrmModel => "orm_model"@,
        SchemaKind::DataTransfer => "data_transfer"@,
        SchemaKind::DomainEvent => "domain_event"@,
    }
}

fn schema_kind_word_of(k: SchemaKind) -> (r: String)
    ensures
        r@ == schema_kind_word(k),
{
    match k {
        SchemaKind::ValidationSchema => text("validation_schema"),
        SchemaKind::OrmModel => text("orm_model"),
        SchemaKind::DataTransfer => text("data_transfer"),
        SchemaKind::DomainEvent => text("domain_event"),
    }
}

/// The schemas whose name passes the name filter and whose kind is one of
/// the kind list's words, in order.
pub open spec fn schemas_passing(s: Seq<SchemaDef>, filter: Option<String>, kind: Option<String>) -> Seq<
    SchemaDef,
>
    decreases s.len(),
{
    if s.len() == 0 {
        Seq::empty()
    } else if name_passes(filter, s.last().name@) && word_passes(kind, schema_kind_word(s.last().kind)) {
        schemas_passing(s.drop_last(), filter, kind).push(s.last())
    } else {
        schemas_passing(s.drop_last(), filter, kind)
    }
}

/// Keeps the schemas whose name contains `name` and whose kind is named by
/// the comma-separated `kind` list (any schema passes a missing filter).
pub fn schemas_named<'a>(items: Vec<&'a SchemaDef>, name: &Option<String>, kind: &Option<String>) -> (r: Vec<
    &'a SchemaDef,
>)
    ensures
        derefs(r@) == schemas_passing(derefs(items@), *name, *kind),
{
    let ghost iv = derefs(items@);
    let words = list_words(kind);
    let mut r: Vec<&SchemaDef> = Vec::new();
    let mut i: usize = 0;
    while i < items.len()
        invariant
            i <= items.len(),
            iv == derefs(items@),
            match *kind {
                None => words is None,
                Some(l) => words matches Some(w) && strs(w@) == filter_words(l@),
            },
            derefs(r@) == schemas_passing(iv.take(i as int), *name, *kind),
        decreases items.len() - i,
    {
        let x = items[i];
        assert(iv.take(i + 1 as int).drop_last() =~= iv.take(i as int));
        let ghost before = derefs(r@);
        let w = schema_kind_word_of(x.kind);
        if passes(name, x.name.as_str()) && word_in(&words, &w) {
            r.push(x);
            assert(derefs(r@) =~= before.push(*x));
        }
        i += 1;
    }
    assert(iv.take(items.len() as int) =~= iv);
    r
}

pub open spec fn schema_header() -> Seq<Seq<char>> {
    seq!["Framework"@, "Kind"@, "Name"@, "Fields"@, "File"@]
}

/// The table row of a schema: framework, kind, name, field count and
/// where it starts.
pub open spec fn schema_row(s: SchemaDef) -> Seq<Seq<char>> {
    seq![
        s.source_framework@,
        schema_kind_text(s.kind),
        s.name@,
        dec(s.fields@.len()),
        location(s.file@, s.span.start_line),
    ]
}

/// `  name[?]: type` for each field (`?` for an optional field, and for a
/// missing type).
pub open spec fn field_lines(fs: Seq<SchemaField>) -> Seq<char>
    decreases fs.len(),
{
    if fs.len() == 0 {
        Seq::empty()
    } else {
        let f = fs.last();
        field_lines(fs.drop_last()) + "  "@ + f.name@ + (if f.is_optional { "?"@ } else { Seq::empty() })
            + ": "@ + opt_or(f.type_annotation, "?"@) + "\n"@
    }
}

/// The fields of each schema that has any, under a `name fields:` heading
/// after a blank line.
pub open spec fn schema_fields_text(items: Seq<SchemaDef>) -> Seq<char>
    decreases items.len(),
{
    if items.len() == 0 {
        Seq::empty()
    } else {
        let s = items.last();
        schema_fields_text(items.drop_last()) + if s.fields@.len() == 0 {
            Seq::empty()
        } else {
            "\n"@ + s.name@ + " fields:\n"@ + field_lines(s.fields@)
        }
    }
}

/// The table listing of schemas, followed by their fields when asked.
pub open spec fn schemas_listing(items: Seq<SchemaDef>, show_fields: bool) -> Seq<char> {
    table_text(schema_header(), items.map_values(|s: SchemaDef| schema_row(s))) + if show_fields {
        "\n"@ + schema_fields_text(items)
    } else {
        Seq::empty()
    }
}

/// `schema:name [framework] n fields`, one line per schema.
pub open spec fn schemas_compact(items: Seq<SchemaDef>) -> Seq<char>
    decreases items.len(),
{
    if items.len() == 0 {
        Seq::empty()
    } else {
        let s = items.last();
        schemas_compact(items.drop_last()) + "schema:"@ + s.name@ + " ["@ + s.source_framework@ + "] "@
            + dec(s.fields@.len()) + " fields\n"@
    }
}

fn schema_row_cells(s: &SchemaDef) -> (r: Vec<String>)
    ensures
        strs(r@) == schema_row(*s),
{
    let mut r: Vec<String> = Vec::new();
    r.push(s.source_framework.clone());
    r.push(schema_kind_debug(s.kind));
    r.push(s.name.clone());
    r.push(decimal(s.fields.len() as u64));
    r.push(location_text(s.file.as_str(), s.span.start_line));
    assert(strs(r@) =~= schema_row(*s));
    r
}

fn field_lines_text(fs: &Vec<SchemaField>, out: &mut String)
    ensures
        final(out)@ == old(out)@ + field_lines(fs@),
{
    let mut i: usize = 0;
    while i < fs.len()
        invariant
            i <= fs.len(),
            out@ == old(out)@ + field_lines(fs@.take(i as int)),
        decreases fs.len() - i,
    {
        let f = &fs[i];
        assert(fs@.take(i + 1 as int).drop_last() =~= fs@.take(i as int));
        append_str(out, "  ");
        append_str(out, f.name.as_str());
        if f.is_optional {
            append_str(out, "?");
        }
        append_str(out, ": ");
        match &f.type_annotation {
            Some(t) => append_str(out, t.as_str()),
            None => append_str(out, "?"),
        }
        append_str(out, "\n");
        i += 1;
    }
    assert(fs@.take(fs.len() as int) =~= fs@);
}

/// The table listing of these schemas, in order, followed by their fields
/// when `show_fields` is set.
pub fn schemas_text(items: &Vec<&SchemaDef>, show_fields: bool) -> (r: String)
    ensures
        r@ == schemas_listing(derefs(items@), show_fields),
{
    let ghost iv = derefs(items@);
    let header = vec![text("Framework"), text("Kind"), text("Name"), text("Fields"), text("File")];
    assert(strs(header@) =~= schema_header());
    let mut rows: Vec<Vec<String>> = Vec::new();
    let mut k: usize = 0;
    while k < items.len()
        invariant
            k <= items.len(),
            iv == derefs(items@),
            rows@.len() == k,
            forall|j: int| 0 <= j < k ==> #[trigger] strs(rows@[j]@) == schema_row(iv[j]),
        decreases items.len() - k,
    {
        rows.push(schema_row_cells(items[k]));
        k += 1;
    }
    assert(rows_view(rows@) =~= iv.map_values(|s: SchemaDef| schema_row(s)));
    let mut out = render_table(&header, &rows);
    if show_fields {
        append_str(&mut out, "\n");
        let mut i: usize = 0;
        while i < items.len()
            invariant
                i <= items.len(),
                iv == derefs(items@),
                out@ == table_text(schema_header(), iv.map_values(|s: SchemaDef| schema_row(s))) + "\n"@
                    + schema_fields_text(iv.take(i as int)),
            decreases items.len() - i,
        {
            let x = items[i];
            assert(iv.take(i + 1 as int).drop_last() =~= iv.take(i as int));
            if x.fields.len() > 0 {
                append_str(&mut out, "\n");
                append_str(&mut out, x.name.as_str());
                append_str(&mut out, " fields:\n");
                field_lines_text(&x.fields, &mut out);
            }
            i += 1;
        }
        assert(iv.take(items.len() as int) =~= iv);
    }
    out
}

/// The compact listing of these schemas, one line each.
pub fn schemas_compact_text(items: &Vec<&SchemaDef>) -> (r: String)
    ensures
        r@ == schemas_compact(derefs(items@)),
{
    let ghost iv = derefs(items@);
    let mut out = String::new();
    let mut i: usize = 0;
    while i < items.len()
        invariant
            i <= items.len(),
            iv == derefs(items@),
            out@ == schemas_compact(iv.take(i as int)),
        decreases items.len() - i,
    {
        let x = items[i];
        assert(iv.take(i + 1 as int).drop_last() =~= iv.take(i as int));
        append_str(&mut out, "schema:");
        append_str(&mut out, x.name.as_str());
        append_str(&mut out, " [");
        append_str(&mut out, x.source_framework.as_str());
        append_str(&mut out, "] ");
        let n = decimal(x.fields.len() as u64);
        append_str(&mut out, n.as_str());
        append_str(&mut out, " fields\n");
        i += 1;
    }
    assert(iv.take(items.len() as int) =~= iv);
    out
}


// ---------------------------------------------------------------------------
// Methods
// ---------------------------------------------------------------------------

/// The methods of these classes, in order.
pub open spec fn methods_of_classes(s: Seq<ClassDef>) -> Seq<MethodDef>
    decreases s.len(),
{
    if s.len() == 0 {
        Seq::empty()
    } else {
        methods_of_classes(s.drop_last()) + s.last().methods@
    }
}

/// The methods of these services, in order.
pub open spec fn methods_of_services(s: Seq<ServiceDef>) -> Seq<MethodDef>
    decreases s.len(),
{
    if s.len() == 0 {
        Seq::empty()
    } else {
        methods_of_services(s.drop_last()) + s.last().methods@
    }
}

/// The methods of these implementations, in order.
pub open spec fn methods_of_impls(s: Seq<ImplDef>) -> Seq<MethodDef>
    decreases s.len(),
{
    if s.len() == 0 {
        Seq::empty()
    } else {
        methods_of_impls(s.drop_last()) + s.last().methods@
    }
}

/// Every method of the scan: per file, those of its classes, then of its
/// services, then of its implementations.
pub open spec fn all_methods(files: Seq<IrFile>) -> Seq<MethodDef>
    decreases files.len(),
{
    if files.len() == 0 {
        Seq::empty()
    } else {
        let f = files.last();
        all_methods(files.drop_last()) + methods_of_classes(f.classes@) + methods_of_services(f.services@)
            + methods_of_impls(f.implementations@)
    }
}

/// The word a `--visibility` list names a visibility by.
pub open spec fn visibility_word(v: Visibility) -> Seq<char> {
    match v {
        Visibility::Public => "public"@,
        Visibility::Private => "private"@,
        Visibility::Protected => "protected"@,
        Visibility::Internal => "internal"@,
        Visibility::Crate => "crate"@,
        Visibility::Unknown => "unknown"@,
    }
}

fn visibility_word_of(v: Visibility) -> (r: String)
    ensures
        r@ == visibility_word(v),
{
    match v {
        Visibility::Public => text("public"),
        Visibility::Private => text("private"),
        Visibility::Protected => text("protected"),
        Visibility::Internal => text("internal"),
        Visibility::Crate => text("crate"),
        Visibility::Unknown => text("unknown"),
    }
}

/// The methods that pass the filters: async ones only when `only_async`,
/// those whose visibility the visibility list names, and those whose name
/// passes the name filter.
pub open spec fn methods_kept(s: Seq<MethodDef>, only_async: bool, visibility: Option<String>, name: Option<String>) -> Seq<
    MethodDef,
>
    decreases s.len(),
{
    if s.len() == 0 {
        Seq::empty()
    } else {
        let m = s.last();
        if (!only_async || m.is_async) && word_passes(visibility, visibility_word(m.visibility)) && name_passes(
            name,
            m.name@,
        ) {
            methods_kept(s.drop_last(), only_async, visibility, name).push(m)
        } else {
            methods_kept(s.drop_last(), only_async, visibility, name)
        }
    }
}

/// The methods the listing shows: those of the owner when one is given
/// (else every method), filtered.
pub open spec fn methods_selected(
    files: Seq<IrFile>,
    owner: Option<String>,
    only_async: bool,
    visibility: Option<String>,
    name: Option<String>,
) -> Seq<MethodDef> {
    let base = match owner {
        Some(o) => owner_methods(files, o@),
        None => all_methods(files),
    };
    methods_kept(base, only_async, visibility, name)
}

fn push_methods<'a>(ms: &'a Vec<MethodDef>, r: &mut Vec<&'a MethodDef>)
    ensures
        derefs(final(r)@) == derefs(old(r)@) + ms@,
{
    let ghost start = derefs(r@);
    let mut i: usize = 0;
    while i < ms.len()
        invariant
            i <= ms.len(),
            derefs(r@) == start + ms@.take(i as int),
        decreases ms.len() - i,
    {
        let ghost prev = derefs(r@);
        r.push(&ms[i]);
        assert(derefs(r@) =~= prev.push(ms@[i as int]));
        assert(ms@.take(i + 1 as int) =~= ms@.take(i as int).push(ms@[i as int]));
        i += 1;
    }
    assert(ms@.take(ms.len() as int) =~= ms@);
}

fn file_methods<'a>(f: &'a IrFile, r: &mut Vec<&'a MethodDef>)
    ensures
        derefs(final(r)@) == derefs(old(r)@) + methods_of_classes(f.classes@) + methods_of_services(f.services@)
            + methods_of_impls(f.implementations@),
{
    let ghost start = derefs(r@);
    let mut i: usize = 0;
    while i < f.classes.len()
        invariant
            i <= f.classes.len(),
            derefs(r@) == start + methods_of_classes(f.classes@.take(i as int)),
        decreases f.classes.len() - i,
    {
        assert(f.classes@.take(i + 1 as int).drop_last() =~= f.classes@.take(i as int));
        push_methods(&f.classes[i].methods, r);
        i += 1;
        assert(derefs(r@) =~= start + methods_of_classes(f.classes@.take(i as int)));
    }
    assert(f.classes@.take(f.classes.len() as int) =~= f.classes@);
    let ghost mid = derefs(r@);
    let mut i: usize = 0;
    while i < f.services.len()
        invariant
            i <= f.services.len(),
            derefs(r@) == mid + methods_of_services(f.services@.take(i as int)),
        decreases f.services.len() - i,
    {
        assert(f.services@.take(i + 1 as int).drop_last() =~= f.services@.take(i as int));
        push_methods(&f.services[i].methods, r);
        i += 1;
        assert(derefs(r@) =~= mid + methods_of_services(f.services@.take(i as int)));
    }
    assert(f.services@.take(f.services.len() as int) =~= f.services@);
    let ghost late = derefs(r@);
    let mut i: usize = 0;
    while i < f.implementations.len()
        invariant
            i <= f.implementations.len(),
            derefs(r@) == late + methods_of_impls(f.implementations@.take(i as int)),
        decreases f.implementations.len() - i,
    {
        assert(f.implementations@.take(i + 1 as int).drop_last() =~= f.implementations@.take(i as int));
        push_methods(&f.implementations[i].methods, r);
        i += 1;
        assert(derefs(r@) =~= late + methods_of_impls(f.implementations@.take(i as int)));
    }
    assert(f.implementations@.take(f.implementations.len() as int) =~= f.implementations@);
}

/// Every method of the scan, in the order of `all_methods`.
pub fn every_method(index: &ScanIndex) -> (r: Vec<&MethodDef>)
    ensures
        derefs(r@) == all_methods(index.files@),
{
    let mut r: Vec<&MethodDef> = Vec::new();
    let mut i: usize = 0;
    while i < index.files.len()
        invariant
            i <= index.files.len(),
            derefs(r@) == all_methods(index.files@.take(i as int)),
        decreases index.files.len() - i,
    {
        assert(index.files@.take(i + 1 as int).drop_last() =~= index.files@.take(i as int));
        file_methods(&index.files[i], &mut r);
        i += 1;
    }
    assert(index.files@.take(index.files.len() as int) =~= index.files@);
    r
}

/// The methods the `methods` listing shows: the owner's methods when an
/// owner is given, else every method; then only async ones when
/// `only_async` is set, only those whose visibility the comma-separated
/// `visibility` list names, and only those whose name contains `name`.
pub fn select_methods<'a>(
    index: &'a ScanIndex,
    owner: &Option<String>,
    only_async: bool,
    visibility: &Option<String>,
    name: &Option<String>,
) -> (r: Vec<&'a MethodDef>)
    ensures
        derefs(r@) == methods_selected(index.files@, *owner, only_async, *visibility, *name),
{
    let base = match owner {
        Some(o) => index.get_methods_by_owner(o.as_str()),
        None => every_method(index),
    };
    let words = list_words(visibility);
    let ghost bv = derefs(base@);
    let mut r: Vec<&MethodDef> = Vec::new();
    let mut i: usize = 0;
    while i < base.len()
        invariant
            i <= base.len(),
            bv == derefs(base@),
            match *visibility {
                None => words is None,
                Some(l) => words matches Some(w) && strs(w@) == filter_words(l@),
            },
            derefs(r@) == methods_kept(bv.take(i as int), only_async, *visibility, *name),
        decreases base.len() - i,
    {
        let m = base[i];
        assert(bv.take(i + 1 as int).drop_last() =~= bv.take(i as int));
        let ghost before = derefs(r@);
        let w = visibility_word_of(m.visibility);
        if (!only_async || m.is_async) && word_in(&words, &w) && passes(name, m.name.as_str()) {
            r.push(m);
            assert(derefs(r@) =~= before.push(*m));
        }
        i += 1;
    }
    assert(bv.take(base.len() as int) =~= bv);
    r
}

/// The text `{:?}` gives for a visibility.
pub open spec fn visibility_text(v: Visibility) -> Seq<char> {
    match v {
        Visibility::Public => "Public"@,
        Visibility::Private => "Private"@,
        Visibility::Protected => "Protected"@,
        Visibility::Internal => "Internal"@,
        Visibility::Crate => "Crate"@,
        Visibility::Unknown => "Unknown"@,
    }
}

/// The text `{:?}` gives for a visibility.
pub fn visibility_debug(v: Visibility) -> (r: String)
    ensures
        r@ == visibility_text(v),
{
    match v {
        Visibility::Public => text("Public"),
        Visibility::Private => text("Private"),
        Visibility::Protected => text("Protected"),
        Visibility::Internal => text("Internal"),
        Visibility::Crate => text("Crate"),
        Visibility::Unknown => text("Unknown"),
    }
}

/// `true` or `false`.
pub open spec fn bool_text(b: bool) -> Seq<char> {
    if b {
        "true"@
    } else {
        "false"@
    }
}

fn bool_string(b: bool) -> (r: String)
    ensures
        r@ == bool_text(b),
{
    if b {
        text("true")
    } else {
        text("false")
    }
}

fn opt_or_string(o: &Option<String>, d: &str) -> (r: String)
    ensures
        r@ == opt_or(*o, d@),
{
    match o {
        Some(s) => s.clone(),
        None => text(d),
    }
}

pub open spec fn method_header() -> Seq<Seq<char>> {
    seq!["Name"@, "Owner"@, "Async"@, "Visibility"@, "Return"@, "File"@]
}

/// The table row of a method: name, owner (`-` without one), whether it is
/// async, visibility, return type (`-` without one) and where it starts.
pub open spec fn method_row(m: MethodDef) -> Seq<Seq<char>> {
    seq![
        m.name@,
        opt_or(m.owner, "-"@),
        bool_text(m.is_async),
        visibility_text(m.visibility),
        opt_or(m.return_type, "-"@),
        location(m.file@, m.span.start_line),
    ]
}

/// `method:[owner.][async ]name`, one line per method.
pub open spec fn methods_compact(items: Seq<MethodDef>) -> Seq<char>
    decreases items.len(),
{
    if items.len() == 0 {
        Seq::empty()
    } else {
        let m = items.last();
        let owner = opt_or(m.owner, Seq::empty());
        methods_compact(items.drop_last()) + "method:"@ + (if owner.len() == 0 {
            Seq::empty()
        } else {
            owner + "."@
        }) + async_prefix(m.is_async) + m.name@ + "\n"@
    }
}

fn method_row_cells(m: &MethodDef) -> (r: Vec<String>)
    ensures
        strs(r@) == method_row(*m),
{
    let mut r: Vec<String> = Vec::new();
    r.push(m.name.clone());
    r.push(opt_or_string(&m.owner, "-"));
    r.push(bool_string(m.is_async));
    r.push(visibility_debug(m.visibility));
    r.push(opt_or_string(&m.return_type, "-"));
    r.push(location_text(m.file.as_str(), m.span.start_line));
    assert(strs(r@) =~= method_row(*m));
    r
}

/// The table of these methods, in order.
pub fn methods_text(items: &Vec<&MethodDef>) -> (r: String)
    ensures
        r@ == table_text(method_header(), derefs(items@).map_values(|m: MethodDef| method_row(m))),
{
    let ghost iv = derefs(items@);
    let header = vec![text("Name"), text("Owner"), text("Async"), text("Visibility"), text("Return"), text("File")];
    assert(strs(header@) =~= method_header());
    let mut rows: Vec<Vec<String>> = Vec::new();
    let mut k: usize = 0;
    while k < items.len()
        invariant
            k <= items.len(),
            iv == derefs(items@),
            rows@.len() == k,
            forall|j: int| 0 <= j < k ==> #[trigger] strs(rows@[j]@) == method_row(iv[j]),
        decreases items.len() - k,
    {
        rows.push(method_row_cells(items[k]));
        k += 1;
    }
    assert(rows_view(rows@) =~= iv.map_values(|m: MethodDef| method_row(m)));
    render_table(&header, &rows)
}

/// The compact listing of these methods, one line each.
pub fn methods_compact_text(items: &Vec<&MethodDef>) -> (r: String)
    ensures
        r@ == methods_compact(derefs(items@)),
{
    let ghost iv = derefs(items@);
    let mut out = String::new();
    let mut i: usize = 0;
    while i < items.len()
        invariant
            i <= items.len(),
            iv == derefs(items@),
            out@ == methods_compact(iv.take(i as int)),
        decreases items.len() - i,
    {
        let m = items[i];
        assert(iv.take(i + 1 as int).drop_last() =~= iv.take(i as int));
        assert(iv.take(i + 1 as int).last() == *m);
        let ghost before = out@;
        let ghost ov = opt_or(m.owner, Seq::empty());
        proof {
            reveal_strlit("");
        }
        append_str(&mut out, "method:");
        let owner = opt_or_string(&m.owner, "");
        if chars_of(owner.as_str()).len() > 0 {
            append_str(&mut out, owner.as_str());
            append_str(&mut out, ".");
        }
        if m.is_async {
            append_str(&mut out, "async ");
        }
        append_str(&mut out, m.name.as_str());
        append_str(&mut out, "\n");
        assert(out@ =~= before + "method:"@ + (if ov.len() == 0 {
            Seq::empty()
        } else {
            ov + "."@
        }) + async_prefix(m.is_async) + m.name@ + "\n"@);
        i += 1;
    }
    assert(iv.take(items.len() as int) =~= iv);
    out
}


// ---------------------------------------------------------------------------
// Implementations
// ---------------------------------------------------------------------------

/// Every implementation of the scan, in scan order.
pub fn every_implementation(index: &ScanIndex) -> (r: Vec<&ImplDef>)
    ensures
        derefs(r@) == all_implementations(index.files@),
{
    let mut r: Vec<&ImplDef> = Vec::new();
    let mut i: usize = 0;
    while i < index.files.len()
        invariant
            i <= index.files.len(),
            derefs(r@) == all_implementations(index.files@.take(i as int)),
        decreases index.files.len() - i,
    {
        let f = &index.files[i];
        assert(index.files@.take(i + 1 as int).drop_last() =~= index.files@.take(i as int));
        let ghost start = derefs(r@);
        let mut j: usize = 0;
        while j < f.implementations.len()
            invariant
                j <= f.implementations.len(),
                derefs(r@) == start + f.implementations@.take(j as int),
            decreases f.implementations.len() - j,
        {
            let ghost prev = derefs(r@);
            r.push(&f.implementations[j]);
            assert(derefs(r@) =~= prev.push(f.implementations@[j as int]));
            assert(f.implementations@.take(j + 1 as int) =~= f.implementations@.take(j as int).push(
                f.implementations@[j as int],
            ));
            j += 1;
        }
        assert(f.implementations@.take(f.implementations.len() as int) =~= f.implementations@);
        i += 1;
    }
    assert(index.files@.take(index.files.len() as int) =~= index.files@);
    r
}

/// The names of these methods.
pub open spec fn method_names(ms: Seq<MethodDef>) -> Seq<Seq<char>> {
    ms.map_values(|m: MethodDef| m.name@)
}

fn method_names_text(ms: &Vec<MethodDef>) -> (r: String)
    ensures
        r@ == join_with(method_names(ms@), ", "@),
{
    let mut names: Vec<String> = Vec::new();
    let mut i: usize = 0;
    while i < ms.len()
        invariant
            i <= ms.len(),
            names@.len() == i,
            forall|j: int| 0 <= j < i ==> #[trigger] names@[j]@ == ms@[j].name@,
        decreases ms.len() - i,
    {
        names.push(ms[i].name.clone());
        i += 1;
    }
    assert(strs(names@) =~= method_names(ms@));
    join_strings(&names, ", ")
}

pub open spec fn impl_header(show_methods: bool) -> Seq<Seq<char>> {
    let base = seq!["Target"@, "Trait"@, "Methods"@, "File"@];
    if show_methods {
        base.push("Method Names"@)
    } else {
        base
    }
}

/// The table row of an implementation in the full listing: target, trait
/// (`-` for an inherent one), method count, where it starts, and the
/// method names when asked.
pub open spec fn impl_row(x: ImplDef, show_methods: bool) -> Seq<Seq<char>> {
    let base = seq![x.target@, opt_or(x.trait_name, "-"@), dec(x.methods@.len()), location(x.file@, x.span.start_line)];
    if show_methods {
        base.push(join_with(method_names(x.methods@), ", "@))
    } else {
        base
    }
}

pub open spec fn implementor_header(show_methods: bool) -> Seq<Seq<char>> {
    let base = seq!["Implementor"@, "Methods"@, "File"@];
    if show_methods {
        base.push("Method Names"@)
    } else {
        base
    }
}

/// The table row of an implementation in the listing of one trait:
/// target, method count, where it starts, and the method names when asked.
pub open spec fn implementor_row(x: ImplDef, show_methods: bool) -> Seq<Seq<char>> {
    let base = seq![x.target@, dec(x.methods@.len()), location(x.file@, x.span.start_line)];
    if show_methods {
        base.push(join_with(method_names(x.methods@), ", "@))
    } else {
        base
    }
}

/// `impl:Trait for Target (n methods)`, one line per implementation
/// (`(inherent)` in place of a trait).
pub open spec fn impls_compact(items: Seq<ImplDef>) -> Seq<char>
    decreases items.len(),
{
    if items.len() == 0 {
        Seq::empty()
    } else {
        let x = items.last();
        impls_compact(items.drop_last()) + "impl:"@ + opt_or(x.trait_name, "(inherent)"@) + " for "@ + x.target@
            + " ("@ + dec(x.methods@.len()) + " methods)\n"@
    }
}

/// `impl:Trait for Name`, one line per implementor.
pub open spec fn implementors_compact(trait_name: Seq<char>, names: Seq<Seq<char>>) -> Seq<char>
    decreases names.len(),
{
    if names.len() == 0 {
        Seq::empty()
    } else {
        implementors_compact(trait_name, names.drop_last()) + "impl:"@ + trait_name + " for "@ + names.last()
            + "\n"@
    }
}

fn impl_row_cells(x: &ImplDef, show_methods: bool) -> (r: Vec<String>)
    ensures
        strs(r@) == impl_row(*x, show_methods),
{
    let mut r: Vec<String> = Vec::new();
    r.push(x.target.clone());
    r.push(opt_or_string(&x.trait_name, "-"));
    r.push(decimal(x.methods.len() as u64));
    r.push(location_text(x.file.as_str(), x.span.start_line));
    if show_methods {
        r.push(method_names_text(&x.methods));
    }
    assert(strs(r@) =~= impl_row(*x, show_methods));
    r
}

fn implementor_row_cells(x: &ImplDef, show_methods: bool) -> (r: Vec<String>)
    ensures
        strs(r@) == implementor_row(*x, show_methods),
{
    let mut r: Vec<String> = Vec::new();
    r.push(x.target.clone());
    r.push(decimal(x.methods.len() as u64));
    r.push(location_text(x.file.as_str(), x.span.start_line));
    if show_methods {
        r.push(method_names_text(&x.methods));
    }
    assert(strs(r@) =~= implementor_row(*x, show_methods));
    r
}

/// The table of these implementations, in order, with their method names
/// when `show_methods` is set.
pub fn impls_text(items: &Vec<&ImplDef>, show_methods: bool) -> (r: String)
    ensures
        r@ == table_text(impl_header(show_methods), derefs(items@).map_values(|x: ImplDef| impl_row(x, show_methods))),
{
    let ghost iv = derefs(items@);
    let mut header = vec![text("Target"), text("Trait"), text("Methods"), text("File")];
    if show_methods {
        header.push(text("Method Names"));
    }
    assert(strs(header@) =~= impl_header(show_methods));
    let mut rows: Vec<Vec<String>> = Vec::new();
    let mut k: usize = 0;
    while k < items.len()
        invariant
            k <= items.len(),
            iv == derefs(items@),
            rows@.len() == k,
            forall|j: int| 0 <= j < k ==> #[trigger] strs(rows@[j]@) == impl_row(iv[j], show_methods),
        decreases items.len() - k,
    {
        rows.push(impl_row_cells(items[k], show_methods));
        k += 1;
    }
    assert(rows_view(rows@) =~= iv.map_values(|x: ImplDef| impl_row(x, show_methods)));
    render_table(&header, &rows)
}

/// The listing of the implementations of one trait: a line naming the
/// trait and how many implementors it has, a blank line, then the table of
/// its implementations.
pub fn trait_impls_text(trait_name: &str, implementor_count: usize, items: &Vec<&ImplDef>, show_methods: bool) -> (r: String)
    ensures
        r@ == "Trait: "@ + trait_name@ + " ("@ + dec(implementor_count as nat) + " implementors)\n\n"@ + table_text(
            implementor_header(show_methods),
            derefs(items@).map_values(|x: ImplDef| implementor_row(x, show_methods)),
        ),
{
    let ghost iv = derefs(items@);
    let mut header = vec![text("Implementor"), text("Methods"), text("File")];
    if show_methods {
        header.push(text("Method Names"));
    }
    assert(strs(header@) =~= implementor_header(show_methods));
    let mut rows: Vec<Vec<String>> = Vec::new();
    let mut k: usize = 0;
    while k < items.len()
        invariant
            k <= items.len(),
            iv == derefs(items@),
            rows@.len() == k,
            forall|j: int| 0 <= j < k ==> #[trigger] strs(rows@[j]@) == implementor_row(iv[j], show_methods),
        decreases items.len() - k,
    {
        rows.push(implementor_row_cells(items[k], show_methods));
        k += 1;
    }
    assert(rows_view(rows@) =~= iv.map_values(|x: ImplDef| implementor_row(x, show_methods)));
    let table = render_table(&header, &rows);
    let mut out = text("Trait: ");
    append_str(&mut out, trait_name);
    append_str(&mut out, " (");
    let n = decimal(implementor_count as u64);
    append_str(&mut out, n.as_str());
    append_str(&mut out, " implementors)\n\n");
    append_str(&mut out, table.as_str());
    out
}

/// The compact listing of these implementations, one line each.
pub fn impls_compact_text(items: &Vec<&ImplDef>) -> (r: String)
    ensures
        r@ == impls_compact(derefs(items@)),
{
    let ghost iv = derefs(items@);
    let mut out = String::new();
    let mut i: usize = 0;
    while i < items.len()
        invariant
            i <= items.len(),
            iv == derefs(items@),
            out@ == impls_compact(iv.take(i as int)),
        decreases items.len() - i,
    {
        let x = items[i];
        assert(iv.take(i + 1 as int).drop_last() =~= iv.take(i as int));
        append_str(&mut out, "impl:");
        let t = opt_or_string(&x.trait_name, "(inherent)");
        append_str(&mut out, t.as_str());
        append_str(&mut out, " for ");
        append_str(&mut out, x.target.as_str());
        append_str(&mut out, " (");
        let n = decimal(x.methods.len() as u64);
        append_str(&mut out, n.as_str());
        append_str(&mut out, " methods)\n");
        i += 1;
    }
    assert(iv.take(items.len() as int) =~= iv);
    out
}

/// The compact listing of the implementors of one trait, one line each.
pub fn implementors_compact_text(trait_name: &str, names: &Vec<String>) -> (r: String)
    ensures
        r@ == implementors_compact(trait_name@, strs(names@)),
{
    let ghost nv = strs(names@);
    let mut out = String::new();
    let mut i: usize = 0;
    while i < names.len()
        invariant
            i <= names.len(),
            nv == strs(names@),
            out@ == implementors_compact(trait_name@, nv.take(i as int)),
        decreases names.len() - i,
    {
        assert(nv.take(i + 1 as int).drop_last() =~= nv.take(i as int));
        append_str(&mut out, "impl:");
        append_str(&mut out, trait_name);
        append_str(&mut out, " for ");
        append_str(&mut out, names[i].as_str());
        append_str(&mut out, "\n");
        i += 1;
    }
    assert(nv.take(names.len() as int) =~= nv);
    out
}


// ---------------------------------------------------------------------------
// Search
// ---------------------------------------------------------------------------

/// The text `{:?}` gives for an entity kind.
pub open spec fn entity_kind_text(k: EntityKind) -> Seq<char> {
    match k {
        EntityKind::Interface => "Interface"@,
        EntityKind::Service => "Service"@,
        EntityKind::Class => "Class"@,
        EntityKind::Function => "Function"@,
        EntityKind::Schema => "Schema"@,
        EntityKind::Impl => "Impl"@,
        EntityKind::TypeAlias => "TypeAlias"@,
        EntityKind::Method => "Method"@,
    }
}

/// The text `{:?}` gives for an entity kind.
pub fn entity_kind_debug(k: EntityKind) -> (r: String)
    ensures
        r@ == entity_kind_text(k),
{
    match k {
        EntityKind::Interface => text("Interface"),
        EntityKind::Service => text("Service"),
        EntityKind::Class => text("Class"),
        EntityKind::Function => text("Function"),
        EntityKind::Schema => text("Schema"),
        EntityKind::Impl => text("Impl"),
        EntityKind::TypeAlias => text("TypeAlias"),
        EntityKind::Method => text("Method"),
    }
}

/// The entity kind a (lower-case) word of a `--kind` list names.
pub open spec fn entity_kind_named(w: Seq<char>) -> Option<EntityKind> {
    if w == "interface"@ {
        Some(EntityKind::Interface)
    } else if w == "service"@ {
        Some(EntityKind::Service)
    } else if w == "class"@ {
        Some(EntityKind::Class)
    } else if w == "function"@ {
        Some(EntityKind::Function)
    } else if w == "schema"@ {
        Some(EntityKind::Schema)
    } else if w == "impl"@ {
        Some(EntityKind::Impl)
    } else if w == "type_alias"@ || w == "typealias"@ {
        Some(EntityKind::TypeAlias)
    } else if w == "method"@ {
        Some(EntityKind::Method)
    } else {
        None
    }
}

/// The word of a `--kind` list that spells each entity kind.
pub open spec fn kind_word(k: EntityKind) -> Seq<char> {
    match k {
        EntityKind::Interface => "interface"@,
        EntityKind::Service => "service"@,
        EntityKind::Class => "class"@,
        EntityKind::Function => "function"@,
        EntityKind::Schema => "schema"@,
        EntityKind::Impl => "impl"@,
        EntityKind::TypeAlias => "type_alias"@,
        EntityKind::Method => "method"@,
    }
}

/// Each kind word names the kind it spells, and nothing else names a
/// kind: a word names kind `k` exactly when it is `k`'s word (or, for
/// type aliases, also `typealias`).
pub proof fn lemma_kind_words(w: Seq<char>, k: EntityKind)
    ensures
        entity_kind_named(kind_word(k)) == Some(k),
        entity_kind_named(w) == Some(k) <==> (w == kind_word(k) || (k == EntityKind::TypeAlias && w
            == "typealias"@)),
{
    reveal_strlit("interface");
    reveal_strlit("service");
    reveal_strlit("class");
    reveal_strlit("function");
    reveal_strlit("schema");
    reveal_strlit("impl");
    reveal_strlit("type_alias");
    reveal_strlit("typealias");
    reveal_strlit("method");
    assert("interface"@.len() == 9);
    assert("service"@.len() == 7);
    assert("class"@.len() == 5);
    assert("function"@.len() == 8);
    assert("schema"@.len() == 6);
    assert("impl"@.len() == 4);
    assert("type_alias"@.len() == 10);
    assert("typealias"@.len() == 9);
    assert("method"@.len() == 6);
    assert("interface"@[0] != "typealias"@[0]);
    assert("interface"@ != "typealias"@);
    assert("schema"@[0] != "method"@[0]);
    assert("schema"@ != "method"@);
    match k {
        EntityKind::Interface => {},
        EntityKind::Service => {},
        EntityKind::Class => {},
        EntityKind::Function => {},
        EntityKind::Schema => {},
        EntityKind::Impl => {},
        EntityKind::TypeAlias => {},
        EntityKind::Method => {},
    }
}

/// The name `{:?}` gives an entity kind, lower-cased, names that kind in a
/// `--kind` list.
pub proof fn lemma_kind_text_parses(k: EntityKind)
    ensures
        entity_kind_named(crate::config::ascii_lowered(entity_kind_text(k))) == Some(k),
{
    reveal_strlit("interface");
    reveal_strlit("service");
    reveal_strlit("class");
    reveal_strlit("function");
    reveal_strlit("schema");
    reveal_strlit("impl");
    reveal_strlit("type_alias");
    reveal_strlit("typealias");
    reveal_strlit("method");
    reveal_strlit("Interface");
    reveal_strlit("Service");
    reveal_strlit("Class");
    reveal_strlit("Function");
    reveal_strlit("Schema");
    reveal_strlit("Impl");
    reveal_strlit("TypeAlias");
    reveal_strlit("Method");
    match k {
        EntityKind::Interface => {
            assert(crate::config::ascii_lowered(entity_kind_text(k)) =~= seq!['i', 'n', 't', 'e', 'r', 'f', 'a', 'c', 'e']);
            assert("interface"@ =~= seq!['i', 'n', 't', 'e', 'r', 'f', 'a', 'c', 'e']);
        },
        EntityKind::Service => {
            assert(crate::config::ascii_lowered(entity_kind_text(k)) =~= seq!['s', 'e', 'r', 'v', 'i', 'c', 'e']);
            assert("service"@ =~= seq!['s', 'e', 'r', 'v', 'i', 'c', 'e']);
        },
        EntityKind::Class => {
            assert(crate::config::ascii_lowered(entity_kind_text(k)) =~= seq!['c', 'l', 'a', 's', 's']);
            assert("class"@ =~= seq!['c', 'l', 'a', 's', 's']);
        },
        EntityKind::Function => {
            assert(crate::config::ascii_lowered(entity_kind_text(k)) =~= seq!['f', 'u', 'n', 'c', 't', 'i', 'o', 'n']);
            assert("function"@ =~= seq!['f', 'u', 'n', 'c', 't', 'i', 'o', 'n']);
        },
        EntityKind::Schema => {
            assert(crate::config::ascii_lowered(entity_kind_text(k)) =~= seq!['s', 'c', 'h', 'e', 'm', 'a']);
            assert("schema"@ =~= seq!['s', 'c', 'h', 'e', 'm', 'a']);
        },
        EntityKind::Impl => {
            assert(crate::config::ascii_lowered(entity_kind_text(k)) =~= seq!['i', 'm', 'p', 'l']);
            assert("impl"@ =~= seq!['i', 'm', 'p', 'l']);
        },
        EntityKind::TypeAlias => {
            assert(crate::config::ascii_lowered(entity_kind_text(k)) =~= seq!['t', 'y', 'p', 'e', 'a', 'l', 'i', 'a', 's']);
            assert("typealias"@ =~= seq!['t', 'y', 'p', 'e', 'a', 'l', 'i', 'a', 's']);
        },
        EntityKind::Method => {
            assert(crate::config::ascii_lowered(entity_kind_text(k)) =~= seq!['m', 'e', 't', 'h', 'o', 'd']);
            assert("method"@ =~= seq!['m', 'e', 't', 'h', 'o', 'd']);
        },
    }
}

/// The kinds the pieces name, each trimmed and lower-cased; pieces that
/// name no kind are passed over.
pub open spec fn kinds_named(pieces: Seq<Seq<char>>) -> Seq<EntityKind>
    decreases pieces.len(),
{
    if pieces.len() == 0 {
        Seq::empty()
    } else {
        let rest = kinds_named(pieces.drop_last());
        match entity_kind_named(lowercase(trim(pieces.last()))) {
            Some(k) => rest.push(k),
            None => rest,
        }
    }
}

/// The kinds a comma-separated `--kind` list names.
pub open spec fn search_kinds_of(list: Seq<char>) -> Seq<EntityKind> {
    kinds_named(split_on(list, ','))
}

fn kind_named(w: &str) -> (r: Option<EntityKind>)
    ensures
        r == entity_kind_named(w@),
{
    if str_eq(w, "interface") {
        Some(EntityKind::Interface)
    } else if str_eq(w, "service") {
        Some(EntityKind::Service)
    } else if str_eq(w, "class") {
        Some(EntityKind::Class)
    } else if str_eq(w, "function") {
        Some(EntityKind::Function)
    } else if str_eq(w, "schema") {
        Some(EntityKind::Schema)
    } else if str_eq(w, "impl") {
        Some(EntityKind::Impl)
    } else if str_eq(w, "type_alias") || str_eq(w, "typealias") {
        Some(EntityKind::TypeAlias)
    } else if str_eq(w, "method") {
        Some(EntityKind::Method)
    } else {
        None
    }
}

/// The entity kinds a comma-separated list names: each piece trimmed and
/// lower-cased, unknown words passed over, in the list's order.
pub fn search_kinds(list: &str) -> (r: Vec<EntityKind>)
    ensures
        r@ == search_kinds_of(list@),
{
    let pieces = split_chars(&chars_of(list), ',');
    let ghost pv = pieces_view(pieces@);
    let mut r: Vec<EntityKind> = Vec::new();
    let mut i: usize = 0;
    while i < pieces.len()
        invariant
            i <= pieces.len(),
            pv == pieces_view(pieces@),
            pv == split_on(list@, ','),
            r@ == kinds_named(pv.take(i as int)),
        decreases pieces.len() - i,
    {
        assert(pv.take(i + 1 as int).drop_last() =~= pv.take(i as int));
        assert(pv[i as int] == pieces@[i as int]@);
        let word = to_lowercase(string_of(&trim_chars(&pieces[i])).as_str());
        match kind_named(word.as_str()) {
            Some(k) => r.push(k),
            None => {},
        }
        i += 1;
    }
    assert(pv.take(pieces.len() as int) =~= pv);
    r
}

/// The filter of a search: the query as the name pattern, and the kinds
/// named by the `--kind` list when it names any.
pub fn search_filter(query: String, kind: &Option<String>) -> (r: FilterParams)
    ensures
        r.name_pattern == Some(query),
        r.languages is None,
        r.build_status is None,
        r.visibility is None,
        match kind {
            Some(k) => if search_kinds_of(k@).len() > 0 {
                r.kind matches Some(v) && v@ == search_kinds_of(k@)
            } else {
                r.kind is None
            },
            None => r.kind is None,
        },
{
    let kinds = match kind {
        Some(k) => {
            let ks = search_kinds(k.as_str());
            if ks.len() > 0 {
                Some(ks)
            } else {
                None
            }
        },
        None => None,
    };
    FilterParams { languages: None, name_pattern: Some(query), kind: kinds, build_status: None, visibility: None }
}

pub open spec fn summary_header() -> Seq<Seq<char>> {
    seq!["Kind"@, "Name"@, "Language"@, "Status"@, "File"@]
}

/// The table row of an entity found by a search: kind, name, language,
/// build status and where it is.
pub open spec fn summary_row(s: SummarySpec) -> Seq<Seq<char>> {
    seq![
        entity_kind_text(s.kind),
        s.name,
        language_name(s.language),
        build_status_label(s.build_status),
        location(s.file, s.line),
    ]
}

/// `Kind:name [file]`, one line per entity.
pub open spec fn summaries_compact(items: Seq<SummarySpec>) -> Seq<char>
    decreases items.len(),
{
    if items.len() == 0 {
        Seq::empty()
    } else {
        let s = items.last();
        summaries_compact(items.drop_last()) + entity_kind_text(s.kind) + ":"@ + s.name + " ["@ + s.file + "]\n"@
    }
}

fn summary_row_cells(s: &EntitySummary) -> (r: Vec<String>)
    ensures
        strs(r@) == summary_row(s@),
{
    let mut r: Vec<String> = Vec::new();
    r.push(entity_kind_debug(s.kind));
    r.push(s.name.clone());
    r.push(s.language.to_string());
    r.push(s.build_status.to_string());
    r.push(location_text(s.file.as_str(), s.line));
    assert(strs(r@) =~= summary_row(s@));
    r
}

/// The table of these entities, in order.
pub fn summaries_text(items: &Vec<EntitySummary>) -> (r: String)
    ensures
        r@ == table_text(summary_header(), summaries_view(items@).map_values(|s: SummarySpec| summary_row(s))),
{
    let ghost iv = summaries_view(items@);
    let header = vec![text("Kind"), text("Name"), text("Language"), text("Status"), text("File")];
    assert(strs(header@) =~= summary_header());
    let mut rows: Vec<Vec<String>> = Vec::new();
    let mut k: usize = 0;
    while k < items.len()
        invariant
            k <= items.len(),
            iv == summaries_view(items@),
            rows@.len() == k,
            forall|j: int| 0 <= j < k ==> #[trigger] strs(rows@[j]@) == summary_row(iv[j]),
        decreases items.len() - k,
    {
        rows.push(summary_row_cells(&items[k]));
        k += 1;
    }
    assert(rows_view(rows@) =~= iv.map_values(|s: SummarySpec| summary_row(s)));
    render_table(&header, &rows)
}

/// The compact listing of these entities, one line each.
pub fn summaries_compact_text(items: &Vec<EntitySummary>) -> (r: String)
    ensures
        r@ == summaries_compact(summaries_view(items@)),
{
    let ghost iv = summaries_view(items@);
    let mut out = String::new();
    let mut i: usize = 0;
    while i < items.len()
        invariant
            i <= items.len(),
            iv == summaries_view(items@),
            out@ == summaries_compact(iv.take(i as int)),
        decreases items.len() - i,
    {
        let x = &items[i];
        assert(iv.take(i + 1 as int).drop_last() =~= iv.take(i as int));
        assert(iv[i as int] == x@);
        let k = entity_kind_debug(x.kind);
        append_str(&mut out, k.as_str());
        append_str(&mut out, ":");
        append_str(&mut out, x.name.as_str());
        append_str(&mut out, " [");
        append_str(&mut out, x.file.as_str());
        append_str(&mut out, "]\n");
        i += 1;
    }
    assert(iv.take(items.len() as int) =~= iv);
    out
}


// ---------------------------------------------------------------------------
// Statistics
// ---------------------------------------------------------------------------

/// Where an entry with count `c` goes in a list sorted by count, largest
/// first: after every entry counting at least as much.
pub open spec fn first_below(s: Seq<(Language, usize)>, c: usize) -> int
    decreases s.len(),
{
    if s.len() == 0 {
        0
    } else if s[0].1 < c {
        0
    } else {
        1 + first_below(s.drop_first(), c)
    }
}

/// The language counts sorted by count, largest first; equal counts keep
/// their order.
pub open spec fn by_count(t: Seq<(Language, usize)>) -> Seq<(Language, usize)>
    decreases t.len(),
{
    if t.len() == 0 {
        Seq::empty()
    } else {
        let s = by_count(t.drop_last());
        s.insert(first_below(s, t.last().1), t.last())
    }
}

proof fn lemma_first_below_bounds(s: Seq<(Language, usize)>, c: usize)
    ensures
        0 <= first_below(s, c) <= s.len(),
        forall|j: int| 0 <= j < first_below(s, c) ==> s[j].1 >= c,
        first_below(s, c) < s.len() ==> s[first_below(s, c)].1 < c,
    decreases s.len(),
{
    if s.len() > 0 && s[0].1 >= c {
        lemma_first_below_bounds(s.drop_first(), c);
        assert forall|j: int| 0 <= j < first_below(s, c) implies s[j].1 >= c by {
            if j > 0 {
                assert(s[j] == s.drop_first()[j - 1]);
            }
        }
    }
}

proof fn lemma_by_count_len(t: Seq<(Language, usize)>)
    ensures
        by_count(t).len() == t.len(),
    decreases t.len(),
{
    if t.len() > 0 {
        lemma_by_count_len(t.drop_last());
        lemma_first_below_bounds(by_count(t.drop_last()), t.last().1);
    }
}

/// The statistics listing orders the languages by count, largest first,
/// and shows each language entry exactly once: the order is descending and
/// holds the same entries as the scan's counts.
pub proof fn lemma_by_count_sorted(t: Seq<(Language, usize)>)
    ensures
        forall|i: int, j: int| 0 <= i < j < by_count(t).len() ==> by_count(t)[i].1 >= by_count(t)[j].1,
        by_count(t).to_multiset() == t.to_multiset(),
    decreases t.len(),
{
    broadcast use vstd::seq_lib::to_multiset_insert, vstd::seq_lib::to_multiset_build;

    if t.len() == 0 {
        assert(by_count(t) =~= Seq::<(Language, usize)>::empty());
        assert(t =~= Seq::<(Language, usize)>::empty());
    } else {
        let s = by_count(t.drop_last());
        let x = t.last();
        lemma_by_count_sorted(t.drop_last());
        lemma_first_below_bounds(s, x.1);
        let p = first_below(s, x.1);
        let r = s.insert(p, x);
        assert forall|i: int, j: int| 0 <= i < j < r.len() implies r[i].1 >= r[j].1 by {
            if j < p {
            } else if j == p {
            } else if i < p {
                if p < s.len() {
                    assert(s[j - 1].1 <= s[p].1);
                }
            } else if i == p {
                assert(s[j - 1].1 <= s[p].1);
            } else {
            }
        }
        assert(t.drop_last().push(x) =~= t);
    }
}

/// The language counts of a scan sorted by count, largest first (equal
/// counts keep the order in which the languages were first met).
pub fn languages_by_count(t: &Vec<(Language, usize)>) -> (r: Vec<(Language, usize)>)
    ensures
        r@ == by_count(t@),
{
    let mut out: Vec<(Language, usize)> = Vec::new();
    let mut i: usize = 0;
    while i < t.len()
        invariant
            i <= t.len(),
            out@ == by_count(t@.take(i as int)),
        decreases t.len() - i,
    {
        let x = t[i];
        assert(t@.take(i + 1 as int).drop_last() =~= t@.take(i as int));
        proof {
            lemma_by_count_len(t@.take(i as int));
        }
        let mut p: usize = 0;
        while p < out.len() && out[p].1 >= x.1
            invariant
                p <= out.len(),
                forall|j: int| 0 <= j < p ==> out@[j].1 >= x.1,
            decreases out.len() - p,
        {
            p += 1;
        }
        proof {
            lemma_first_below_bounds(out@, x.1);
            let f = first_below(out@, x.1);
            if (p as int) < f {
                assert(out@[p as int].1 >= x.1);
            }
            if f < p {
                assert(out@[f].1 < x.1);
            }
        }
        out.insert(p, x);
        i += 1;
    }
    assert(t@.take(t.len() as int) =~= t@);
    out
}

/// `Language (n)` for each entry.
pub open spec fn language_parts(t: Seq<(Language, usize)>) -> Seq<Seq<char>> {
    t.map_values(|e: (Language, usize)| language_name(e.0) + " ("@ + dec(e.1 as nat) + ")"@)
}

/// The statistics listing, up to the implementations line: the root, the
/// file count, the languages by count, then each entity total. (Timing and
/// cache rates, which the command line prints as decimals, follow it.)
pub open spec fn stats_listing(root: Seq<char>, s: ScanStats) -> Seq<char> {
    "Scan Statistics\n"@ + "Root:            "@ + root + "\n"@ + "Files scanned:   "@ + dec(s.total_files as nat)
        + "\n"@ + "Languages:       "@ + join_with(language_parts(by_count(s.files_by_language@)), ", "@) + "\n"@
        + "\n"@ + "Interfaces:      "@ + dec(s.total_interfaces as nat) + "\n"@ + "Services:        "@ + dec(
        s.total_services as nat,
    ) + "\n"@ + "Classes:         "@ + dec(s.total_classes as nat) + "\n"@ + "Methods:         "@ + dec(
        s.total_methods as nat,
    ) + "\n"@ + "Functions:       "@ + dec(s.total_functions as nat) + "\n"@ + "Schemas:         "@ + dec(
        s.total_schemas as nat,
    ) + "\n"@ + "Type aliases:    "@ + dec(s.total_type_aliases as nat) + "\n"@ + "Implementations: "@ + dec(
        s.total_implementations as nat,
    ) + "\n"@
}

fn line_of(out: &mut String, label: &str, n: usize)
    ensures
        final(out)@ == old(out)@ + label@ + dec(n as nat) + "\n"@,
{
    append_str(out, label);
    let d = decimal(n as u64);
    append_str(out, d.as_str());
    append_str(out, "\n");
}

/// The statistics listing of a scan of `root`.
pub fn stats_text(root: &str, s: &ScanStats) -> (r: String)
    ensures
        r@ == stats_listing(root@, *s),
{
    let sorted = languages_by_count(&s.files_by_language);
    let mut parts: Vec<String> = Vec::new();
    let mut i: usize = 0;
    while i < sorted.len()
        invariant
            i <= sorted.len(),
            parts@.len() == i,
            forall|j: int| 0 <= j < i ==> #[trigger] parts@[j]@ == language_name(sorted@[j].0) + " ("@ + dec(
                sorted@[j].1 as nat,
            ) + ")"@,
        decreases sorted.len() - i,
    {
        let (l, c) = sorted[i];
        let mut p = l.to_string();
        append_str(&mut p, " (");
        let d = decimal(c as u64);
        append_str(&mut p, d.as_str());
        append_str(&mut p, ")");
        parts.push(p);
        i += 1;
    }
    assert(strs(parts@) =~= language_parts(sorted@));
    let mut out = text("Scan Statistics\n");
    append_str(&mut out, "Root:            ");
    append_str(&mut out, root);
    append_str(&mut out, "\n");
    line_of(&mut out, "Files scanned:   ", s.total_files);
    append_str(&mut out, "Languages:       ");
    let langs = join_strings(&parts, ", ");
    append_str(&mut out, langs.as_str());
    append_str(&mut out, "\n");
    append_str(&mut out, "\n");
    line_of(&mut out, "Interfaces:      ", s.total_interfaces);
    line_of(&mut out, "Services:        ", s.total_services);
    line_of(&mut out, "Classes:         ", s.total_classes);
    line_of(&mut out, "Methods:         ", s.total_methods);
    line_of(&mut out, "Functions:       ", s.total_functions);
    line_of(&mut out, "Schemas:         ", s.total_schemas);
    line_of(&mut out, "Type aliases:    ", s.total_type_aliases);
    line_of(&mut out, "Implementations: ", s.total_implementations);
    out
}

/// Whether the statistics listing goes on with parse time and cache rate:
/// when parsing took any time or any file came from the cache.
pub fn shows_timing(s: &ScanStats) -> (r: bool)
    ensures
        r == (s.parse_duration_ms > 0 || s.cache_hits > 0),
{
    s.parse_duration_ms > 0 || s.cache_hits > 0
}

// ---------------------------------------------------------------------------
// Matching and manifest validation
// ---------------------------------------------------------------------------

/// The word for how an entity was matched.
pub open spec fn strategy_label(m: MatchStrategy) -> Seq<char> {
    match m {
        MatchStrategy::FilePath => "file-path"@,
        MatchStrategy::ImportGraph => "import-graph"@,
        MatchStrategy::NameMatch => "name-match"@,
    }
}

fn strategy_string(m: MatchStrategy) -> (r: String)
    ensures
        r@ == strategy_label(m),
{
    match m {
        MatchStrategy::FilePath => text("file-path"),
        MatchStrategy::ImportGraph => text("import-graph"),
        MatchStrategy::NameMatch => text("name-match"),
    }
}

/// `  + Kind:name -> subsystem (strategy)` for each matched entity.
pub open spec fn matched_lines(ms: Seq<MatchedEntity>) -> Seq<char>
    decreases ms.len(),
{
    if ms.len() == 0 {
        Seq::empty()
    } else {
        let m = ms.last();
        matched_lines(ms.drop_last()) + "  + "@ + entity_kind_text(m.entity.kind) + ":"@ + m.entity.name@ + " -> "@
            + m.subsystem_name@ + " ("@ + strategy_label(m.match_strategy) + ")\n"@
    }
}

/// `  - Kind:name [file:line]` for each unmatched entity.
pub open spec fn unmatched_lines(us: Seq<UnmatchedEntity>) -> Seq<char>
    decreases us.len(),
{
    if us.len() == 0 {
        Seq::empty()
    } else {
        let u = us.last();
        unmatched_lines(us.drop_last()) + "  - "@ + entity_kind_text(u.entity.kind) + ":"@ + u.entity.name@ + " ["@
            + location(u.entity.file@, u.entity.line) + "]\n"@
    }
}

/// The entity lines of a match listing (which the command line heads with
/// the counts and the coverage): the matched entities, then an
/// `Unmatched:` heading when some remain, then the unmatched ones; only
/// the unmatched ones when `unmatched_only` is set.
pub open spec fn match_listing(r: MatchResult, unmatched_only: bool) -> Seq<char> {
    (if unmatched_only {
        Seq::empty()
    } else {
        matched_lines(r.matched@) + if r.unmatched@.len() > 0 {
            "\nUnmatched:\n"@
        } else {
            Seq::empty()
        }
    }) + unmatched_lines(r.unmatched@)
}

/// The entity lines of a match listing.
pub fn match_text(r: &MatchResult, unmatched_only: bool) -> (out: String)
    ensures
        out@ == match_listing(*r, unmatched_only),
{
    let mut out = String::new();
    if !unmatched_only {
        let mut i: usize = 0;
        while i < r.matched.len()
            invariant
                i <= r.matched.len(),
                out@ == matched_lines(r.matched@.take(i as int)),
            decreases r.matched.len() - i,
        {
            let m = &r.matched[i];
            assert(r.matched@.take(i + 1 as int).drop_last() =~= r.matched@.take(i as int));
            append_str(&mut out, "  + ");
            let k = entity_kind_debug(m.entity.kind);
            append_str(&mut out, k.as_str());
            append_str(&mut out, ":");
            append_str(&mut out, m.entity.name.as_str());
            append_str(&mut out, " -> ");
            append_str(&mut out, m.subsystem_name.as_str());
            append_str(&mut out, " (");
            let l = strategy_string(m.match_strategy);
            append_str(&mut out, l.as_str());
            append_str(&mut out, ")\n");
            i += 1;
        }
        assert(r.matched@.take(r.matched.len() as int) =~= r.matched@);
        if r.unmatched.len() > 0 {
            append_str(&mut out, "\nUnmatched:\n");
        }
    }
    let ghost head = out@;
    let mut i: usize = 0;
    while i < r.unmatched.len()
        invariant
            i <= r.unmatched.len(),
            out@ == head + unmatched_lines(r.unmatched@.take(i as int)),
        decreases r.unmatched.len() - i,
    {
        let u = &r.unmatched[i];
        assert(r.unmatched@.take(i + 1 as int).drop_last() =~= r.unmatched@.take(i as int));
        append_str(&mut out, "  - ");
        let k = entity_kind_debug(u.entity.kind);
        append_str(&mut out, k.as_str());
        append_str(&mut out, ":");
        append_str(&mut out, u.entity.name.as_str());
        append_str(&mut out, " [");
        let l = location_text(u.entity.file.as_str(), u.entity.line);
        append_str(&mut out, l.as_str());
        append_str(&mut out, "]\n");
        i += 1;
    }
    assert(r.unmatched@.take(r.unmatched.len() as int) =~= r.unmatched@);
    out
}

/// `  id / field: 'value' (expected rule)` for each violation.
pub open spec fn violation_lines(vs: Seq<ViolationSpec>) -> Seq<char>
    decreases vs.len(),
{
    if vs.len() == 0 {
        Seq::empty()
    } else {
        let v = vs.last();
        violation_lines(vs.drop_last()) + "  "@ + v.subsystem_id + " / "@ + v.field + ": '"@ + v.value
            + "' (expected "@ + v.expected + ")\n"@
    }
}

/// The violations section of a manifest report: nothing without
/// violations, else a `Validation errors:` heading after a blank line and
/// one line per violation.
pub open spec fn violations_section(vs: Seq<ViolationSpec>) -> Seq<char> {
    if vs.len() == 0 {
        Seq::empty()
    } else {
        "\nValidation errors:\n"@ + violation_lines(vs)
    }
}

/// The violations section of a manifest report.
pub fn violations_text(vs: &Vec<ManifestViolation>) -> (r: String)
    ensures
        r@ == violations_section(violations_view(vs@)),
{
    let ghost vv = violations_view(vs@);
    let mut out = String::new();
    if vs.len() == 0 {
        return out;
    }
    append_str(&mut out, "\nValidation errors:\n");
    let mut i: usize = 0;
    while i < vs.len()
        invariant
            i <= vs.len(),
            vv == violations_view(vs@),
            out@ == "\nValidation errors:\n"@ + violation_lines(vv.take(i as int)),
        decreases vs.len() - i,
    {
        let v = &vs[i];
        assert(vv.take(i + 1 as int).drop_last() =~= vv.take(i as int));
        assert(vv[i as int] == v@);
        append_str(&mut out, "  ");
        append_str(&mut out, v.subsystem_id.as_str());
        append_str(&mut out, " / ");
        append_str(&mut out, v.field.as_str());
        append_str(&mut out, ": '");
        append_str(&mut out, v.value.as_str());
        append_str(&mut out, "' (expected ");
        append_str(&mut out, v.expected.as_str());
        append_str(&mut out, ")\n");
        i += 1;
    }
    assert(vv.take(vs.len() as int) =~= vv);
    out
}

// ---------------------------------------------------------------------------
// JSON input against filter flags
// ---------------------------------------------------------------------------

/// The names of the flags that are set, in order.
pub open spec fn set_flags(flags: Seq<(String, bool)>) -> Seq<Seq<char>>
    decreases flags.len(),
{
    if flags.len() == 0 {
        Seq::empty()
    } else if flags.last().1 {
        set_flags(flags.drop_last()).push(flags.last().0@)
    } else {
        set_flags(flags.drop_last())
    }
}

/// A `--json` payload replaces the filter flags of a command: when any of
/// them is set too, the error names them; else there is no conflict.
pub fn check_json_conflicts(flags: &Vec<(String, bool)>) -> (r: Option<String>)
    ensures
        set_flags(flags@).len() == 0 <==> r is None,
        r matches Some(m) ==> m@
            == "--json and individual filter flags are mutually exclusive. Remove these flags when using --json: "@
            + join_with(set_flags(flags@), ", "@),
{
    let mut names: Vec<String> = Vec::new();
    let mut i: usize = 0;
    while i < flags.len()
        invariant
            i <= flags.len(),
            strs(names@) == set_flags(flags@.take(i as int)),
        decreases flags.len() - i,
    {
        assert(flags@.take(i + 1 as int).drop_last() =~= flags@.take(i as int));
        if flags[i].1 {
            let ghost before = strs(names@);
            names.push(flags[i].0.clone());
            assert(strs(names@) =~= before.push(flags@[i as int].0@));
        }
        i += 1;
    }
    assert(flags@.take(flags.len() as int) =~= flags@);
    if names.len() == 0 {
        return None;
    }
    let mut m = text(
        "--json and individual filter flags are mutually exclusive. Remove these flags when using --json: ",
    );
    let joined = join_strings(&names, ", ");
    append_str(&mut m, joined.as_str());
    Some(m)
}


// ---------------------------------------------------------------------------
// Rule validation
// ---------------------------------------------------------------------------

pub open spec fn severity_label(s: ViolationSeverity) -> Seq<char> {
    match s {
        ViolationSeverity::Warn => "WARN"@,
        ViolationSeverity::Fail => "FAIL"@,
    }
}

/// `[SEVERITY] rule: entity - message` for each violation (`-` for no
/// entity).
pub open spec fn rule_violation_lines(vs: Seq<Violation>) -> Seq<char>
    decreases vs.len(),
{
    if vs.len() == 0 {
        Seq::empty()
    } else {
        let v = vs.last();
        rule_violation_lines(vs.drop_last()) + "["@ + severity_label(v.severity) + "] "@ + v.rule@ + ": "@ + opt_or(
            v.entity_name,
            "-"@,
        ) + " - "@ + v.message@ + "\n"@
    }
}

/// The listing of a rule validation: the counts, a blank line, then
/// `All checks passed.` or one line per violation.
pub open spec fn validation_listing(r: ValidationResult) -> Seq<char> {
    "Validation: "@ + dec(r.rules_checked as nat) + " rules checked, "@ + dec(r.pass_count as nat) + " pass, "@
        + dec(r.warn_count as nat) + " warn, "@ + dec(r.fail_count as nat) + " fail\n\n"@ + if r.violations@.len()
        == 0 {
        "All checks passed.\n"@
    } else {
        rule_violation_lines(r.violations@)
    }
}

/// The line of one violation.
pub open spec fn rule_violation_line(v: Violation) -> Seq<char> {
    "["@ + severity_label(v.severity) + "] "@ + v.rule@ + ": "@ + opt_or(v.entity_name, "-"@) + " - "@
        + v.message@ + "\n"@
}

fn push_violation_line(out: &mut String, v: &Violation)
    ensures
        final(out)@ == old(out)@ + rule_violation_line(*v),
{
    append_str(out, "[");
    match v.severity {
        ViolationSeverity::Warn => append_str(out, "WARN"),
        ViolationSeverity::Fail => append_str(out, "FAIL"),
    }
    append_str(out, "] ");
    append_str(out, v.rule.as_str());
    append_str(out, ": ");
    let e = opt_or_string(&v.entity_name, "-");
    append_str(out, e.as_str());
    append_str(out, " - ");
    append_str(out, v.message.as_str());
    append_str(out, "\n");
    assert(out@ =~= old(out)@ + rule_violation_line(*v));
}

/// The listing of a rule validation.
pub fn validation_text(r: &ValidationResult) -> (out: String)
    ensures
        out@ == validation_listing(*r),
{
    let mut out = text("Validation: ");
    let n = decimal(r.rules_checked as u64);
    append_str(&mut out, n.as_str());
    append_str(&mut out, " rules checked, ");
    let n = decimal(r.pass_count as u64);
    append_str(&mut out, n.as_str());
    append_str(&mut out, " pass, ");
    let n = decimal(r.warn_count as u64);
    append_str(&mut out, n.as_str());
    append_str(&mut out, " warn, ");
    let n = decimal(r.fail_count as u64);
    append_str(&mut out, n.as_str());
    append_str(&mut out, " fail\n\n");
    if r.violations.len() == 0 {
        append_str(&mut out, "All checks passed.\n");
        return out;
    }
    let ghost head = out@;
    let mut i: usize = 0;
    while i < r.violations.len()
        invariant
            i <= r.violations.len(),
            out@ == head + rule_violation_lines(r.violations@.take(i as int)),
        decreases r.violations.len() - i,
    {
        let v = &r.violations[i];
        proof {
            let t = r.violations@.take(i + 1 as int);
            assert(t.drop_last() =~= r.violations@.take(i as int));
            assert(t.last() == *v);
            assert(rule_violation_lines(t) =~= rule_violation_lines(r.violations@.take(i as int))
                + rule_violation_line(*v));
        }
        push_violation_line(&mut out, v);
        i += 1;
    }
    assert(r.violations@.take(r.violations.len() as int) =~= r.violations@);
    out
}


/// The number of agents a `match` payload asks for when it names none.
pub fn default_match_agents() -> (r: usize)
    ensures
        r == 3,
{
    3
}

/// The number of agents a `prompt` payload asks for when it names none.
pub fn default_prompt_agents() -> (r: usize)
    ensures
        r == 5,
{
    5
}

} // verus!
