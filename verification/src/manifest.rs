//! Manifest model, validation, matching and write-back.
//!
//! A manifest describes the expected subsystem structure of a codebase
//! (a tree of subsystems, optionally with domains and connections). The
//! validation rules check naming conventions and cross-references; matching
//! maps extracted entities onto subsystems; write-back adds matched entity
//! names to the subsystems they matched, additively.

use vstd::prelude::*;
use vstd::string::StringExecFns;
use crate::ir::BuildStatus;
use crate::path::split_on;
use crate::glob::{glob_check, glob_error};
use crate::DomainScanError;
pub use crate::text::strs;
use crate::text::{
    append_str, ascii_alnum, ascii_digit, ascii_lower, ascii_upper, chars_of, copy_string,
    is_alnum, is_digit, is_lower, is_upper, lowercase, str_eq, string_of, to_lowercase,
};

verus! {

// ---------------------------------------------------------------------------
// Manifest types
// ---------------------------------------------------------------------------

/// A manifest describing the expected subsystem structure.
#[derive(Debug, PartialEq)]
pub struct Manifest {
    pub subsystems: Vec<ManifestSubsystem>,
}

/// Extended manifest with meta, domains, and connections.
/// `domains` maps a domain id to its definition, one entry per id.
#[derive(Debug, PartialEq)]
pub struct SystemManifest {
    pub meta: ManifestMeta,
    pub domains: Vec<(String, DomainDef)>,
    pub subsystems: Vec<ManifestSubsystem>,
    pub connections: Vec<Connection>,
}

/// Metadata about the system.
#[derive(Debug, Clone, PartialEq)]
pub struct ManifestMeta {
    pub name: String,
    pub version: String,
    pub description: String,
}

/// A domain definition with label and color.
#[derive(Debug, Clone, PartialEq)]
pub struct DomainDef {
    pub label: String,
    pub color: String,
}

/// A connection between two subsystems.
#[derive(Debug, Clone, PartialEq)]
pub struct Connection {
    pub from: String,
    pub to: String,
    pub label: String,
    pub connection_type: ConnectionType,
}

/// The type of connection between subsystems.
#[derive(Debug, Clone, Copy, PartialEq, Eq, Hash, Structural)]
pub enum ConnectionType {
    DependsOn,
    Uses,
    Triggers,
}

/// A subsystem in the manifest (recursive via `children`).
#[derive(Debug, PartialEq)]
pub struct ManifestSubsystem {
    pub id: String,
    pub name: String,
    pub domain: String,
    pub status: ManifestStatus,
    pub file_path: String,
    pub interfaces: Vec<String>,
    pub operations: Vec<String>,
    pub tables: Vec<String>,
    pub events: Vec<String>,
    pub children: Vec<ManifestSubsystem>,
    pub dependencies: Vec<String>,
}

/// Status values from the manifest.
#[derive(Debug, Clone, Copy, PartialEq, Eq, Hash, Structural)]
pub enum ManifestStatus {
    Built,
    Rebuild,
    New,
    Boilerplate,
}

pub open spec fn spec_to_build_status(s: ManifestStatus) -> BuildStatus {
    match s {
        ManifestStatus::Built => BuildStatus::Built,
        ManifestStatus::Rebuild => BuildStatus::Rebuild,
        ManifestStatus::New | ManifestStatus::Boilerplate => BuildStatus::Unbuilt,
    }
}

impl ManifestStatus {
    /// The build status a manifest status stands for.
    pub fn to_build_status(self) -> (b: BuildStatus)
        ensures
            b == spec_to_build_status(self),
    {
        match self {
            ManifestStatus::Built => BuildStatus::Built,
            ManifestStatus::Rebuild => BuildStatus::Rebuild,
            ManifestStatus::New | ManifestStatus::Boilerplate => BuildStatus::Unbuilt,
        }
    }
}

/// The manifest status a status word names, ignoring case.
pub open spec fn status_named(lower: Seq<char>) -> Option<ManifestStatus> {
    if lower == "built"@ {
        Some(ManifestStatus::Built)
    } else if lower == "rebuild"@ {
        Some(ManifestStatus::Rebuild)
    } else if lower == "new"@ {
        Some(ManifestStatus::New)
    } else if lower == "boilerplate"@ {
        Some(ManifestStatus::Boilerplate)
    } else {
        None
    }
}

/// Reads a manifest status word, ignoring case: `built`, `rebuild`, `new`
/// or `boilerplate`. Any other word is refused with
/// `unknown manifest status: <word lowercased>`.
pub fn parse_manifest_status(word: &str) -> (r: Result<ManifestStatus, String>)
    ensures
        match status_named(lowercase(word@)) {
            Some(st) => r == Ok::<ManifestStatus, String>(st),
            None => r matches Err(m) && m@ == "unknown manifest status: "@ + lowercase(word@),
        },
{
    let lower = to_lowercase(word);
    if str_eq(lower.as_str(), "built") {
        Ok(ManifestStatus::Built)
    } else if str_eq(lower.as_str(), "rebuild") {
        Ok(ManifestStatus::Rebuild)
    } else if str_eq(lower.as_str(), "new") {
        Ok(ManifestStatus::New)
    } else if str_eq(lower.as_str(), "boilerplate") {
        Ok(ManifestStatus::Boilerplate)
    } else {
        let mut m = string_of(&chars_of("unknown manifest status: "));
        append_str(&mut m, lower.as_str());
        Err(m)
    }
}

/// A naming or integrity violation found in a manifest.
#[derive(Debug, Clone, PartialEq)]
pub struct ManifestViolation {
    pub subsystem_id: String,
    pub field: String,
    pub value: String,
    pub expected: String,
}

/// The content of a violation.
pub struct ViolationSpec {
    pub subsystem_id: Seq<char>,
    pub field: Seq<char>,
    pub value: Seq<char>,
    pub expected: Seq<char>,
}

impl View for ManifestViolation {
    type V = ViolationSpec;

    open spec fn view(&self) -> ViolationSpec {
        ViolationSpec {
            subsystem_id: self.subsystem_id@,
            field: self.field@,
            value: self.value@,
            expected: self.expected@,
        }
    }
}

pub open spec fn violations_view(v: Seq<ManifestViolation>) -> Seq<ViolationSpec> {
    v.map_values(|x: ManifestViolation| x@)
}


// ---------------------------------------------------------------------------
// Copies
// ---------------------------------------------------------------------------

/// A copy of a vector of strings.
pub fn copy_strings(v: &Vec<String>) -> (r: Vec<String>)
    ensures
        r@ == v@,
{
    let r = v.clone();
    assert(r@ =~= v@);
    r
}

/// The content of a subsystem, children included.
pub struct SubsystemView {
    pub id: Seq<char>,
    pub name: Seq<char>,
    pub domain: Seq<char>,
    pub status: ManifestStatus,
    pub file_path: Seq<char>,
    pub interfaces: Seq<Seq<char>>,
    pub operations: Seq<Seq<char>>,
    pub tables: Seq<Seq<char>>,
    pub events: Seq<Seq<char>>,
    pub children: Seq<SubsystemView>,
    pub dependencies: Seq<Seq<char>>,
}

pub open spec fn sub_view(s: ManifestSubsystem) -> SubsystemView
    decreases s,
{
    SubsystemView {
        id: s.id@,
        name: s.name@,
        domain: s.domain@,
        status: s.status,
        file_path: s.file_path@,
        interfaces: strs(s.interfaces@),
        operations: strs(s.operations@),
        tables: strs(s.tables@),
        events: strs(s.events@),
        children: subs_view(s.children@),
        dependencies: strs(s.dependencies@),
    }
}

pub open spec fn subs_view(ss: Seq<ManifestSubsystem>) -> Seq<SubsystemView>
    decreases ss,
{
    if ss.len() == 0 {
        Seq::empty()
    } else {
        subs_view(ss.drop_last()).push(sub_view(ss.last()))
    }
}

impl View for ManifestSubsystem {
    type V = SubsystemView;

    open spec fn view(&self) -> SubsystemView {
        sub_view(*self)
    }
}

pub proof fn lemma_subs_view_len(ss: Seq<ManifestSubsystem>)
    ensures
        subs_view(ss).len() == ss.len(),
    decreases ss.len(),
{
    if ss.len() > 0 {
        lemma_subs_view_len(ss.drop_last());
    }
}

pub proof fn lemma_subs_view_index(ss: Seq<ManifestSubsystem>, i: int)
    requires
        0 <= i < ss.len(),
    ensures
        subs_view(ss)[i] == sub_view(ss[i]),
    decreases ss.len(),
{
    lemma_subs_view_len(ss.drop_last());
    if i < ss.len() - 1 {
        lemma_subs_view_index(ss.drop_last(), i);
    }
}

pub proof fn lemma_subs_view_take(ss: Seq<ManifestSubsystem>, i: int)
    requires
        0 <= i < ss.len(),
    ensures
        subs_view(ss.take(i + 1)) == subs_view(ss.take(i)).push(sub_view(ss[i])),
{
    assert(ss.take(i + 1).drop_last() =~= ss.take(i));
}

/// A deep copy of a subsystem.
pub fn copy_subsystem(s: &ManifestSubsystem) -> (r: ManifestSubsystem)
    ensures
        r@ == s@,
    decreases *s,
{
    let children = copy_subsystems(&s.children);
    let r = ManifestSubsystem {
        id: copy_string(&s.id),
        name: copy_string(&s.name),
        domain: copy_string(&s.domain),
        status: s.status,
        file_path: copy_string(&s.file_path),
        interfaces: copy_strings(&s.interfaces),
        operations: copy_strings(&s.operations),
        tables: copy_strings(&s.tables),
        events: copy_strings(&s.events),
        children,
        dependencies: copy_strings(&s.dependencies),
    };
    r
}

/// A deep copy of a list of subsystems.
pub fn copy_subsystems(v: &Vec<ManifestSubsystem>) -> (r: Vec<ManifestSubsystem>)
    ensures
        subs_view(r@) == subs_view(v@),
        r@.len() == v@.len(),
    decreases v@,
{
    let mut r: Vec<ManifestSubsystem> = Vec::new();
    let mut i: usize = 0;
    while i < v.len()
        invariant
            i <= v.len(),
            r@.len() == i,
            subs_view(r@) == subs_view(v@.take(i as int)),
        decreases v.len() - i,
    {
        assert(decreases_to!(v@ => v@[i as int]));
        let c = copy_subsystem(&v[i]);
        let ghost before = r@;
        r.push(c);
        proof {
            lemma_subs_view_take(v@, i as int);
            assert(r@.drop_last() =~= before);
        }
        i += 1;
    }
    assert(v@.take(v.len() as int) =~= v@);
    r
}

impl SystemManifest {
    /// The simpler manifest holding the same subsystems.
    pub fn as_manifest(&self) -> (m: Manifest)
        ensures
            subs_view(m.subsystems@) == subs_view(self.subsystems@),
    {
        Manifest { subsystems: copy_subsystems(&self.subsystems) }
    }
}

// ---------------------------------------------------------------------------
// Flattening
// ---------------------------------------------------------------------------

/// A subsystem followed by all its descendants, depth-first.
pub open spec fn flatten_sub(s: SubsystemView) -> Seq<SubsystemView>
    decreases s,
{
    seq![s] + flatten_list(s.children)
}

/// The subsystems of a list and all their descendants, depth-first, in order.
pub open spec fn flatten_list(ss: Seq<SubsystemView>) -> Seq<SubsystemView>
    decreases ss,
{
    if ss.len() == 0 {
        Seq::empty()
    } else {
        flatten_list(ss.drop_last()) + flatten_sub(ss.last())
    }
}

/// The manifest tree flattened depth-first.
pub open spec fn flatten_manifest(m: Manifest) -> Seq<SubsystemView> {
    flatten_list(subs_view(m.subsystems@))
}

// ---------------------------------------------------------------------------
// Naming conventions
// ---------------------------------------------------------------------------

/// `^[A-Z][A-Za-z0-9]*$`
pub open spec fn spec_is_pascal_case(s: Seq<char>) -> bool {
    s.len() > 0 && is_upper(s[0]) && forall|i: int| 1 <= i < s.len() ==> is_alnum(#[trigger] s[i])
}

/// `^[a-z][A-Za-z0-9]*\(\)$`
pub open spec fn spec_is_operation_format(s: Seq<char>) -> bool {
    s.len() >= 3 && s[s.len() - 2] == '(' && s[s.len() - 1] == ')' && is_lower(s[0]) && forall|
        i: int,
    |
        1 <= i < s.len() - 2 ==> is_alnum(#[trigger] s[i])
}

/// `^[a-z][a-z0-9_]*$`
pub open spec fn spec_is_snake_case(s: Seq<char>) -> bool {
    s.len() > 0 && is_lower(s[0]) && forall|i: int|
        1 <= i < s.len() ==> (is_lower(#[trigger] s[i]) || is_digit(s[i]) || s[i] == '_')
}

/// One lowercase word of dot notation: `[a-z][a-z0-9]*`.
pub open spec fn spec_is_dot_word(s: Seq<char>) -> bool {
    s.len() > 0 && is_lower(s[0]) && forall|i: int|
        1 <= i < s.len() ==> (is_lower(#[trigger] s[i]) || is_digit(s[i]))
}

/// `^[a-z][a-z0-9]*(\.[a-z][a-z0-9]*)+$`
pub open spec fn spec_is_dot_notation(s: Seq<char>) -> bool {
    let parts = split_on(s, '.');
    parts.len() >= 2 && forall|i: int| 0 <= i < parts.len() ==> spec_is_dot_word(#[trigger] parts[i])
}

/// PascalCase is exactly: an ASCII capital letter, then ASCII letters and
/// digits only.
pub proof fn lemma_pascal_case_exact(s: Seq<char>)
    ensures
        spec_is_pascal_case(s) <==> (s.len() > 0 && 'A' <= s[0] && s[0] <= 'Z' && forall|i: int|
            1 <= i < s.len() ==> ('A' <= #[trigger] s[i] && s[i] <= 'Z') || ('a' <= s[i] && s[i] <= 'z')
                || ('0' <= s[i] && s[i] <= '9')),
{
}

/// The operation format is exactly: an ASCII lower-case letter, then
/// ASCII letters and digits, then `()`.
pub proof fn lemma_operation_format_exact(s: Seq<char>)
    ensures
        spec_is_operation_format(s) <==> (s.len() >= 3 && 'a' <= s[0] && s[0] <= 'z' && s[s.len() - 2]
            == '(' && s[s.len() - 1] == ')' && forall|i: int|
            1 <= i < s.len() - 2 ==> ('A' <= #[trigger] s[i] && s[i] <= 'Z') || ('a' <= s[i] && s[i]
                <= 'z') || ('0' <= s[i] && s[i] <= '9')),
{
}

/// snake_case is exactly: an ASCII lower-case letter, then ASCII
/// lower-case letters, digits and underscores only.
pub proof fn lemma_snake_case_exact(s: Seq<char>)
    ensures
        spec_is_snake_case(s) <==> (s.len() > 0 && 'a' <= s[0] && s[0] <= 'z' && forall|i: int|
            1 <= i < s.len() ==> ('a' <= #[trigger] s[i] && s[i] <= 'z') || ('0' <= s[i] && s[i] <= '9')
                || s[i] == '_'),
{
}

/// A word of dot notation is exactly: an ASCII lower-case letter, then
/// ASCII lower-case letters and digits only.
pub proof fn lemma_dot_word_exact(s: Seq<char>)
    ensures
        spec_is_dot_word(s) <==> (s.len() > 0 && 'a' <= s[0] && s[0] <= 'z' && forall|i: int|
            1 <= i < s.len() ==> ('a' <= #[trigger] s[i] && s[i] <= 'z') || ('0' <= s[i] && s[i] <= '9')),
{
}

/// The naming check of a list reports exactly the values that break the
/// rule, in order, each under the rule's field with the rule's
/// expectation: a value yields a violation if and only if it breaks the
/// rule.
pub proof fn lemma_field_violations_exact(id: Seq<char>, rule: NameRule, vals: Seq<Seq<char>>)
    ensures
        field_violations(id, rule, vals).len() <= vals.len(),
        forall|k: int|
            0 <= k < field_violations(id, rule, vals).len() ==> {
                let v = #[trigger] field_violations(id, rule, vals)[k];
                &&& vals.contains(v.value)
                &&& !rule_ok(rule, v.value)
                &&& v.subsystem_id == id
                &&& v.field == rule_field(rule)
                &&& v.expected == rule_expected(rule)
            },
        forall|i: int|
            0 <= i < vals.len() && !rule_ok(rule, #[trigger] vals[i]) ==> exists|k: int|
                0 <= k < field_violations(id, rule, vals).len() && field_violations(id, rule, vals)[k].value
                    == vals[i],
    decreases vals.len(),
{
    if vals.len() > 0 {
        let init = vals.drop_last();
        lemma_field_violations_exact(id, rule, init);
        let r = field_violations(id, rule, vals);
        let p = field_violations(id, rule, init);
        assert forall|k: int| 0 <= k < r.len() implies ({
            let v = #[trigger] r[k];
            &&& vals.contains(v.value)
            &&& !rule_ok(rule, v.value)
            &&& v.subsystem_id == id
            &&& v.field == rule_field(rule)
            &&& v.expected == rule_expected(rule)
        }) by {
            if k < p.len() {
                assert(r[k] == p[k]);
                let q = choose|q: int| 0 <= q < init.len() && init[q] == p[k].value;
                assert(vals[q] == init[q]);
            } else {
                assert(vals[vals.len() - 1] == vals.last());
            }
        }
        assert forall|i: int| 0 <= i < vals.len() && !rule_ok(rule, #[trigger] vals[i]) implies exists|k: int|
            0 <= k < r.len() && r[k].value == vals[i] by {
            if i < vals.len() - 1 {
                assert(vals[i] == init[i]);
                let k = choose|k: int| 0 <= k < p.len() && p[k].value == init[i];
                assert(r[k] == p[k]);
            } else {
                assert(r[r.len() - 1].value == vals.last());
            }
        }
    }
}

pub fn is_pascal_case(s: &str) -> (r: bool)
    ensures
        r == spec_is_pascal_case(s@),
{
    let v = chars_of(s);
    if v.len() == 0 || !ascii_upper(v[0]) {
        return false;
    }
    let mut i: usize = 1;
    while i < v.len()
        invariant
            v@ == s@,
            1 <= i <= v.len(),
            forall|j: int| 1 <= j < i ==> is_alnum(#[trigger] v@[j]),
        decreases v.len() - i,
    {
        if !ascii_alnum(v[i]) {
            assert(!is_alnum(v@[i as int]));
            return false;
        }
        i += 1;
    }
    true
}

pub fn is_operation_format(s: &str) -> (r: bool)
    ensures
        r == spec_is_operation_format(s@),
{
    let v = chars_of(s);
    let n = v.len();
    if n < 2 || v[n - 2] != '(' || v[n - 1] != ')' {
        return false;
    }
    if n < 3 || !ascii_lower(v[0]) {
        return false;
    }
    let mut i: usize = 1;
    while i < n - 2
        invariant
            v@ == s@,
            1 <= i <= n - 2,
            n == v.len(),
            forall|j: int| 1 <= j < i ==> is_alnum(#[trigger] v@[j]),
        decreases n - i,
    {
        if !ascii_alnum(v[i]) {
            assert(!is_alnum(v@[i as int]));
            return false;
        }
        i += 1;
    }
    true
}

pub fn is_snake_case(s: &str) -> (r: bool)
    ensures
        r == spec_is_snake_case(s@),
{
    let v = chars_of(s);
    if v.len() == 0 || !ascii_lower(v[0]) {
        return false;
    }
    let mut i: usize = 1;
    while i < v.len()
        invariant
            v@ == s@,
            1 <= i <= v.len(),
            forall|j: int|
                1 <= j < i ==> (is_lower(#[trigger] v@[j]) || is_digit(v@[j]) || v@[j] == '_'),
        decreases v.len() - i,
    {
        let c = v[i];
        if !(ascii_lower(c) || ascii_digit(c) || c == '_') {
            assert(!(is_lower(v@[i as int]) || is_digit(v@[i as int]) || v@[i as int] == '_'));
            return false;
        }
        i += 1;
    }
    true
}

fn is_dot_word(v: &Vec<char>) -> (r: bool)
    ensures
        r == spec_is_dot_word(v@),
{
    if v.len() == 0 || !ascii_lower(v[0]) {
        return false;
    }
    let mut i: usize = 1;
    while i < v.len()
        invariant
            1 <= i <= v.len(),
            forall|j: int| 1 <= j < i ==> (is_lower(#[trigger] v@[j]) || is_digit(v@[j])),
        decreases v.len() - i,
    {
        let c = v[i];
        if !(ascii_lower(c) || ascii_digit(c)) {
            assert(!(is_lower(v@[i as int]) || is_digit(v@[i as int])));
            return false;
        }
        i += 1;
    }
    true
}

pub fn is_dot_notation(s: &str) -> (r: bool)
    ensures
        r == spec_is_dot_notation(s@),
{
    let v = chars_of(s);
    let parts = crate::path::split_chars(&v, '.');
    if parts.len() < 2 {
        return false;
    }
    let mut i: usize = 0;
    while i < parts.len()
        invariant
            v@ == s@,
            i <= parts.len(),
            crate::path::pieces_view(parts@) == split_on(v@, '.'),
            forall|j: int| 0 <= j < i ==> spec_is_dot_word(#[trigger] split_on(v@, '.')[j]),
        decreases parts.len() - i,
    {
        if !is_dot_word(&parts[i]) {
            assert(split_on(v@, '.')[i as int] == parts@[i as int]@);
            assert(!spec_is_dot_word(split_on(v@, '.')[i as int]));
            return false;
        }
        assert(split_on(v@, '.')[i as int] == parts@[i as int]@);
        i += 1;
    }
    true
}

// ---------------------------------------------------------------------------
// Naming validation
// ---------------------------------------------------------------------------

/// The naming rule a manifest list is held to.
#[derive(Debug, Clone, Copy, PartialEq, Eq, Structural)]
pub enum NameRule {
    /// `interfaces`: PascalCase.
    Pascal,
    /// `operations`: camelCase with `()`.
    Operation,
    /// `tables`: snake_case.
    Snake,
    /// `events`: dot.notation.
    Dot,
}

pub open spec fn rule_ok(rule: NameRule, v: Seq<char>) -> bool {
    match rule {
        NameRule::Pascal => spec_is_pascal_case(v),
        NameRule::Operation => spec_is_operation_format(v),
        NameRule::Snake => spec_is_snake_case(v),
        NameRule::Dot => spec_is_dot_notation(v),
    }
}

pub open spec fn rule_field(rule: NameRule) -> Seq<char> {
    match rule {
        NameRule::Pascal => "interfaces"@,
        NameRule::Operation => "operations"@,
        NameRule::Snake => "tables"@,
        NameRule::Dot => "events"@,
    }
}

pub open spec fn rule_expected(rule: NameRule) -> Seq<char> {
    match rule {
        NameRule::Pascal => "PascalCase (^[A-Z][A-Za-z0-9]*$)"@,
        NameRule::Operation => "camelCase with () (^[a-z][A-Za-z0-9]*\\(\\)$)"@,
        NameRule::Snake => "snake_case (^[a-z][a-z0-9_]*$)"@,
        NameRule::Dot => "dot.notation (^[a-z][a-z0-9]*(\\.[a-z][a-z0-9]*)+$)"@,
    }
}

/// One violation per value of `vals` that breaks `rule`, in order.
pub open spec fn field_violations(id: Seq<char>, rule: NameRule, vals: Seq<Seq<char>>) -> Seq<
    ViolationSpec,
>
    decreases vals.len(),
{
    if vals.len() == 0 {
        Seq::empty()
    } else {
        let prev = field_violations(id, rule, vals.drop_last());
        if rule_ok(rule, vals.last()) {
            prev
        } else {
            prev.push(
                ViolationSpec {
                    subsystem_id: id,
                    field: rule_field(rule),
                    value: vals.last(),
                    expected: rule_expected(rule),
                },
            )
        }
    }
}

/// The naming violations of one subsystem's own lists.
pub open spec fn naming_violations_of(s: SubsystemView) -> Seq<ViolationSpec> {
    field_violations(s.id, NameRule::Pascal, s.interfaces) + field_violations(
        s.id,
        NameRule::Operation,
        s.operations,
    ) + field_violations(s.id, NameRule::Snake, s.tables) + field_violations(
        s.id,
        NameRule::Dot,
        s.events,
    )
}

/// The naming violations of a sequence of subsystems, in order.
pub open spec fn naming_violations(flat: Seq<SubsystemView>) -> Seq<ViolationSpec>
    decreases flat.len(),
{
    if flat.len() == 0 {
        Seq::empty()
    } else {
        naming_violations(flat.drop_last()) + naming_violations_of(flat.last())
    }
}

pub proof fn lemma_naming_violations_append(a: Seq<SubsystemView>, b: Seq<SubsystemView>)
    ensures
        naming_violations(a + b) == naming_violations(a) + naming_violations(b),
    decreases b.len(),
{
    if b.len() == 0 {
        assert(a + b =~= a);
        assert(naming_violations(a) + naming_violations(b) =~= naming_violations(a));
    } else {
        lemma_naming_violations_append(a, b.drop_last());
        assert((a + b).drop_last() =~= a + b.drop_last());
        assert((a + b).last() == b.last());
        assert(naming_violations(a + b) =~= naming_violations(a) + naming_violations(b));
    }
}

fn rule_holds(rule: NameRule, v: &String) -> (r: bool)
    ensures
        r == rule_ok(rule, v@),
{
    match rule {
        NameRule::Pascal => is_pascal_case(v.as_str()),
        NameRule::Operation => is_operation_format(v.as_str()),
        NameRule::Snake => is_snake_case(v.as_str()),
        NameRule::Dot => is_dot_notation(v.as_str()),
    }
}

fn rule_field_string(rule: NameRule) -> (r: String)
    ensures
        r@ == rule_field(rule),
{
    match rule {
        NameRule::Pascal => String::from_str("interfaces"),
        NameRule::Operation => String::from_str("operations"),
        NameRule::Snake => String::from_str("tables"),
        NameRule::Dot => String::from_str("events"),
    }
}

fn rule_expected_string(rule: NameRule) -> (r: String)
    ensures
        r@ == rule_expected(rule),
{
    match rule {
        NameRule::Pascal => String::from_str("PascalCase (^[A-Z][A-Za-z0-9]*$)"),
        NameRule::Operation => String::from_str("camelCase with () (^[a-z][A-Za-z0-9]*\\(\\)$)"),
        NameRule::Snake => String::from_str("snake_case (^[a-z][a-z0-9_]*$)"),
        NameRule::Dot => String::from_str("dot.notation (^[a-z][a-z0-9]*(\\.[a-z][a-z0-9]*)+$)"),
    }
}

fn push_field_violations(
    id: &String,
    rule: NameRule,
    vals: &Vec<String>,
    out: &mut Vec<ManifestViolation>,
)
    ensures
        violations_view(final(out)@) == violations_view(old(out)@) + field_violations(
            id@,
            rule,
            strs(vals@),
        ),
{
    let mut i: usize = 0;
    while i < vals.len()
        invariant
            i <= vals.len(),
            violations_view(out@) == violations_view(old(out)@) + field_violations(
                id@,
                rule,
                strs(vals@.take(i as int)),
            ),
        decreases vals.len() - i,
    {
        let ghost before = violations_view(out@);
        assert(strs(vals@.take(i + 1 as int)).drop_last() =~= strs(vals@.take(i as int)));
        assert(strs(vals@.take(i + 1 as int)).last() == vals@[i as int]@);
        if !rule_holds(rule, &vals[i]) {
            out.push(
                ManifestViolation {
                    subsystem_id: copy_string(id),
                    field: rule_field_string(rule),
                    value: copy_string(&vals[i]),
                    expected: rule_expected_string(rule),
                },
            );
            assert(violations_view(out@) =~= before.push(violations_view(out@).last()));
        }
        i += 1;
        assert(violations_view(out@) =~= violations_view(old(out)@) + field_violations(
            id@,
            rule,
            strs(vals@.take(i as int)),
        ));
    }
    assert(vals@.take(vals.len() as int) =~= vals@);
}

fn naming_violations_node(s: &ManifestSubsystem, out: &mut Vec<ManifestViolation>)
    ensures
        violations_view(final(out)@) == violations_view(old(out)@) + naming_violations(
            flatten_sub(s@),
        ),
    decreases *s,
{
    push_field_violations(&s.id, NameRule::Pascal, &s.interfaces, out);
    push_field_violations(&s.id, NameRule::Operation, &s.operations, out);
    push_field_violations(&s.id, NameRule::Snake, &s.tables, out);
    push_field_violations(&s.id, NameRule::Dot, &s.events, out);
    let ghost mid = violations_view(out@);
    naming_violations_list(&s.children, out);
    proof {
        lemma_naming_violations_append(seq![s@], flatten_list(s@.children));
        assert(seq![s@].drop_last() =~= Seq::<SubsystemView>::empty());
        assert(naming_violations(Seq::<SubsystemView>::empty()) =~= Seq::<ViolationSpec>::empty());
        assert(naming_violations(seq![s@]) == naming_violations(seq![s@].drop_last())
            + naming_violations_of(s@));
        assert(naming_violations(seq![s@]) =~= naming_violations_of(s@));
        assert(violations_view(out@) =~= violations_view(old(out)@) + naming_violations(
            flatten_sub(s@),
        ));
    }
}

fn naming_violations_list(subs: &Vec<ManifestSubsystem>, out: &mut Vec<ManifestViolation>)
    ensures
        violations_view(final(out)@) == violations_view(old(out)@) + naming_violations(
            flatten_list(subs_view(subs@)),
        ),
    decreases subs@,
{
    let mut i: usize = 0;
    while i < subs.len()
        invariant
            i <= subs.len(),
            violations_view(out@) == violations_view(old(out)@) + naming_violations(
                flatten_list(subs_view(subs@.take(i as int))),
            ),
        decreases subs.len() - i,
    {
        assert(decreases_to!(subs@ => subs@[i as int]));
        let ghost before = violations_view(out@);
        naming_violations_node(&subs[i], out);
        proof {
            lemma_subs_view_take(subs@, i as int);
            let prefix = subs_view(subs@.take(i as int));
            let next = subs_view(subs@.take(i + 1 as int));
            assert(next.drop_last() =~= prefix);
            assert(next.last() == subs@[i as int]@);
            lemma_naming_violations_append(flatten_list(prefix), flatten_sub(subs@[i as int]@));
        }
        i += 1;
    }
    assert(subs@.take(subs.len() as int) =~= subs@);
}

/// Validate a manifest's naming conventions: every interface must be
/// PascalCase, every operation camelCase with `()`, every table snake_case
/// and every event dot.notation. One violation per offending value, in
/// depth-first subsystem order and, within a subsystem, in the order
/// interfaces, operations, tables, events.
pub fn validate_manifest(manifest: &Manifest) -> (r: Vec<ManifestViolation>)
    ensures
        violations_view(r@) == naming_violations(flatten_manifest(*manifest)),
{
    let mut out: Vec<ManifestViolation> = Vec::new();
    naming_violations_list(&manifest.subsystems, &mut out);
    assert(violations_view(Seq::<ManifestViolation>::empty()) =~= Seq::<ViolationSpec>::empty());
    assert(Seq::<ViolationSpec>::empty() + naming_violations(flatten_manifest(*manifest))
        =~= naming_violations(flatten_manifest(*manifest)));
    out
}

// ---------------------------------------------------------------------------
// Integrity validation of a system manifest
// ---------------------------------------------------------------------------

/// The ids of a sequence of subsystems.
pub open spec fn ids_of(flat: Seq<SubsystemView>) -> Seq<Seq<char>> {
    flat.map_values(|v: SubsystemView| v.id)
}

pub open spec fn violation(id: Seq<char>, field: Seq<char>, value: Seq<char>, expected: Seq<char>) -> ViolationSpec {
    ViolationSpec { subsystem_id: id, field, value, expected }
}

/// One violation for each subsystem whose id already occurred earlier in
/// `flat`.
pub open spec fn duplicate_id_violations(flat: Seq<SubsystemView>) -> Seq<ViolationSpec>
    decreases flat.len(),
{
    if flat.len() == 0 {
        Seq::empty()
    } else {
        let prev = duplicate_id_violations(flat.drop_last());
        let s = flat.last();
        if ids_of(flat.drop_last()).contains(s.id) {
            prev.push(violation(s.id, "id"@, s.id, "unique subsystem id"@))
        } else {
            prev
        }
    }
}

/// Whether `key` names one of the domains.
pub open spec fn has_domain(domains: Seq<(String, DomainDef)>, key: Seq<char>) -> bool {
    exists|i: int| 0 <= i < domains.len() && (#[trigger] domains[i]).0@ == key
}

/// One violation per dependency that names no subsystem.
pub open spec fn dependency_violations(id: Seq<char>, deps: Seq<Seq<char>>, ids: Seq<Seq<char>>) -> Seq<
    ViolationSpec,
>
    decreases deps.len(),
{
    if deps.len() == 0 {
        Seq::empty()
    } else {
        let prev = dependency_violations(id, deps.drop_last(), ids);
        if ids.contains(deps.last()) {
            prev
        } else {
            prev.push(violation(id, "dependencies"@, deps.last(), "existing subsystem id"@))
        }
    }
}

/// The integrity violations of one subsystem's own fields, given the
/// domain of its parent (if it has one).
pub open spec fn node_semantic_violations(
    s: SubsystemView,
    domains: Seq<(String, DomainDef)>,
    ids: Seq<Seq<char>>,
    parent: Option<Seq<char>>,
) -> Seq<ViolationSpec> {
    let empty_path: Seq<ViolationSpec> = if s.file_path.len() == 0 {
        seq![violation(s.id, "filePath"@, Seq::empty(), "non-empty directory path"@)]
    } else {
        Seq::empty()
    };
    let unknown_domain: Seq<ViolationSpec> = if domains.len() > 0 && s.domain.len() > 0
        && !has_domain(domains, s.domain) {
        seq![violation(s.id, "domain"@, s.domain, "existing domain id"@)]
    } else {
        Seq::empty()
    };
    let parent_mismatch: Seq<ViolationSpec> = match parent {
        Some(p) => if p.len() > 0 && s.domain.len() > 0 && s.domain != p {
            seq![violation(s.id, "domain"@, s.domain, "same domain as parent ("@ + p + ")"@)]
        } else {
            Seq::empty()
        },
        None => Seq::empty(),
    };
    empty_path + unknown_domain + parent_mismatch + dependency_violations(
        s.id,
        s.dependencies,
        ids,
    )
}

/// The integrity violations of a subsystem and its descendants.
pub open spec fn semantic_violations_sub(
    s: SubsystemView,
    domains: Seq<(String, DomainDef)>,
    ids: Seq<Seq<char>>,
    parent: Option<Seq<char>>,
) -> Seq<ViolationSpec>
    decreases s,
{
    node_semantic_violations(s, domains, ids, parent) + semantic_violations_list(
        s.children,
        domains,
        ids,
        Some(s.domain),
    )
}

/// The integrity violations of a list of sibling subsystems.
pub open spec fn semantic_violations_list(
    ss: Seq<SubsystemView>,
    domains: Seq<(String, DomainDef)>,
    ids: Seq<Seq<char>>,
    parent: Option<Seq<char>>,
) -> Seq<ViolationSpec>
    decreases ss,
{
    if ss.len() == 0 {
        Seq::empty()
    } else {
        semantic_violations_list(ss.drop_last(), domains, ids, parent) + semantic_violations_sub(
            ss.last(),
            domains,
            ids,
            parent,
        )
    }
}

/// One violation per connection endpoint that names no subsystem.
pub open spec fn connection_violations(conns: Seq<Connection>, ids: Seq<Seq<char>>) -> Seq<
    ViolationSpec,
>
    decreases conns.len(),
{
    if conns.len() == 0 {
        Seq::empty()
    } else {
        let prev = connection_violations(conns.drop_last(), ids);
        let c = conns.last();
        let from_v: Seq<ViolationSpec> = if ids.contains(c.from@) {
            Seq::empty()
        } else {
            seq![violation(c.from@, "connections.from"@, c.from@, "existing subsystem id"@)]
        };
        let to_v: Seq<ViolationSpec> = if ids.contains(c.to@) {
            Seq::empty()
        } else {
            seq![violation(c.to@, "connections.to"@, c.to@, "existing subsystem id"@)]
        };
        prev + from_v + to_v
    }
}

/// All violations of a system manifest, in the order they are reported.
pub open spec fn system_violations(m: SystemManifest) -> Seq<ViolationSpec> {
    let flat = flatten_list(subs_view(m.subsystems@));
    naming_violations(flat) + duplicate_id_violations(flat) + semantic_violations_list(
        subs_view(m.subsystems@),
        m.domains@,
        ids_of(flat),
        None,
    ) + connection_violations(m.connections@, ids_of(flat))
}

/// Whether `v` holds a string equal to `x`.
pub fn strings_contain(v: &Vec<String>, x: &String) -> (r: bool)
    ensures
        r == strs(v@).contains(x@),
{
    let mut i: usize = 0;
    while i < v.len()
        invariant
            i <= v.len(),
            forall|j: int| 0 <= j < i ==> v@[j]@ != x@,
        decreases v.len() - i,
    {
        if v[i] == *x {
            assert(strs(v@)[i as int] == x@);
            return true;
        }
        i += 1;
    }
    assert(!strs(v@).contains(x@)) by {
        if strs(v@).contains(x@) {
            let k = choose|k: int| 0 <= k < strs(v@).len() && strs(v@)[k] == x@;
            assert(v@[k]@ == x@);
        }
    }
    false
}

pub proof fn lemma_duplicate_ids_after_append(a: Seq<SubsystemView>, x: Seq<SubsystemView>, y: Seq<SubsystemView>)
    ensures
        duplicate_ids_after(a, x + y) == duplicate_ids_after(a, x) + duplicate_ids_after(a + x, y),
    decreases y.len(),
{
    if y.len() == 0 {
        assert(x + y =~= x);
        assert(duplicate_ids_after(a, x) + duplicate_ids_after(a + x, y) =~= duplicate_ids_after(
            a,
            x,
        ));
    } else {
        lemma_duplicate_ids_after_append(a, x, y.drop_last());
        assert((x + y).drop_last() =~= x + y.drop_last());
        assert((x + y).last() == y.last());
        assert(a + (x + y).drop_last() =~= (a + x) + y.drop_last());
        assert(duplicate_ids_after(a, x + y) =~= duplicate_ids_after(a, x) + duplicate_ids_after(
            a + x,
            y,
        ));
    }
}

pub proof fn lemma_duplicate_ids_from_start(b: Seq<SubsystemView>)
    ensures
        duplicate_id_violations(b) == duplicate_ids_after(Seq::empty(), b),
    decreases b.len(),
{
    if b.len() > 0 {
        lemma_duplicate_ids_from_start(b.drop_last());
        assert(Seq::<SubsystemView>::empty() + b.drop_last() =~= b.drop_last());
    }
}

/// The duplicate-id violations of `b` when `b` follows `a`.
pub open spec fn duplicate_ids_after(a: Seq<SubsystemView>, b: Seq<SubsystemView>) -> Seq<
    ViolationSpec,
>
    decreases b.len(),
{
    if b.len() == 0 {
        Seq::empty()
    } else {
        let prev = duplicate_ids_after(a, b.drop_last());
        let s = b.last();
        if ids_of(a + b.drop_last()).contains(s.id) {
            prev.push(violation(s.id, "id"@, s.id, "unique subsystem id"@))
        } else {
            prev
        }
    }
}

fn id_string() -> (r: String)
    ensures
        r@ == "id"@,
{
    String::from_str("id")
}

fn collect_ids_node(
    s: &ManifestSubsystem,
    seen: &mut Vec<String>,
    out: &mut Vec<ManifestViolation>,
    Ghost(prefix): Ghost<Seq<SubsystemView>>,
)
    requires
        strs(old(seen)@) == ids_of(prefix),
    ensures
        strs(final(seen)@) == ids_of(prefix + flatten_sub(s@)),
        violations_view(final(out)@) == violations_view(old(out)@) + duplicate_ids_after(
            prefix,
            flatten_sub(s@),
        ),
    decreases *s,
{
    let ghost out0 = violations_view(out@);
    let dup = strings_contain(seen, &s.id);
    if dup {
        out.push(
            ManifestViolation {
                subsystem_id: copy_string(&s.id),
                field: id_string(),
                value: copy_string(&s.id),
                expected: String::from_str("unique subsystem id"),
            },
        );
    }
    let ghost seen0 = seen@;
    seen.push(copy_string(&s.id));
    let ghost p1 = prefix.push(s@);
    proof {
        assert(s@.id == s.id@);
        assert(ids_of(p1) =~= ids_of(prefix).push(s@.id));
        assert(strs(seen@) =~= strs(seen0).push(s.id@));
        assert(strs(seen@) =~= ids_of(p1));
        assert(seq![s@].drop_last() =~= Seq::<SubsystemView>::empty());
        assert(prefix + seq![s@].drop_last() =~= prefix);
        assert(duplicate_ids_after(prefix, Seq::<SubsystemView>::empty()) =~= Seq::<
            ViolationSpec,
        >::empty());
        assert(violations_view(out@) =~= out0 + duplicate_ids_after(prefix, seq![s@]));
    }
    let ghost out1 = violations_view(out@);
    collect_ids_list(&s.children, seen, out, Ghost(p1));
    proof {
        assert(p1 =~= prefix + seq![s@]);
        lemma_duplicate_ids_after_append(prefix, seq![s@], flatten_list(s@.children));
        assert(prefix + flatten_sub(s@) =~= p1 + flatten_list(s@.children));
        assert(violations_view(out@) =~= violations_view(old(out)@) + duplicate_ids_after(
            prefix,
            flatten_sub(s@),
        ));
    }
}

fn collect_ids_list(
    subs: &Vec<ManifestSubsystem>,
    seen: &mut Vec<String>,
    out: &mut Vec<ManifestViolation>,
    Ghost(prefix): Ghost<Seq<SubsystemView>>,
)
    requires
        strs(old(seen)@) == ids_of(prefix),
    ensures
        strs(final(seen)@) == ids_of(prefix + flatten_list(subs_view(subs@))),
        violations_view(final(out)@) == violations_view(old(out)@) + duplicate_ids_after(
            prefix,
            flatten_list(subs_view(subs@)),
        ),
    decreases subs@,
{
    let mut i: usize = 0;
    assert(subs_view(subs@.take(0)) =~= Seq::<SubsystemView>::empty());
    assert(prefix + flatten_list(Seq::<SubsystemView>::empty()) =~= prefix);
    while i < subs.len()
        invariant
            i <= subs.len(),
            strs(seen@) == ids_of(prefix + flatten_list(subs_view(subs@.take(i as int)))),
            violations_view(out@) == violations_view(old(out)@) + duplicate_ids_after(
                prefix,
                flatten_list(subs_view(subs@.take(i as int))),
            ),
        decreases subs.len() - i,
    {
        assert(decreases_to!(subs@ => subs@[i as int]));
        let ghost done = flatten_list(subs_view(subs@.take(i as int)));
        collect_ids_node(&subs[i], seen, out, Ghost(prefix + done));
        proof {
            lemma_subs_view_take(subs@, i as int);
            let prefv = subs_view(subs@.take(i as int));
            let next = subs_view(subs@.take(i + 1 as int));
            assert(next.drop_last() =~= prefv);
            assert(next.last() == subs@[i as int]@);
            let here = flatten_sub(subs@[i as int]@);
            assert(flatten_list(next) == done + here);
            assert(prefix + done + here =~= prefix + (done + here));
            lemma_duplicate_ids_after_append(prefix, done, here);
        }
        i += 1;
    }
    assert(subs@.take(subs.len() as int) =~= subs@);
}

pub open spec fn opt_str_view(o: Option<&String>) -> Option<Seq<char>> {
    match o {
        Some(p) => Some(p@),
        None => None,
    }
}

fn domain_known(domains: &Vec<(String, DomainDef)>, key: &String) -> (r: bool)
    ensures
        r == has_domain(domains@, key@),
{
    let mut i: usize = 0;
    while i < domains.len()
        invariant
            i <= domains.len(),
            forall|j: int| 0 <= j < i ==> domains@[j].0@ != key@,
        decreases domains.len() - i,
    {
        if domains[i].0 == *key {
            assert(domains@[i as int].0@ == key@);
            return true;
        }
        i += 1;
    }
    false
}

fn push_dependency_violations(
    id: &String,
    deps: &Vec<String>,
    ids: &Vec<String>,
    out: &mut Vec<ManifestViolation>,
)
    ensures
        violations_view(final(out)@) == violations_view(old(out)@) + dependency_violations(
            id@,
            strs(deps@),
            strs(ids@),
        ),
{
    let mut i: usize = 0;
    while i < deps.len()
        invariant
            i <= deps.len(),
            violations_view(out@) == violations_view(old(out)@) + dependency_violations(
                id@,
                strs(deps@.take(i as int)),
                strs(ids@),
            ),
        decreases deps.len() - i,
    {
        let ghost before = violations_view(out@);
        assert(strs(deps@.take(i + 1 as int)).drop_last() =~= strs(deps@.take(i as int)));
        assert(strs(deps@.take(i + 1 as int)).last() == deps@[i as int]@);
        if !strings_contain(ids, &deps[i]) {
            out.push(
                ManifestViolation {
                    subsystem_id: copy_string(id),
                    field: String::from_str("dependencies"),
                    value: copy_string(&deps[i]),
                    expected: String::from_str("existing subsystem id"),
                },
            );
            assert(violations_view(out@) =~= before.push(violations_view(out@).last()));
        }
        i += 1;
        assert(violations_view(out@) =~= violations_view(old(out)@) + dependency_violations(
            id@,
            strs(deps@.take(i as int)),
            strs(ids@),
        ));
    }
    assert(deps@.take(deps.len() as int) =~= deps@);
}

fn semantics_node(
    s: &ManifestSubsystem,
    domains: &Vec<(String, DomainDef)>,
    ids: &Vec<String>,
    parent: Option<&String>,
    out: &mut Vec<ManifestViolation>,
)
    ensures
        violations_view(final(out)@) == violations_view(old(out)@) + semantic_violations_sub(
            s@,
            domains@,
            strs(ids@),
            opt_str_view(parent),
        ),
    decreases *s,
{
    let ghost o0 = violations_view(out@);
    let ghost sv = s@;
    assert(sv.file_path == s.file_path@ && sv.domain == s.domain@ && sv.id == s.id@);
    assert(sv.dependencies == strs(s.dependencies@));
    if s.file_path.as_str().is_empty() {
        out.push(
            ManifestViolation {
                subsystem_id: copy_string(&s.id),
                field: String::from_str("filePath"),
                value: String::new(),
                expected: String::from_str("non-empty directory path"),
            },
        );
    }
    let ghost o1 = violations_view(out@);
    if domains.len() > 0 && !s.domain.as_str().is_empty() && !domain_known(domains, &s.domain) {
        out.push(
            ManifestViolation {
                subsystem_id: copy_string(&s.id),
                field: String::from_str("domain"),
                value: copy_string(&s.domain),
                expected: String::from_str("existing domain id"),
            },
        );
    }
    let ghost o2 = violations_view(out@);
    match parent {
        Some(p) => {
            if !p.as_str().is_empty() && !s.domain.as_str().is_empty() && s.domain != *p {
                let mut msg = String::from_str("same domain as parent (");
                msg.append(p.as_str());
                msg.append(")");
                out.push(
                    ManifestViolation {
                        subsystem_id: copy_string(&s.id),
                        field: String::from_str("domain"),
                        value: copy_string(&s.domain),
                        expected: msg,
                    },
                );
            }
        },
        None => {},
    }
    let ghost o3 = violations_view(out@);
    push_dependency_violations(&s.id, &s.dependencies, ids, out);
    proof {
        let nv = node_semantic_violations(s@, domains@, strs(ids@), opt_str_view(parent));
        assert(violations_view(out@) =~= o0 + nv);
    }
    let ghost o4 = violations_view(out@);
    semantics_list(&s.children, domains, ids, Some(&s.domain), out);
    proof {
        assert(opt_str_view(Some(&s.domain)) == Some(sv.domain));
        assert(violations_view(out@) =~= violations_view(old(out)@) + semantic_violations_sub(
            s@,
            domains@,
            strs(ids@),
            opt_str_view(parent),
        ));
    }
}

fn semantics_list(
    subs: &Vec<ManifestSubsystem>,
    domains: &Vec<(String, DomainDef)>,
    ids: &Vec<String>,
    parent: Option<&String>,
    out: &mut Vec<ManifestViolation>,
)
    ensures
        violations_view(final(out)@) == violations_view(old(out)@) + semantic_violations_list(
            subs_view(subs@),
            domains@,
            strs(ids@),
            opt_str_view(parent),
        ),
    decreases subs@,
{
    let mut i: usize = 0;
    while i < subs.len()
        invariant
            i <= subs.len(),
            violations_view(out@) == violations_view(old(out)@) + semantic_violations_list(
                subs_view(subs@.take(i as int)),
                domains@,
                strs(ids@),
                opt_str_view(parent),
            ),
        decreases subs.len() - i,
    {
        assert(decreases_to!(subs@ => subs@[i as int]));
        semantics_node(&subs[i], domains, ids, parent, out);
        proof {
            lemma_subs_view_take(subs@, i as int);
            let prefv = subs_view(subs@.take(i as int));
            let next = subs_view(subs@.take(i + 1 as int));
            assert(next.drop_last() =~= prefv);
            assert(next.last() == subs@[i as int]@);
        }
        i += 1;
    }
    assert(subs@.take(subs.len() as int) =~= subs@);
}

fn push_connection_violations(
    conns: &Vec<Connection>,
    ids: &Vec<String>,
    out: &mut Vec<ManifestViolation>,
)
    ensures
        violations_view(final(out)@) == violations_view(old(out)@) + connection_violations(
            conns@,
            strs(ids@),
        ),
{
    let mut i: usize = 0;
    while i < conns.len()
        invariant
            i <= conns.len(),
            violations_view(out@) == violations_view(old(out)@) + connection_violations(
                conns@.take(i as int),
                strs(ids@),
            ),
        decreases conns.len() - i,
    {
        let ghost before = violations_view(out@);
        assert(conns@.take(i + 1 as int).drop_last() =~= conns@.take(i as int));
        let c = &conns[i];
        assert(conns@.take(i + 1 as int).last() == *c);
        let ghost from_v: Seq<ViolationSpec> = if strs(ids@).contains(c.from@) {
            Seq::empty()
        } else {
            seq![violation(c.from@, "connections.from"@, c.from@, "existing subsystem id"@)]
        };
        let ghost to_v: Seq<ViolationSpec> = if strs(ids@).contains(c.to@) {
            Seq::empty()
        } else {
            seq![violation(c.to@, "connections.to"@, c.to@, "existing subsystem id"@)]
        };
        if !strings_contain(ids, &c.from) {
            out.push(
                ManifestViolation {
                    subsystem_id: copy_string(&c.from),
                    field: String::from_str("connections.from"),
                    value: copy_string(&c.from),
                    expected: String::from_str("existing subsystem id"),
                },
            );
        }
        if !strings_contain(ids, &c.to) {
            out.push(
                ManifestViolation {
                    subsystem_id: copy_string(&c.to),
                    field: String::from_str("connections.to"),
                    value: copy_string(&c.to),
                    expected: String::from_str("existing subsystem id"),
                },
            );
        }
        assert(violations_view(out@) =~= before + from_v + to_v);
        i += 1;
        assert(violations_view(out@) =~= violations_view(old(out)@) + connection_violations(
            conns@.take(i as int),
            strs(ids@),
        ));
    }
    assert(conns@.take(conns.len() as int) =~= conns@);
}

/// Validate a full system manifest: the naming rules, then duplicate
/// subsystem ids (each repeat after its first occurrence, depth-first),
/// then per-subsystem integrity (empty file path, unknown domain when
/// domains are declared, domain differing from the parent's, dependencies
/// naming no subsystem), then connection endpoints naming no subsystem.
pub fn validate_system_manifest(system_manifest: &SystemManifest) -> (r: Vec<ManifestViolation>)
    ensures
        violations_view(r@) == system_violations(*system_manifest),
{
    let m = system_manifest.as_manifest();
    let mut out = validate_manifest(&m);
    let ghost flat = flatten_list(subs_view(system_manifest.subsystems@));
    assert(flatten_manifest(m) == flat);
    let mut seen: Vec<String> = Vec::new();
    assert(strs(seen@) =~= ids_of(Seq::<SubsystemView>::empty()));
    collect_ids_list(&system_manifest.subsystems, &mut seen, &mut out, Ghost(Seq::empty()));
    proof {
        lemma_duplicate_ids_from_start(flat);
        assert(Seq::<SubsystemView>::empty() + flat =~= flat);
    }
    semantics_list(&system_manifest.subsystems, &system_manifest.domains, &seen, None, &mut out);
    push_connection_violations(&system_manifest.connections, &seen, &mut out);
    proof {
        assert(violations_view(out@) =~= system_violations(*system_manifest));
    }
    out
}

// ---------------------------------------------------------------------------
// Glob file paths
// ---------------------------------------------------------------------------

/// Whether a path holds a glob metacharacter (`*`, `?`, `[`, `{`).
pub open spec fn spec_is_glob_pattern(p: Seq<char>) -> bool {
    p.contains('*') || p.contains('?') || p.contains('[') || p.contains('{')
}

/// Whether a path string contains glob metacharacters (`*`, `?`, `[`, `{`).
pub fn is_glob_pattern(path: &str) -> (r: bool)
    ensures
        r == spec_is_glob_pattern(path@),
{
    let v = chars_of(path);
    crate::text::contains_char(&v, '*') || crate::text::contains_char(&v, '?')
        || crate::text::contains_char(&v, '[') || crate::text::contains_char(&v, '{')
}

/// The message of an invalid glob pattern.
pub open spec fn glob_message(pattern: Seq<char>, err: Seq<char>) -> Seq<char> {
    "Invalid glob pattern '"@ + pattern + "': "@ + err
}

/// Validate that a glob pattern compiles; otherwise an `InvalidInput`
/// error naming the pattern and the compiler's complaint.
pub fn validate_glob_pattern(pattern: &str) -> (r: Result<(), DomainScanError>)
    ensures
        r is Ok <==> glob_error(pattern@) is None,
        r matches Err(e) ==> e matches DomainScanError::InvalidInput(m) && m@ == glob_message(
            pattern@,
            glob_error(pattern@)->0,
        ),
{
    match glob_check(pattern) {
        Ok(()) => Ok(()),
        Err(e) => {
            let mut m = String::from_str("Invalid glob pattern '");
            m.append(pattern);
            m.append("': ");
            m.append(e.as_str());
            Err(DomainScanError::InvalidInput(m))
        },
    }
}

/// The file paths of these subsystems, in order.
pub open spec fn paths_of(flat: Seq<SubsystemView>) -> Seq<Seq<char>>
    decreases flat.len(),
{
    if flat.len() == 0 {
        Seq::empty()
    } else {
        paths_of(flat.drop_last()).push(flat.last().file_path)
    }
}

pub proof fn lemma_paths_of_append(a: Seq<SubsystemView>, b: Seq<SubsystemView>)
    ensures
        paths_of(a + b) == paths_of(a) + paths_of(b),
    decreases b.len(),
{
    if b.len() == 0 {
        assert(a + b =~= a);
        assert(paths_of(a) + paths_of(b) =~= paths_of(a));
    } else {
        lemma_paths_of_append(a, b.drop_last());
        assert((a + b).drop_last() =~= a + b.drop_last());
        assert(paths_of(a) + paths_of(b) =~= (paths_of(a) + paths_of(b.drop_last())).push(b.last().file_path));
    }
}

/// The file paths `validate_manifest_globs` looks at: that of every
/// subsystem at any depth, in depth-first order.
pub open spec fn glob_checked_paths(subs: Seq<SubsystemView>) -> Seq<Seq<char>> {
    paths_of(flatten_list(subs))
}

/// The first path that is a glob pattern and does not compile.
pub open spec fn first_bad_glob(ps: Seq<Seq<char>>) -> Option<Seq<char>>
    decreases ps.len(),
{
    if ps.len() == 0 {
        None
    } else {
        match first_bad_glob(ps.drop_last()) {
            Some(p) => Some(p),
            None => if spec_is_glob_pattern(ps.last()) && glob_error(ps.last()) is Some {
                Some(ps.last())
            } else {
                None
            },
        }
    }
}

pub proof fn lemma_first_bad_glob_append(a: Seq<Seq<char>>, b: Seq<Seq<char>>)
    requires
        first_bad_glob(a) is None,
    ensures
        first_bad_glob(a + b) == first_bad_glob(b),
    decreases b.len(),
{
    if b.len() == 0 {
        assert(a + b =~= a);
    } else {
        lemma_first_bad_glob_append(a, b.drop_last());
        assert((a + b).drop_last() =~= a + b.drop_last());
    }
}

pub proof fn lemma_first_bad_glob_prefix(a: Seq<Seq<char>>, b: Seq<Seq<char>>)
    requires
        first_bad_glob(a) is Some,
    ensures
        first_bad_glob(a + b) == first_bad_glob(a),
    decreases b.len(),
{
    if b.len() == 0 {
        assert(a + b =~= a);
    } else {
        lemma_first_bad_glob_prefix(a, b.drop_last());
        assert((a + b).drop_last() =~= a + b.drop_last());
    }
}

fn check_path_glob(p: &String) -> (r: Result<(), DomainScanError>)
    ensures
        r is Ok <==> first_bad_glob(seq![p@]) is None,
        r matches Err(e) ==> e matches DomainScanError::InvalidInput(m) && m@ == glob_message(
            p@,
            glob_error(p@)->0,
        ) && first_bad_glob(seq![p@]) == Some(p@),
{
    assert(seq![p@].drop_last() =~= Seq::<Seq<char>>::empty());
    assert(first_bad_glob(Seq::<Seq<char>>::empty()) is None);
    assert(seq![p@].last() == p@);
    if is_glob_pattern(p.as_str()) {
        validate_glob_pattern(p.as_str())
    } else {
        Ok(())
    }
}

/// How a glob check reports on the paths `ps`: success exactly when no
/// path is a glob pattern that fails to compile, else the error of the
/// first such path.
pub open spec fn glob_report(r: Result<(), DomainScanError>, ps: Seq<Seq<char>>) -> bool {
    &&& (r is Ok <==> first_bad_glob(ps) is None)
    &&& (r matches Err(e) ==> e matches DomainScanError::InvalidInput(m) && m@ == glob_message(
        first_bad_glob(ps)->0,
        glob_error(first_bad_glob(ps)->0)->0,
    ))
}

proof fn lemma_glob_report_extend(r: Result<(), DomainScanError>, a: Seq<Seq<char>>, b: Seq<Seq<char>>)
    requires
        first_bad_glob(a) is Some,
        glob_report(r, a),
    ensures
        glob_report(r, a + b),
{
    lemma_first_bad_glob_prefix(a, b);
}

proof fn lemma_glob_report_after(r: Result<(), DomainScanError>, a: Seq<Seq<char>>, b: Seq<Seq<char>>)
    requires
        first_bad_glob(a) is None,
        glob_report(r, b),
    ensures
        glob_report(r, a + b),
{
    lemma_first_bad_glob_append(a, b);
}

fn globs_of_node(s: &ManifestSubsystem) -> (r: Result<(), DomainScanError>)
    ensures
        glob_report(r, paths_of(flatten_sub(s@))),
    decreases *s,
{
    proof {
        lemma_paths_of_append(seq![s@], flatten_list(s@.children));
        assert(seq![s@].drop_last() =~= Seq::<SubsystemView>::empty());
        assert(paths_of(Seq::<SubsystemView>::empty()) =~= Seq::<Seq<char>>::empty());
        assert(s@.file_path == s.file_path@);
        assert(seq![s@].last() == s@);
        assert(paths_of(seq![s@]) =~= seq![s.file_path@]);
    }
    let own = check_path_glob(&s.file_path);
    if own.is_err() {
        proof {
            lemma_glob_report_extend(own, seq![s.file_path@], paths_of(flatten_list(s@.children)));
        }
        return own;
    }
    let rest = globs_of_list(&s.children);
    proof {
        lemma_glob_report_after(rest, seq![s.file_path@], paths_of(flatten_list(s@.children)));
    }
    rest
}

fn globs_of_list(subs: &Vec<ManifestSubsystem>) -> (r: Result<(), DomainScanError>)
    ensures
        glob_report(r, paths_of(flatten_list(subs_view(subs@)))),
    decreases subs@,
{
    let mut res: Result<(), DomainScanError> = Ok(());
    let mut i: usize = 0;
    assert(subs_view(subs@.take(0)) =~= Seq::<SubsystemView>::empty());
    assert(paths_of(flatten_list(Seq::<SubsystemView>::empty())) =~= Seq::<Seq<char>>::empty());
    while i < subs.len()
        invariant
            i <= subs.len(),
            glob_report(res, paths_of(flatten_list(subs_view(subs@.take(i as int))))),
        decreases subs.len() - i,
    {
        let ghost before = flatten_list(subs_view(subs@.take(i as int)));
        proof {
            lemma_subs_view_take(subs@, i as int);
            let next = subs_view(subs@.take(i + 1 as int));
            assert(next.drop_last() =~= subs_view(subs@.take(i as int)));
            assert(next.last() == subs@[i as int]@);
            assert(flatten_list(next) == before + flatten_sub(subs@[i as int]@));
            lemma_paths_of_append(before, flatten_sub(subs@[i as int]@));
        }
        if res.is_ok() {
            assert(decreases_to!(subs@ => subs@[i as int]));
            let r = globs_of_node(&subs[i]);
            proof {
                lemma_glob_report_after(r, paths_of(before), paths_of(flatten_sub(subs@[i as int]@)));
            }
            res = r;
        } else {
            proof {
                lemma_glob_report_extend(res, paths_of(before), paths_of(flatten_sub(subs@[i as int]@)));
            }
        }
        i += 1;
    }
    assert(subs@.take(subs.len() as int) =~= subs@);
    res
}

/// Validate the glob patterns among the file paths of every subsystem, at
/// any depth; the first invalid one, in depth-first order, is reported.
pub fn validate_manifest_globs(manifest: &Manifest) -> (r: Result<(), DomainScanError>)
    ensures
        r is Ok <==> first_bad_glob(glob_checked_paths(subs_view(manifest.subsystems@))) is None,
        r matches Err(e) ==> e matches DomainScanError::InvalidInput(m) && m@ == glob_message(
            first_bad_glob(glob_checked_paths(subs_view(manifest.subsystems@)))->0,
            glob_error(first_bad_glob(glob_checked_paths(subs_view(manifest.subsystems@)))->0)->0,
        ),
{
    globs_of_list(&manifest.subsystems)
}

} // verus!
