//! The intermediate representation of a scanned codebase.
//!
//! Every parsed file becomes an [`IrFile`] holding the interfaces, services,
//! classes, functions, schemas, implementations and type aliases found in
//! it. File paths are kept as strings; their structure is given by
//! [`crate::path`].

use vstd::prelude::*;
use vstd::string::StringExecFns;

verus! {

// ---------------------------------------------------------------------------
// Build status and confidence
// ---------------------------------------------------------------------------

/// Build status of the module a file belongs to.
#[derive(Debug, Clone, Copy, PartialEq, Eq, Hash, Structural)]
pub enum BuildStatus {
    /// Compiles/runs. Source code is truth.
    Built,
    /// Never built or stale artifacts. Source is best guess.
    Unbuilt,
    /// Build fails. Partial truth.
    Error,
    /// Active refactor. Source unreliable.
    Rebuild,
}

/// Confidence level for extracted entities.
#[derive(Debug, Clone, Copy, PartialEq, Eq, Hash, Structural)]
pub enum Confidence {
    High,
    Medium,
    Low,
}

/// The confidence that a build status gives its entities.
pub open spec fn spec_confidence(s: BuildStatus) -> Confidence {
    match s {
        BuildStatus::Built => Confidence::High,
        BuildStatus::Error => Confidence::Medium,
        BuildStatus::Unbuilt | BuildStatus::Rebuild => Confidence::Low,
    }
}

/// The label `Display` gives a build status.
pub open spec fn build_status_label(s: BuildStatus) -> Seq<char> {
    match s {
        BuildStatus::Built => seq!['B', 'u', 'i', 'l', 't'],
        BuildStatus::Unbuilt => seq!['U', 'n', 'b', 'u', 'i', 'l', 't'],
        BuildStatus::Error => seq!['E', 'r', 'r', 'o', 'r'],
        BuildStatus::Rebuild => seq!['R', 'e', 'b', 'u', 'i', 'l', 'd'],
    }
}

/// The label `Display` gives a confidence level.
pub open spec fn confidence_label(c: Confidence) -> Seq<char> {
    match c {
        Confidence::High => seq!['h', 'i', 'g', 'h'],
        Confidence::Medium => seq!['m', 'e', 'd', 'i', 'u', 'm'],
        Confidence::Low => seq!['l', 'o', 'w'],
    }
}

impl BuildStatus {
    /// Derive confidence from build status.
    pub fn confidence(&self) -> (c: Confidence)
        ensures
            c == spec_confidence(*self),
    {
        match self {
            BuildStatus::Built => Confidence::High,
            BuildStatus::Error => Confidence::Medium,
            BuildStatus::Unbuilt | BuildStatus::Rebuild => Confidence::Low,
        }
    }

    /// The display label of this status ("Built", "Unbuilt", ...).
    pub fn to_string(&self) -> (s: String)
        ensures
            s@ == build_status_label(*self),
    {
        match self {
            BuildStatus::Built => {
                let s = String::from_str("Built");
                proof {
                    reveal_strlit("Built");
                }
                s
            },
            BuildStatus::Unbuilt => {
                let s = String::from_str("Unbuilt");
                proof {
                    reveal_strlit("Unbuilt");
                }
                s
            },
            BuildStatus::Error => {
                let s = String::from_str("Error");
                proof {
                    reveal_strlit("Error");
                }
                s
            },
            BuildStatus::Rebuild => {
                let s = String::from_str("Rebuild");
                proof {
                    reveal_strlit("Rebuild");
                }
                s
            },
        }
    }
}

impl Confidence {
    /// The display label of this confidence level ("high", "medium", "low").
    pub fn to_string(&self) -> (s: String)
        ensures
            s@ == confidence_label(*self),
    {
        match self {
            Confidence::High => {
                let s = String::from_str("high");
                proof {
                    reveal_strlit("high");
                }
                s
            },
            Confidence::Medium => {
                let s = String::from_str("medium");
                proof {
                    reveal_strlit("medium");
                }
                s
            },
            Confidence::Low => {
                let s = String::from_str("low");
                proof {
                    reveal_strlit("low");
                }
                s
            },
        }
    }
}

// ---------------------------------------------------------------------------
// Language
// ---------------------------------------------------------------------------

/// Supported programming languages. TypeScript also covers JavaScript.
#[derive(Debug, Clone, Copy, PartialEq, Eq, Hash, Structural)]
pub enum Language {
    TypeScript,
    Python,
    Rust,
    Go,
    Java,
    Kotlin,
    CSharp,
    Swift,
    PHP,
    Ruby,
    Scala,
    Cpp,
}

/// The display name of a language.
pub open spec fn language_name(l: Language) -> Seq<char> {
    match l {
        Language::TypeScript => seq!['T', 'y', 'p', 'e', 'S', 'c', 'r', 'i', 'p', 't'],
        Language::Python => seq!['P', 'y', 't', 'h', 'o', 'n'],
        Language::Rust => seq!['R', 'u', 's', 't'],
        Language::Go => seq!['G', 'o'],
        Language::Java => seq!['J', 'a', 'v', 'a'],
        Language::Kotlin => seq!['K', 'o', 't', 'l', 'i', 'n'],
        Language::CSharp => seq!['C', '#'],
        Language::Swift => seq!['S', 'w', 'i', 'f', 't'],
        Language::PHP => seq!['P', 'H', 'P'],
        Language::Ruby => seq!['R', 'u', 'b', 'y'],
        Language::Scala => seq!['S', 'c', 'a', 'l', 'a'],
        Language::Cpp => seq!['C', '+', '+'],
    }
}

impl Language {
    /// The display name of this language ("TypeScript", "C#", "C++", ...).
    pub fn to_string(&self) -> (s: String)
        ensures
            s@ == language_name(*self),
    {
        match self {
            Language::TypeScript => {
                let s = String::from_str("TypeScript");
                proof {
                    reveal_strlit("TypeScript");
                }
                s
            },
            Language::Python => {
                let s = String::from_str("Python");
                proof {
                    reveal_strlit("Python");
                }
                s
            },
            Language::Rust => {
                let s = String::from_str("Rust");
                proof {
                    reveal_strlit("Rust");
                }
                s
            },
            Language::Go => {
                let s = String::from_str("Go");
                proof {
                    reveal_strlit("Go");
                }
                s
            },
            Language::Java => {
                let s = String::from_str("Java");
                proof {
                    reveal_strlit("Java");
                }
                s
            },
            Language::Kotlin => {
                let s = String::from_str("Kotlin");
                proof {
                    reveal_strlit("Kotlin");
                }
                s
            },
            Language::CSharp => {
                let s = String::from_str("C#");
                proof {
                    reveal_strlit("C#");
                }
                s
            },
            Language::Swift => {
                let s = String::from_str("Swift");
                proof {
                    reveal_strlit("Swift");
                }
                s
            },
            Language::PHP => {
                let s = String::from_str("PHP");
                proof {
                    reveal_strlit("PHP");
                }
                s
            },
            Language::Ruby => {
                let s = String::from_str("Ruby");
                proof {
                    reveal_strlit("Ruby");
                }
                s
            },
            Language::Scala => {
                let s = String::from_str("Scala");
                proof {
                    reveal_strlit("Scala");
                }
                s
            },
            Language::Cpp => {
                let s = String::from_str("C++");
                proof {
                    reveal_strlit("C++");
                }
                s
            },
        }
    }
}

// ---------------------------------------------------------------------------
// Span and visibility
// ---------------------------------------------------------------------------

/// Source location span.
#[derive(Debug, Clone, Copy, PartialEq, Eq, Default)]
pub struct Span {
    pub start_line: u32,
    pub start_col: u32,
    pub end_line: u32,
    pub end_col: u32,
    pub byte_range: (usize, usize),
}

/// Visibility modifier.
#[derive(Debug, Clone, Copy, PartialEq, Eq, Hash, Structural)]
pub enum Visibility {
    Public,
    Private,
    Protected,
    /// C# internal, Kotlin internal.
    Internal,
    /// Rust pub(crate).
    Crate,
    /// Language doesn't have visibility modifiers (Go, Python).
    Unknown,
}

// ---------------------------------------------------------------------------
// Interfaces, services, methods, functions
// ---------------------------------------------------------------------------

/// An interface / trait / protocol definition.
#[derive(Debug, Clone, PartialEq)]
pub struct InterfaceDef {
    pub name: String,
    pub file: String,
    pub span: Span,
    pub visibility: Visibility,
    pub generics: Vec<String>,
    pub extends: Vec<String>,
    pub methods: Vec<MethodSignature>,
    pub properties: Vec<PropertyDef>,
    pub language_kind: InterfaceKind,
    pub decorators: Vec<String>,
}

#[derive(Debug, Clone, Copy, PartialEq, Eq, Hash, Structural)]
pub enum InterfaceKind {
    /// TS/Java/Go/C#/Kotlin/PHP
    Interface,
    /// Rust/Scala/PHP
    Trait,
    /// Swift/Python (typing.Protocol)
    Protocol,
    /// Python ABC, Java abstract class
    AbstractClass,
    /// C++ class with pure virtual methods
    PureVirtual,
    /// Ruby module used as mixin
    Module,
}

/// A service definition (framework-specific).
#[derive(Debug, Clone, PartialEq)]
pub struct ServiceDef {
    pub name: String,
    pub file: String,
    pub span: Span,
    pub kind: ServiceKind,
    pub methods: Vec<MethodDef>,
    pub dependencies: Vec<String>,
    pub decorators: Vec<String>,
    pub routes: Vec<RouteDef>,
}

#[derive(Debug, Clone, PartialEq, Eq, Hash)]
pub enum ServiceKind {
    HttpController,
    GrpcService,
    GraphqlResolver,
    Worker,
    Microservice,
    CliCommand,
    EventHandler,
    Middleware,
    Repository,
    Custom(String),
}

/// A concrete method (with body).
#[derive(Debug, Clone, PartialEq)]
pub struct MethodDef {
    pub name: String,
    pub file: String,
    pub span: Span,
    pub visibility: Visibility,
    pub is_async: bool,
    pub is_static: bool,
    pub is_generator: bool,
    pub parameters: Vec<Parameter>,
    pub return_type: Option<String>,
    pub decorators: Vec<String>,
    /// Class/struct/impl this belongs to.
    pub owner: Option<String>,
    /// Which interface method this implements.
    pub implements: Option<String>,
}

/// A method signature (no body, in interface/trait).
#[derive(Debug, Clone, PartialEq)]
pub struct MethodSignature {
    pub name: String,
    pub span: Span,
    pub is_async: bool,
    pub parameters: Vec<Parameter>,
    pub return_type: Option<String>,
    /// Default impl in trait/interface.
    pub has_default: bool,
}

/// A standalone function (not a method).
#[derive(Debug, Clone, PartialEq)]
pub struct FunctionDef {
    pub name: String,
    pub file: String,
    pub span: Span,
    pub visibility: Visibility,
    pub is_async: bool,
    pub is_generator: bool,
    pub parameters: Vec<Parameter>,
    pub return_type: Option<String>,
    pub decorators: Vec<String>,
}

#[derive(Debug, Clone, PartialEq)]
pub struct Parameter {
    pub name: String,
    pub type_annotation: Option<String>,
    pub is_optional: bool,
    pub has_default: bool,
    /// ...args, *args, variadic
    pub is_rest: bool,
}

// ---------------------------------------------------------------------------
// Classes and implementations
// ---------------------------------------------------------------------------

/// A class / struct definition.
#[derive(Debug, Clone, PartialEq)]
pub struct ClassDef {
    pub name: String,
    pub file: String,
    pub span: Span,
    pub visibility: Visibility,
    pub generics: Vec<String>,
    pub extends: Option<String>,
    pub implements: Vec<String>,
    pub methods: Vec<MethodDef>,
    pub properties: Vec<PropertyDef>,
    pub is_abstract: bool,
    pub decorators: Vec<String>,
}

/// An implementation block (Rust impl, Go method set, Swift extension).
#[derive(Debug, Clone, PartialEq)]
pub struct ImplDef {
    /// The type being implemented.
    pub target: String,
    /// The trait/interface (None = inherent impl).
    pub trait_name: Option<String>,
    pub file: String,
    pub span: Span,
    pub methods: Vec<MethodDef>,
}

/// A property / field definition.
#[derive(Debug, Clone, PartialEq)]
pub struct PropertyDef {
    pub name: String,
    pub type_annotation: Option<String>,
    pub is_optional: bool,
    pub is_readonly: bool,
    pub visibility: Visibility,
}

#[derive(Debug, Clone, PartialEq)]
pub struct RouteDef {
    pub method: HttpMethod,
    pub path: String,
    pub handler: String,
}

#[derive(Debug, Clone, Copy, PartialEq, Eq, Hash, Structural)]
pub enum HttpMethod {
    Get,
    Post,
    Put,
    Patch,
    Delete,
    Head,
    Options,
}

#[derive(Debug, Clone, PartialEq)]
pub struct TypeAlias {
    pub name: String,
    pub file: String,
    pub span: Span,
    /// The type it aliases.
    pub target: String,
    pub generics: Vec<String>,
    pub visibility: Visibility,
}

// ---------------------------------------------------------------------------
// Imports and exports
// ---------------------------------------------------------------------------

#[derive(Debug, Clone, PartialEq)]
pub struct ImportDef {
    /// Module path.
    pub source: String,
    pub symbols: Vec<ImportedSymbol>,
    pub is_wildcard: bool,
    pub span: Span,
}

#[derive(Debug, Clone, PartialEq)]
pub struct ImportedSymbol {
    pub name: String,
    /// import { Foo as Bar } -> alias = Some("Bar")
    pub alias: Option<String>,
    pub is_default: bool,
    pub is_namespace: bool,
}

#[derive(Debug, Clone, PartialEq)]
pub struct ExportDef {
    pub name: String,
    pub kind: ExportKind,
    /// Re-export source.
    pub source: Option<String>,
    pub span: Span,
}

#[derive(Debug, Clone, Copy, PartialEq, Eq, Hash, Structural)]
pub enum ExportKind {
    Named,
    Default,
    ReExport,
}

// ---------------------------------------------------------------------------
// Schemas (runtime type boundaries)
// ---------------------------------------------------------------------------

#[derive(Debug, Clone, PartialEq)]
pub struct SchemaDef {
    pub name: String,
    pub file: String,
    pub span: Span,
    pub kind: SchemaKind,
    pub fields: Vec<SchemaField>,
    /// e.g. "zod", "effect-schema", "pydantic", "drizzle"
    pub source_framework: String,
    /// For DB schema definitions.
    pub table_name: Option<String>,
    /// Rust derives.
    pub derives: Vec<String>,
    pub visibility: Visibility,
}

#[derive(Debug, Clone, Copy, PartialEq, Eq, Hash, Structural)]
pub enum SchemaKind {
    /// Zod, Effect Schema, io-ts, Yup
    ValidationSchema,
    /// Pydantic, SQLAlchemy, TypeORM, Prisma, Drizzle
    OrmModel,
    /// Rust serde structs, Go tagged structs, Java records, Kotlin data classes
    DataTransfer,
    /// Event schema definitions
    DomainEvent,
}

#[derive(Debug, Clone, PartialEq)]
pub struct SchemaField {
    pub name: String,
    pub type_annotation: Option<String>,
    pub is_optional: bool,
    pub is_primary_key: bool,
    pub constraints: Vec<String>,
}

// ---------------------------------------------------------------------------
// IrFile
// ---------------------------------------------------------------------------

/// A parsed file's complete structural census.
#[derive(Debug, Clone, PartialEq)]
pub struct IrFile {
    pub path: String,
    pub language: Language,
    pub content_hash: String,
    pub build_status: BuildStatus,
    pub confidence: Confidence,
    pub interfaces: Vec<InterfaceDef>,
    pub services: Vec<ServiceDef>,
    pub classes: Vec<ClassDef>,
    pub functions: Vec<FunctionDef>,
    pub type_aliases: Vec<TypeAlias>,
    pub imports: Vec<ImportDef>,
    pub exports: Vec<ExportDef>,
    pub implementations: Vec<ImplDef>,
    pub schemas: Vec<SchemaDef>,
}

impl IrFile {
    /// An empty census of a file: the confidence follows the build status
    /// and no entity has been found yet.
    pub fn new(path: String, language: Language, content_hash: String, build_status: BuildStatus) -> (f: Self)
        ensures
            f.path == path,
            f.language == language,
            f.content_hash == content_hash,
            f.build_status == build_status,
            f.confidence == spec_confidence(build_status),
            f.interfaces@.len() == 0,
            f.services@.len() == 0,
            f.classes@.len() == 0,
            f.functions@.len() == 0,
            f.type_aliases@.len() == 0,
            f.imports@.len() == 0,
            f.exports@.len() == 0,
            f.implementations@.len() == 0,
            f.schemas@.len() == 0,
    {
        let confidence = build_status.confidence();
        IrFile {
            path,
            language,
            content_hash,
            build_status,
            confidence,
            interfaces: Vec::new(),
            services: Vec::new(),
            classes: Vec::new(),
            functions: Vec::new(),
            type_aliases: Vec::new(),
            imports: Vec::new(),
            exports: Vec::new(),
            implementations: Vec::new(),
            schemas: Vec::new(),
        }
    }
}

// ---------------------------------------------------------------------------
// Entities
// ---------------------------------------------------------------------------

/// Union type for any extracted entity.
#[derive(Debug, Clone, PartialEq)]
pub enum Entity {
    Interface(InterfaceDef),
    Service(ServiceDef),
    Class(ClassDef),
    Function(FunctionDef),
    Schema(SchemaDef),
    Impl(ImplDef),
    TypeAlias(TypeAlias),
}

/// Lightweight summary for list views.
#[derive(Debug, Clone, PartialEq)]
pub struct EntitySummary {
    pub name: String,
    pub kind: EntityKind,
    pub file: String,
    pub line: u32,
    pub language: Language,
    pub build_status: BuildStatus,
    pub confidence: Confidence,
}

#[derive(Debug, Clone, Copy, PartialEq, Eq, Hash, Structural)]
pub enum EntityKind {
    Interface,
    Service,
    Class,
    Function,
    Schema,
    Impl,
    TypeAlias,
    Method,
}

// ---------------------------------------------------------------------------
// Filter and configuration
// ---------------------------------------------------------------------------

/// Filter parameters for querying the index.
#[derive(Debug, Clone, PartialEq, Default)]
pub struct FilterParams {
    pub languages: Option<Vec<Language>>,
    /// Name substring.
    pub name_pattern: Option<String>,
    pub kind: Option<Vec<EntityKind>>,
    pub build_status: Option<BuildStatus>,
    pub visibility: Option<Visibility>,
}

/// Scan configuration (from `.domain-scan.toml` or CLI flags).
#[derive(Debug, Clone, PartialEq)]
pub struct ScanConfig {
    pub root: String,
    /// Glob patterns a file must match to be scanned (empty: any file).
    pub inclusion: Vec<String>,
    /// Glob patterns that keep a file out of the scan.
    pub exclusion: Vec<String>,
    /// Empty = all languages.
    pub languages: Vec<Language>,
    pub build_status_override: Option<BuildStatus>,
    pub cache_enabled: bool,
    pub cache_dir: String,
}

/// The name of the cache directory created under a scan root.
pub open spec fn cache_dir_name() -> Seq<char> {
    seq!['.', 'd', 'o', 'm', 'a', 'i', 'n', '-', 's', 'c', 'a', 'n', '-', 'c', 'a', 'c', 'h', 'e']
}

impl ScanConfig {
    /// The default configuration for a root: every file taken, all
    /// languages, caching on, cache under `<root>/.domain-scan-cache`.
    pub fn new(root: String) -> (c: Self)
        ensures
            c.root == root,
            c.inclusion@.len() == 0,
            c.exclusion@.len() == 0,
            c.languages@.len() == 0,
            c.build_status_override is None,
            c.cache_enabled,
            c.cache_dir@ == crate::path::join(root@, cache_dir_name()),
    {
        let name = ".domain-scan-cache";
        proof {
            reveal_strlit(".domain-scan-cache");
        }
        let cache_dir = crate::path::path_join(root.as_str(), name);
        ScanConfig {
            root,
            inclusion: Vec::new(),
            exclusion: Vec::new(),
            languages: Vec::new(),
            build_status_override: None,
            cache_enabled: true,
            cache_dir,
        }
    }
}

// ---------------------------------------------------------------------------
// Validation
// ---------------------------------------------------------------------------

/// Result of `domain-scan validate`.
#[derive(Debug, Clone, PartialEq)]
pub struct ValidationResult {
    pub violations: Vec<Violation>,
    pub rules_checked: usize,
    pub pass_count: usize,
    pub warn_count: usize,
    pub fail_count: usize,
}

#[derive(Debug, Clone, PartialEq)]
pub struct Violation {
    pub rule: String,
    pub severity: ViolationSeverity,
    pub message: String,
    pub entity_name: Option<String>,
    pub file: Option<String>,
    pub line: Option<u32>,
}

#[derive(Debug, Clone, Copy, PartialEq, Eq, Hash, Structural)]
pub enum ViolationSeverity {
    Warn,
    Fail,
}

// ---------------------------------------------------------------------------
// Scan index and statistics
// ---------------------------------------------------------------------------

/// The complete scan result.
#[derive(Debug, Clone, PartialEq)]
pub struct ScanIndex {
    pub root: String,
    pub version: String,
    /// RFC 3339 time stamp of the scan.
    pub scanned_at: String,
    pub files: Vec<IrFile>,
    pub stats: ScanStats,
}

impl ScanIndex {
    /// An index of a root holding no files yet.
    pub fn new(root: String, version: String, scanned_at: String) -> (ix: Self)
        ensures
            ix.root == root,
            ix.version == version,
            ix.scanned_at == scanned_at,
            ix.files@.len() == 0,
            ix.stats.is_zero(),
    {
        ScanIndex { root, version, scanned_at, files: Vec::new(), stats: ScanStats::empty() }
    }
}

/// Scan statistics. `files_by_language` holds one entry per language seen,
/// in the order the languages were first met.
#[derive(Debug, Clone, PartialEq, Default)]
pub struct ScanStats {
    pub total_files: usize,
    pub files_by_language: Vec<(Language, usize)>,
    pub total_interfaces: usize,
    pub total_services: usize,
    pub total_classes: usize,
    pub total_methods: usize,
    pub total_functions: usize,
    pub total_schemas: usize,
    pub total_type_aliases: usize,
    pub total_implementations: usize,
    pub parse_duration_ms: u64,
    pub cache_hits: usize,
    pub cache_misses: usize,
}

impl ScanStats {
    /// Every counter zero and no language seen.
    pub open spec fn is_zero(self) -> bool {
        &&& self.total_files == 0
        &&& self.files_by_language@.len() == 0
        &&& self.total_interfaces == 0
        &&& self.total_services == 0
        &&& self.total_classes == 0
        &&& self.total_methods == 0
        &&& self.total_functions == 0
        &&& self.total_schemas == 0
        &&& self.total_type_aliases == 0
        &&& self.total_implementations == 0
        &&& self.parse_duration_ms == 0
        &&& self.cache_hits == 0
        &&& self.cache_misses == 0
    }

    /// All counters zero, no languages.
    pub fn empty() -> (s: Self)
        ensures
            s.is_zero(),
    {
        ScanStats {
            total_files: 0,
            files_by_language: Vec::new(),
            total_interfaces: 0,
            total_services: 0,
            total_classes: 0,
            total_methods: 0,
            total_functions: 0,
            total_schemas: 0,
            total_type_aliases: 0,
            total_implementations: 0,
            parse_duration_ms: 0,
            cache_hits: 0,
            cache_misses: 0,
        }
    }
}

// ---------------------------------------------------------------------------
// Manifest matching results
// ---------------------------------------------------------------------------

/// Result of matching entities against a manifest. The coverage percentage
/// is `matched.len() / total_entities` (100 when there are no entities).
#[derive(Debug, Clone, PartialEq)]
pub struct MatchResult {
    pub matched: Vec<MatchedEntity>,
    pub unmatched: Vec<UnmatchedEntity>,
    pub total_entities: usize,
}

#[derive(Debug, Clone, PartialEq)]
pub struct MatchedEntity {
    pub entity: EntitySummary,
    pub subsystem_id: String,
    pub subsystem_name: String,
    pub match_strategy: MatchStrategy,
}

#[derive(Debug, Clone, Copy, PartialEq, Eq, Hash, Structural)]
pub enum MatchStrategy {
    /// Entity file falls under subsystem filePath.
    FilePath,
    /// Entity imports from subsystem's files.
    ImportGraph,
    /// Entity name matches subsystem's interfaces/operations/tables/events.
    NameMatch,
}

#[derive(Debug, Clone, PartialEq)]
pub struct UnmatchedEntity {
    pub entity: EntitySummary,
    /// Best-guess subsystem IDs.
    pub candidate_subsystems: Vec<String>,
}

} // verus!
