//! The `.domain-scan.toml` configuration: its structure, defaults, the
//! compiled glob filter and the conversion into a scan configuration.

use vstd::prelude::*;
use crate::glob::{glob_check, glob_error, glob_match};
use crate::ir::{cache_dir_name, BuildStatus, Language, ScanConfig};
use crate::path::{components, components_of, comps_view, join, path_join, push_text_chars, render, render_range, Comp, PathComponent};
use crate::text::{chars_of, copy_string, lowercase, str_eq, string_of, strs, to_lowercase};
use crate::DomainScanError;
use crate::error::ErrorSpec;

verus! {

// ---------------------------------------------------------------------------
// Structure and defaults
// ---------------------------------------------------------------------------

/// The on-disk configuration file.
#[derive(Debug, Clone, PartialEq)]
pub struct ConfigFile {
    pub project: ProjectSection,
    pub scan: ScanSection,
    pub cache: CacheSection,
    pub services: ServicesSection,
    pub output: OutputSection,
}

#[derive(Debug, Clone, PartialEq)]
pub struct ProjectSection {
    pub name: Option<String>,
    /// Scan root, relative to the configuration file's directory.
    pub root: Option<String>,
}

#[derive(Debug, Clone, PartialEq)]
pub struct ScanSection {
    /// Glob patterns a file must match to be scanned (empty: every file).
    pub inclusion: Vec<String>,
    /// Glob patterns that keep a file out of the scan.
    pub exclusion: Vec<String>,
    /// Language filter (empty: every detected language).
    pub languages: Vec<String>,
    /// Follow symbolic links during the walk.
    pub follow_symlinks: bool,
}

#[derive(Debug, Clone, PartialEq)]
pub struct CacheSection {
    pub enabled: bool,
    /// Cache directory, relative to the project root.
    pub dir: String,
    /// Maximum cache size in MB.
    pub max_size_mb: u64,
}

#[derive(Debug, Clone, PartialEq)]
pub struct ServicesSection {
    /// Custom service detection patterns.
    pub custom: Vec<CustomServiceDef>,
}

/// A user-defined service detection pattern.
#[derive(Debug, Clone, PartialEq)]
pub struct CustomServiceDef {
    pub name: String,
    /// File glob pattern.
    pub pattern: String,
    /// Required decorator or annotation.
    pub decorator: Option<String>,
    /// Required trait implementation.
    pub trait_name: Option<String>,
    /// Service kind.
    pub kind: String,
}

#[derive(Debug, Clone, PartialEq)]
pub struct OutputSection {
    /// Default output format: json | table | compact.
    pub default_format: String,
    /// Show full file paths or relative ones.
    pub show_file_paths: bool,
    /// Sort results by: name | file | kind | methods.
    pub sort_by: String,
}

/// The default of boolean settings that are on unless turned off.
pub fn default_true() -> (r: bool)
    ensures
        r,
{
    true
}

/// The default cache directory.
pub fn default_cache_dir() -> (r: String)
    ensures
        r@ == ".domain-scan/cache"@,
{
    string_of(&chars_of(".domain-scan/cache"))
}

/// The default cache size limit, in MB.
pub fn default_max_size_mb() -> (r: u64)
    ensures
        r == 100,
{
    100
}

/// The default kind of a custom service.
pub fn default_custom_kind() -> (r: String)
    ensures
        r@ == "custom"@,
{
    string_of(&chars_of("custom"))
}

/// The default output format.
pub fn default_output_format() -> (r: String)
    ensures
        r@ == "table"@,
{
    string_of(&chars_of("table"))
}

/// The default sort key.
pub fn default_sort_by() -> (r: String)
    ensures
        r@ == "name"@,
{
    string_of(&chars_of("name"))
}

impl Default for ProjectSection {
    fn default() -> (s: Self)
        ensures
            s.name is None,
            s.root is None,
    {
        ProjectSection { name: None, root: None }
    }
}

impl Default for ScanSection {
    fn default() -> (s: Self)
        ensures
            s.inclusion@.len() == 0,
            s.exclusion@.len() == 0,
            s.languages@.len() == 0,
            !s.follow_symlinks,
    {
        ScanSection { inclusion: Vec::new(), exclusion: Vec::new(), languages: Vec::new(), follow_symlinks: false }
    }
}

impl Default for CacheSection {
    fn default() -> (s: Self)
        ensures
            s.enabled,
            s.dir@ == ".domain-scan/cache"@,
            s.max_size_mb == 100,
    {
        CacheSection { enabled: default_true(), dir: default_cache_dir(), max_size_mb: default_max_size_mb() }
    }
}

impl Default for ServicesSection {
    fn default() -> (s: Self)
        ensures
            s.custom@.len() == 0,
    {
        ServicesSection { custom: Vec::new() }
    }
}

impl Default for OutputSection {
    fn default() -> (s: Self)
        ensures
            s.default_format@ == "table"@,
            s.show_file_paths,
            s.sort_by@ == "name"@,
    {
        OutputSection { default_format: default_output_format(), show_file_paths: true, sort_by: default_sort_by() }
    }
}

impl Default for ConfigFile {
    fn default() -> (c: Self)
        ensures
            c.project.name is None,
            c.project.root is None,
            c.scan.inclusion@.len() == 0,
            c.scan.exclusion@.len() == 0,
            c.scan.languages@.len() == 0,
            !c.scan.follow_symlinks,
            c.cache.enabled,
            c.cache.dir@ == ".domain-scan/cache"@,
            c.cache.max_size_mb == 100,
            c.services.custom@.len() == 0,
            c.output.default_format@ == "table"@,
            c.output.show_file_paths,
            c.output.sort_by@ == "name"@,
    {
        ConfigFile {
            project: ProjectSection::default(),
            scan: ScanSection::default(),
            cache: CacheSection::default(),
            services: ServicesSection::default(),
            output: OutputSection::default(),
        }
    }
}

// ---------------------------------------------------------------------------
// Languages
// ---------------------------------------------------------------------------

/// The language a (lowercased) name stands for.
pub open spec fn language_of_name(s: Seq<char>) -> Option<Language> {
    if s == "typescript"@ || s == "ts"@ {
        Some(Language::TypeScript)
    } else if s == "python"@ || s == "py"@ {
        Some(Language::Python)
    } else if s == "rust"@ || s == "rs"@ {
        Some(Language::Rust)
    } else if s == "go"@ || s == "golang"@ {
        Some(Language::Go)
    } else if s == "java"@ {
        Some(Language::Java)
    } else if s == "kotlin"@ || s == "kt"@ {
        Some(Language::Kotlin)
    } else if s == "csharp"@ || s == "c#"@ || s == "cs"@ {
        Some(Language::CSharp)
    } else if s == "swift"@ {
        Some(Language::Swift)
    } else if s == "php"@ {
        Some(Language::PHP)
    } else if s == "ruby"@ || s == "rb"@ {
        Some(Language::Ruby)
    } else if s == "scala"@ {
        Some(Language::Scala)
    } else if s == "cpp"@ || s == "c++"@ || s == "cxx"@ {
        Some(Language::Cpp)
    } else {
        None
    }
}

/// ASCII lower-casing of a text: capital letters become small ones, every
/// other character stays.
pub open spec fn ascii_lowered(s: Seq<char>) -> Seq<char> {
    s.map_values(|c: char| if 'A' <= c && c <= 'Z' { ((c as u32) + 32) as char } else { c })
}

/// A language's display name, lower-cased, names that language.
pub proof fn lemma_display_name_parses(l: Language)
    ensures
        language_of_name(ascii_lowered(crate::ir::language_name(l))) == Some(l),
{
    reveal_strlit("typescript");
    reveal_strlit("ts");
    reveal_strlit("python");
    reveal_strlit("py");
    reveal_strlit("rust");
    reveal_strlit("rs");
    reveal_strlit("go");
    reveal_strlit("golang");
    reveal_strlit("java");
    reveal_strlit("kotlin");
    reveal_strlit("kt");
    reveal_strlit("csharp");
    reveal_strlit("c#");
    reveal_strlit("cs");
    reveal_strlit("swift");
    reveal_strlit("php");
    reveal_strlit("ruby");
    reveal_strlit("rb");
    reveal_strlit("scala");
    reveal_strlit("cpp");
    reveal_strlit("c++");
    reveal_strlit("cxx");
    match l {
        Language::TypeScript => {
            assert(ascii_lowered(crate::ir::language_name(l)) =~= seq!['t', 'y', 'p', 'e', 's', 'c', 'r', 'i', 'p', 't']);
            assert("typescript"@ =~= seq!['t', 'y', 'p', 'e', 's', 'c', 'r', 'i', 'p', 't']);
            assert(language_of_name(seq!['t', 'y', 'p', 'e', 's', 'c', 'r', 'i', 'p', 't']) == Some(l));
        },
        Language::Python => {
            assert(ascii_lowered(crate::ir::language_name(l)) =~= seq!['p', 'y', 't', 'h', 'o', 'n']);
            assert("python"@ =~= seq!['p', 'y', 't', 'h', 'o', 'n']);
            assert(language_of_name(seq!['p', 'y', 't', 'h', 'o', 'n']) == Some(l));
        },
        Language::Rust => {
            assert(ascii_lowered(crate::ir::language_name(l)) =~= seq!['r', 'u', 's', 't']);
            assert("rust"@ =~= seq!['r', 'u', 's', 't']);
            assert(language_of_name(seq!['r', 'u', 's', 't']) == Some(l));
        },
        Language::Go => {
            assert(ascii_lowered(crate::ir::language_name(l)) =~= seq!['g', 'o']);
            assert("go"@ =~= seq!['g', 'o']);
            assert(language_of_name(seq!['g', 'o']) == Some(l));
        },
        Language::Java => {
            assert(ascii_lowered(crate::ir::language_name(l)) =~= seq!['j', 'a', 'v', 'a']);
            assert("java"@ =~= seq!['j', 'a', 'v', 'a']);
            assert(language_of_name(seq!['j', 'a', 'v', 'a']) == Some(l));
        },
        Language::Kotlin => {
            assert(ascii_lowered(crate::ir::language_name(l)) =~= seq!['k', 'o', 't', 'l', 'i', 'n']);
            assert("kotlin"@ =~= seq!['k', 'o', 't', 'l', 'i', 'n']);
            assert(language_of_name(seq!['k', 'o', 't', 'l', 'i', 'n']) == Some(l));
        },
        Language::CSharp => {
            assert(ascii_lowered(crate::ir::language_name(l)) =~= seq!['c', '#']);
            assert("c#"@ =~= seq!['c', '#']);
            assert(language_of_name(seq!['c', '#']) == Some(l));
        },
        Language::Swift => {
            assert(ascii_lowered(crate::ir::language_name(l)) =~= seq!['s', 'w', 'i', 'f', 't']);
            assert("swift"@ =~= seq!['s', 'w', 'i', 'f', 't']);
            assert(language_of_name(seq!['s', 'w', 'i', 'f', 't']) == Some(l));
        },
        Language::PHP => {
            assert(ascii_lowered(crate::ir::language_name(l)) =~= seq!['p', 'h', 'p']);
            assert("php"@ =~= seq!['p', 'h', 'p']);
            assert(language_of_name(seq!['p', 'h', 'p']) == Some(l));
        },
        Language::Ruby => {
            assert(ascii_lowered(crate::ir::language_name(l)) =~= seq!['r', 'u', 'b', 'y']);
            assert("ruby"@ =~= seq!['r', 'u', 'b', 'y']);
            assert(language_of_name(seq!['r', 'u', 'b', 'y']) == Some(l));
        },
        Language::Scala => {
            assert(ascii_lowered(crate::ir::language_name(l)) =~= seq!['s', 'c', 'a', 'l', 'a']);
            assert("scala"@ =~= seq!['s', 'c', 'a', 'l', 'a']);
            assert(language_of_name(seq!['s', 'c', 'a', 'l', 'a']) == Some(l));
        },
        Language::Cpp => {
            assert(ascii_lowered(crate::ir::language_name(l)) =~= seq!['c', '+', '+']);
            assert("c++"@ =~= seq!['c', '+', '+']);
            assert(language_of_name(seq!['c', '+', '+']) == Some(l));
        },
    }
}

/// Parses a language name, ignoring case.
pub fn parse_language(s: &str) -> (r: Option<Language>)
    ensures
        r == language_of_name(lowercase(s@)),
{
    let l = to_lowercase(s);
    let t = l.as_str();
    if str_eq(t, "typescript") || str_eq(t, "ts") {
        Some(Language::TypeScript)
    } else if str_eq(t, "python") || str_eq(t, "py") {
        Some(Language::Python)
    } else if str_eq(t, "rust") || str_eq(t, "rs") {
        Some(Language::Rust)
    } else if str_eq(t, "go") || str_eq(t, "golang") {
        Some(Language::Go)
    } else if str_eq(t, "java") {
        Some(Language::Java)
    } else if str_eq(t, "kotlin") || str_eq(t, "kt") {
        Some(Language::Kotlin)
    } else if str_eq(t, "csharp") || str_eq(t, "c#") || str_eq(t, "cs") {
        Some(Language::CSharp)
    } else if str_eq(t, "swift") {
        Some(Language::Swift)
    } else if str_eq(t, "php") {
        Some(Language::PHP)
    } else if str_eq(t, "ruby") || str_eq(t, "rb") {
        Some(Language::Ruby)
    } else if str_eq(t, "scala") {
        Some(Language::Scala)
    } else if str_eq(t, "cpp") || str_eq(t, "c++") || str_eq(t, "cxx") {
        Some(Language::Cpp)
    } else {
        None
    }
}

/// The languages named in a list, in order, unknown names skipped.
pub open spec fn languages_of(names: Seq<Seq<char>>) -> Seq<Language>
    decreases names.len(),
{
    if names.len() == 0 {
        Seq::empty()
    } else {
        match language_of_name(lowercase(names.last())) {
            Some(l) => languages_of(names.drop_last()).push(l),
            None => languages_of(names.drop_last()),
        }
    }
}

// ---------------------------------------------------------------------------
// Scan configuration
// ---------------------------------------------------------------------------

/// Converts a configuration file into a scan configuration, resolving the
/// root against the configuration file's directory and the cache
/// directory against the root.
pub fn config_to_scan_config(config: &ConfigFile, config_dir: &str) -> (r: Result<ScanConfig, DomainScanError>)
    ensures
        r matches Ok(c) && ({
            let root = match config.project.root {
                Some(p) => join(config_dir@, p@),
                None => config_dir@,
            };
            &&& c.root@ == root
            &&& strs(c.inclusion@) == strs(config.scan.inclusion@)
            &&& strs(c.exclusion@) == strs(config.scan.exclusion@)
            &&& c.languages@ == languages_of(strs(config.scan.languages@))
            &&& c.build_status_override is None
            &&& c.cache_enabled == config.cache.enabled
            &&& c.cache_dir@ == join(root, config.cache.dir@)
        }),
{
    let root = match &config.project.root {
        Some(r) => path_join(config_dir, r.as_str()),
        None => string_of(&chars_of(config_dir)),
    };
    let names = &config.scan.languages;
    let mut languages: Vec<Language> = Vec::new();
    let mut i: usize = 0;
    while i < names.len()
        invariant
            i <= names.len(),
            languages@ == languages_of(strs(names@).take(i as int)),
        decreases names.len() - i,
    {
        assert(strs(names@).take(i + 1 as int).drop_last() =~= strs(names@).take(i as int));
        assert(strs(names@).take(i + 1 as int).last() == names@[i as int]@);
        match parse_language(names[i].as_str()) {
            Some(l) => languages.push(l),
            None => {},
        }
        i += 1;
    }
    assert(strs(names@).take(names.len() as int) =~= strs(names@));
    let cache_dir = path_join(root.as_str(), config.cache.dir.as_str());
    Ok(ScanConfig {
        root,
        inclusion: crate::manifest::copy_strings(&config.scan.inclusion),
        exclusion: crate::manifest::copy_strings(&config.scan.exclusion),
        languages,
        build_status_override: None,
        cache_enabled: config.cache.enabled,
        cache_dir,
    })
}

// ---------------------------------------------------------------------------
// Glob filter
// ---------------------------------------------------------------------------

#[verifier::external_type_specification]
#[verifier::external_body]
pub struct ExGlobSet(globset::GlobSet);

/// The patterns a compiled glob set was built from, in order.
pub uninterp spec fn globset_patterns(set: globset::GlobSet) -> Seq<Seq<char>>;

/// What `globset::GlobSetBuilder::build` reports for valid patterns:
/// `None` when the set compiles, otherwise its error's text.
pub uninterp spec fn globset_error(patterns: Seq<Seq<char>>) -> Option<Seq<char>>;

/// Builds a `globset::GlobSet` from patterns that each compile as a glob
/// (`GlobSetBuilder::add` of each `Glob::new(p)`, then `build`). Claims
/// that a built set holds exactly the given patterns and that failure and
/// its text are a function of the patterns.
#[verifier::external_body]
fn build_globset(patterns: &Vec<String>) -> (r: Result<globset::GlobSet, String>)
    requires
        forall|k: int| 0 <= k < patterns@.len() ==> glob_error(#[trigger] patterns@[k]@) is None,
    ensures
        r matches Ok(set) ==> globset_patterns(set) == strs(patterns@),
        r is Err <==> globset_error(strs(patterns@)) is Some,
        r matches Err(e) ==> globset_error(strs(patterns@)) == Some(e@),
{
    let mut builder = globset::GlobSetBuilder::new();
    for p in patterns {
        if let Ok(g) = globset::Glob::new(p) {
            builder.add(g);
        }
    }
    builder.build().map_err(|e| e.to_string())
}

/// Some pattern of `ps` matches `path`.
pub open spec fn any_glob_matches(ps: Seq<Seq<char>>, path: Seq<char>) -> bool {
    exists|k: int| 0 <= k < ps.len() && glob_match(#[trigger] ps[k], path)
}

/// `globset::GlobSet::is_match`, which the crate documents as true when
/// any glob of the set matches the path.
#[verifier::external_body]
fn globset_is_match(globs: &globset::GlobSet, path: &str) -> (r: bool)
    ensures
        r == any_glob_matches(globset_patterns(*globs), path@),
{
    globs.is_match(std::path::Path::new(path))
}

/// Compiled inclusion and exclusion patterns.
pub struct GlobFilter {
    inclusion: Option<globset::GlobSet>,
    exclusion: Option<globset::GlobSet>,
}

/// The patterns of an optional set (none: no set).
pub open spec fn set_patterns(s: Option<globset::GlobSet>) -> Option<Seq<Seq<char>>> {
    match s {
        Some(set) => Some(globset_patterns(set)),
        None => None,
    }
}

/// The first pattern of a list that does not compile, with its error.
pub open spec fn first_invalid(ps: Seq<Seq<char>>) -> Option<(Seq<char>, Seq<char>)>
    decreases ps.len(),
{
    if ps.len() == 0 {
        None
    } else {
        match first_invalid(ps.drop_last()) {
            Some(x) => Some(x),
            None => match glob_error(ps.last()) {
                Some(e) => Some((ps.last(), e)),
                None => None,
            },
        }
    }
}

/// Compiling one pattern list: none when empty; otherwise the first
/// invalid pattern's error, then the set's build error, else the set.
pub open spec fn compile_outcome(ps: Seq<Seq<char>>, what: Seq<char>) -> Result<Option<Seq<Seq<char>>>, Seq<char>> {
    if ps.len() == 0 {
        Ok(None)
    } else {
        match first_invalid(ps) {
            Some((p, e)) => Err("invalid "@ + what + " glob '"@ + p + "': "@ + e),
            None => match globset_error(ps) {
                Some(e) => Err("failed to compile "@ + what + " globs: "@ + e),
                None => Ok(Some(ps)),
            },
        }
    }
}

proof fn lemma_first_invalid_prefix(ps: Seq<Seq<char>>, i: int)
    requires
        0 <= i < ps.len(),
        first_invalid(ps.take(i)) is None,
    ensures
        glob_error(ps[i]) is None ==> first_invalid(ps.take(i + 1)) is None,
        glob_error(ps[i]) matches Some(e) ==> first_invalid(ps) == Some((ps[i], e)),
{
    assert(ps.take(i + 1).drop_last() =~= ps.take(i));
    if glob_error(ps[i]) is Some {
        lemma_first_invalid_extend(ps, i + 1);
    }
}

proof fn lemma_first_invalid_extend(ps: Seq<Seq<char>>, n: int)
    requires
        0 <= n <= ps.len(),
        first_invalid(ps.take(n)) is Some,
    ensures
        first_invalid(ps) == first_invalid(ps.take(n)),
    decreases ps.len() - n,
{
    if n < ps.len() {
        assert(ps.take(n + 1).drop_last() =~= ps.take(n));
        lemma_first_invalid_extend(ps, n + 1);
    } else {
        assert(ps.take(n) =~= ps);
    }
}

fn compile_patterns(patterns: &Vec<String>, what: &str) -> (r: Result<Option<globset::GlobSet>, String>)
    ensures
        match compile_outcome(strs(patterns@), what@) {
            Ok(o) => r matches Ok(s) && set_patterns(s) == o,
            Err(m) => r matches Err(e) && e@ == m,
        },
{
    if patterns.len() == 0 {
        return Ok(None);
    }
    let ghost pv = strs(patterns@);
    let mut i: usize = 0;
    while i < patterns.len()
        invariant
            i <= patterns.len(),
            pv == strs(patterns@),
            patterns@.len() > 0,
            first_invalid(pv.take(i as int)) is None,
            forall|k: int| 0 <= k < i ==> glob_error(#[trigger] patterns@[k]@) is None,
        decreases patterns.len() - i,
    {
        proof {
            assert(pv[i as int] == patterns@[i as int]@);
            lemma_first_invalid_prefix(pv, i as int);
        }
        match glob_check(patterns[i].as_str()) {
            Ok(()) => {},
            Err(e) => {
                let mut m = string_of(&chars_of("invalid "));
                crate::text::append_str(&mut m, what);
                crate::text::append_str(&mut m, " glob '");
                crate::text::append_str(&mut m, patterns[i].as_str());
                crate::text::append_str(&mut m, "': ");
                crate::text::append_str(&mut m, e.as_str());
                return Err(m);
            },
        }
        i += 1;
    }
    assert(pv.take(patterns.len() as int) =~= pv);
    match build_globset(patterns) {
        Ok(set) => Ok(Some(set)),
        Err(e) => {
            let mut m = string_of(&chars_of("failed to compile "));
            crate::text::append_str(&mut m, what);
            crate::text::append_str(&mut m, " globs: ");
            crate::text::append_str(&mut m, e.as_str());
            Err(m)
        },
    }
}

impl GlobFilter {
    /// The inclusion patterns in force (none: every path passes them).
    pub closed spec fn inclusion_patterns(self) -> Option<Seq<Seq<char>>> {
        set_patterns(self.inclusion)
    }

    /// The exclusion patterns in force (none: no path is excluded).
    pub closed spec fn exclusion_patterns(self) -> Option<Seq<Seq<char>>> {
        set_patterns(self.exclusion)
    }

    /// Builds a filter from inclusion and exclusion pattern lists; an empty
    /// list imposes nothing. An invalid pattern, or a set that does not
    /// compile, is a `Config` error (inclusion patterns checked first).
    pub fn new(inclusion: &Vec<String>, exclusion: &Vec<String>) -> (r: Result<Self, DomainScanError>)
        ensures
            match (compile_outcome(strs(inclusion@), "include"@), compile_outcome(strs(exclusion@), "exclude"@)) {
                (Err(m), _) => r matches Err(e) && e@ == ErrorSpec::Config(m),
                (Ok(_), Err(m)) => r matches Err(e) && e@ == ErrorSpec::Config(m),
                (Ok(i), Ok(x)) => r matches Ok(f) && f.inclusion_patterns() == i && f.exclusion_patterns() == x,
            },
    {
        let inc = match compile_patterns(inclusion, "include") {
            Ok(s) => s,
            Err(m) => {
                return Err(DomainScanError::Config(m));
            },
        };
        let exc = match compile_patterns(exclusion, "exclude") {
            Ok(s) => s,
            Err(m) => {
                return Err(DomainScanError::Config(m));
            },
        };
        Ok(GlobFilter { inclusion: inc, exclusion: exc })
    }

    /// Whether a path is kept: it matches some inclusion pattern (if there
    /// are any) and no exclusion pattern.
    pub fn is_included(&self, path: &str) -> (r: bool)
        ensures
            r == ((match self.inclusion_patterns() {
                None => true,
                Some(ps) => any_glob_matches(ps, path@),
            }) && (match self.exclusion_patterns() {
                None => true,
                Some(ps) => !any_glob_matches(ps, path@),
            })),
    {
        match &self.inclusion {
            Some(set) => {
                if !globset_is_match(set, path) {
                    return false;
                }
            },
            None => {},
        }
        match &self.exclusion {
            Some(set) => {
                if globset_is_match(set, path) {
                    return false;
                }
            },
            None => {},
        }
        true
    }
}


/// The name of the configuration file.
pub fn config_file_name() -> (r: String)
    ensures
        r@ == ".domain-scan.toml"@,
{
    string_of(&chars_of(".domain-scan.toml"))
}

/// How many leading components the farthest ancestor keeps: the root of an
/// absolute path has no parent, the empty path ends a relative one.
pub open spec fn ancestor_floor(cs: Seq<Comp>) -> int {
    if cs.len() > 0 && cs[0] is Root {
        1
    } else {
        0
    }
}

/// Where the configuration file is looked for, nearest first: in `start`,
/// then in each ancestor (`start` with its last component dropped, again and
/// again, as `PathBuf::pop` walks up), down to the root of an absolute path
/// or the empty path of a relative one.
pub open spec fn config_search_paths(start: Seq<char>) -> Seq<Seq<char>> {
    let cs = components(start);
    Seq::new(
        (cs.len() - ancestor_floor(cs) + 1) as nat,
        |i: int| join(render(cs.take(cs.len() - i)), ".domain-scan.toml"@),
    )
}

/// The candidate configuration files for `start_dir`, nearest first; the
/// first of them that is a file is the configuration that applies.
pub fn config_candidates(start_dir: &str) -> (r: Vec<String>)
    ensures
        r@.len() == config_search_paths(start_dir@).len(),
        forall|i: int| 0 <= i < r@.len() ==> #[trigger] r@[i]@ == config_search_paths(start_dir@)[i],
{
    let cs = components_of(&chars_of(start_dir));
    let n = cs.len();
    let ghost cv = comps_view(cs@);
    let floor: usize = if n > 0 {
        match &cs[0] {
            PathComponent::Root => 1,
            _ => 0,
        }
    } else {
        0
    };
    assert(floor == ancestor_floor(cv));
    let name = config_file_name();
    let name_chars = chars_of(name.as_str());
    proof {
        reveal_strlit(".domain-scan.toml");
    }
    let mut out: Vec<String> = Vec::new();
    let mut k: usize = n;
    loop
        invariant_except_break
            out@.len() == n - k,
        invariant
            floor <= k <= n,
            n == cv.len(),
            cv == comps_view(cs@),
            floor == ancestor_floor(cv),
            name_chars@ == ".domain-scan.toml"@,
            forall|j: int| 0 <= j < out@.len() ==> #[trigger] out@[j]@ == config_search_paths(start_dir@)[j],
            cv == components(start_dir@),
        ensures
            out@.len() == config_search_paths(start_dir@).len(),
            forall|j: int| 0 <= j < out@.len() ==> #[trigger] out@[j]@ == config_search_paths(start_dir@)[j],
        decreases k,
    {
        let mut dir = render_range(&cs, 0, k);
        assert(cv.subrange(0, k as int) =~= cv.take(k as int));
        proof {
            reveal_strlit(".domain-scan.toml");
        }
        assert(name_chars@[0] == '.');
        push_text_chars(&mut dir, &name_chars);
        out.push(string_of(&dir));
        if k == floor {
            break;
        }
        k -= 1;
    }
    out
}


/// The scan configuration the command line's flags give: the root, the
/// languages to scan (all when empty), a build status forced on every file,
/// and the cache (on unless `no_cache`) under `<root>/.domain-scan-cache`.
pub fn build_scan_config(
    root: String,
    languages: Vec<Language>,
    build_status_override: Option<BuildStatus>,
    no_cache: bool,
) -> (c: ScanConfig)
    ensures
        c.root == root,
        c.inclusion@.len() == 0,
        c.exclusion@.len() == 0,
        c.languages == languages,
        c.build_status_override == build_status_override,
        c.cache_enabled == !no_cache,
        c.cache_dir@ == join(root@, cache_dir_name()),
{
    let mut c = ScanConfig::new(root);
    c.languages = languages;
    c.build_status_override = build_status_override;
    c.cache_enabled = !no_cache;
    c
}

} // verus!
