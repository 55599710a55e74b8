use domain_scan::config::{
    build_scan_config, config_candidates, config_to_scan_config, default_custom_kind, default_max_size_mb, parse_language, ConfigFile,
    GlobFilter,
};
use domain_scan::ir::Language;

#[test]
fn test_config_to_scan_config_no_root() {
    let config = ConfigFile::default();
    let scan_config = config_to_scan_config(&config, "/tmp/project");
    assert!(scan_config.is_ok());
    let sc = scan_config.as_ref().ok();
    assert!(sc.is_some_and(|c| c.root == "/tmp/project"));
}

#[test]
fn test_parse_language_variants() {
    assert_eq!(parse_language("typescript"), Some(Language::TypeScript));
    assert_eq!(parse_language("ts"), Some(Language::TypeScript));
    assert_eq!(parse_language("TypeScript"), Some(Language::TypeScript));
    assert_eq!(parse_language("python"), Some(Language::Python));
    assert_eq!(parse_language("py"), Some(Language::Python));
    assert_eq!(parse_language("rust"), Some(Language::Rust));
    assert_eq!(parse_language("go"), Some(Language::Go));
    assert_eq!(parse_language("golang"), Some(Language::Go));
    assert_eq!(parse_language("java"), Some(Language::Java));
    assert_eq!(parse_language("kotlin"), Some(Language::Kotlin));
    assert_eq!(parse_language("kt"), Some(Language::Kotlin));
    assert_eq!(parse_language("csharp"), Some(Language::CSharp));
    assert_eq!(parse_language("c#"), Some(Language::CSharp));
    assert_eq!(parse_language("cs"), Some(Language::CSharp));
    assert_eq!(parse_language("swift"), Some(Language::Swift));
    assert_eq!(parse_language("php"), Some(Language::PHP));
    assert_eq!(parse_language("ruby"), Some(Language::Ruby));
    assert_eq!(parse_language("rb"), Some(Language::Ruby));
    assert_eq!(parse_language("scala"), Some(Language::Scala));
    assert_eq!(parse_language("cpp"), Some(Language::Cpp));
    assert_eq!(parse_language("c++"), Some(Language::Cpp));
    assert_eq!(parse_language("unknown"), None);
}

#[test]
fn test_config_to_scan_config() {
    let mut config = ConfigFile::default();
    config.project.root = Some(".".to_string());
    config.scan.inclusion = vec!["src/**".to_string()];
    config.scan.exclusion = vec!["**/test/**".to_string()];
    config.scan.languages = vec!["typescript".to_string(), "rust".to_string()];
    config.cache.enabled = false;

    let scan_config = config_to_scan_config(&config, "/tmp/project");
    assert!(scan_config.is_ok());
    let sc = scan_config.as_ref().ok();

    assert!(sc.is_some_and(|c| c.root == "/tmp/project/."));
    assert!(sc.is_some_and(|c| c.languages.len() == 2));
    assert!(sc.is_some_and(|c| c.languages.contains(&Language::TypeScript)));
    assert!(sc.is_some_and(|c| c.languages.contains(&Language::Rust)));
    assert!(sc.is_some_and(|c| !c.cache_enabled));
    assert!(sc.is_some_and(|c| c.inclusion.len() == 1));
    assert!(sc.is_some_and(|c| c.exclusion.len() == 1));
}

#[test]
fn test_glob_filter_empty() {
    let filter = GlobFilter::new(&vec![], &vec![]);
    assert!(filter.is_ok());
    let filter = filter.as_ref().ok();
    assert!(filter.is_some_and(|f| f.is_included("anything.ts")));
}

#[test]
fn test_glob_filter_include_only() {
    let inclusion = vec!["src/**".to_string()];
    let filter = GlobFilter::new(&inclusion, &vec![]);
    assert!(filter.is_ok());
    let f = filter.as_ref().ok();
    assert!(f.is_some_and(|f| f.is_included("src/main.ts")));
    assert!(f.is_some_and(|f| !f.is_included("lib/utils.ts")));
}

#[test]
fn test_glob_filter_exclude_only() {
    let exclude = vec!["**/node_modules/**".to_string()];
    let filter = GlobFilter::new(&vec![], &exclude);
    assert!(filter.is_ok());
    let f = filter.as_ref().ok();
    assert!(f.is_some_and(|f| f.is_included("src/main.ts")));
    assert!(f.is_some_and(|f| !f.is_included("node_modules/foo/index.ts")));
}

#[test]
fn test_glob_filter_include_and_exclude() {
    let inclusion = vec!["src/**".to_string()];
    let exclude = vec!["**/*.test.ts".to_string()];
    let filter = GlobFilter::new(&inclusion, &exclude);
    assert!(filter.is_ok());
    let f = filter.as_ref().ok();
    assert!(f.is_some_and(|f| f.is_included("src/main.ts")));
    assert!(f.is_some_and(|f| !f.is_included("src/main.test.ts")));
    assert!(f.is_some_and(|f| !f.is_included("lib/main.ts")));
}

#[test]
fn test_glob_filter_invalid_pattern() {
    let inclusion = vec!["[invalid".to_string()];
    let result = GlobFilter::new(&inclusion, &vec![]);
    assert!(result.is_err());
}

#[test]
fn config_defaults_match_documented_values() {
    let config = ConfigFile::default();
    assert!(config.cache.enabled);
    assert_eq!(config.cache.max_size_mb, 100);
    assert_eq!(config.cache.dir, ".domain-scan/cache");
    assert!(config.scan.inclusion.is_empty());
    assert!(config.services.custom.is_empty());
    assert_eq!(config.output.default_format, "table");
    assert_eq!(default_max_size_mb(), 100);
    assert_eq!(default_custom_kind(), "custom");
}

#[test]
fn config_invalid_exclusion_is_config_error() {
    let inclusion = vec!["src/**".to_string()];
    let exclude = vec!["{unclosed".to_string()];
    let result = GlobFilter::new(&inclusion, &exclude);
    assert!(matches!(result, Err(domain_scan::DomainScanError::Config(_))));
}

#[test]
fn config_scan_root_joined_and_cache_dir_under_root() {
    let mut config = ConfigFile::default();
    config.project.root = Some("app".to_string());
    let sc = config_to_scan_config(&config, "/work").ok();
    assert!(sc.as_ref().is_some_and(|c| c.root == "/work/app"));
    assert!(sc.as_ref().is_some_and(|c| c.cache_dir == "/work/app/.domain-scan/cache"));
    assert!(sc.as_ref().is_some_and(|c| c.languages.is_empty()));
}

#[test]
fn config_candidates_walk_up_to_the_root() {
    let got = config_candidates("/work/project/sub");
    assert_eq!(
        got,
        vec![
            "/work/project/sub/.domain-scan.toml".to_string(),
            "/work/project/.domain-scan.toml".to_string(),
            "/work/.domain-scan.toml".to_string(),
            "/.domain-scan.toml".to_string(),
        ]
    );
}

#[test]
fn config_candidates_of_a_relative_path_end_at_the_empty_path() {
    let got = config_candidates("a/b/");
    assert_eq!(
        got,
        vec![
            "a/b/.domain-scan.toml".to_string(),
            "a/.domain-scan.toml".to_string(),
            ".domain-scan.toml".to_string(),
        ]
    );
    assert_eq!(config_candidates("/"), vec!["/.domain-scan.toml".to_string()]);
}

#[test]
fn scan_config_from_flags() {
    let c = build_scan_config("/work".to_string(), vec![Language::Rust], Some(domain_scan::ir::BuildStatus::Error), true);
    assert_eq!(c.root, "/work");
    assert_eq!(c.languages, vec![Language::Rust]);
    assert_eq!(c.build_status_override, Some(domain_scan::ir::BuildStatus::Error));
    assert!(!c.cache_enabled);
    assert_eq!(c.cache_dir, "/work/.domain-scan-cache");
    assert!(c.inclusion.is_empty() && c.exclusion.is_empty());
}
