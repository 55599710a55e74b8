use domain_scan::ir::{BuildStatus, Confidence, IrFile, Language, ScanConfig, ScanIndex, ScanStats};
use domain_scan::lang::{all_languages, detect_language, extensions_for};

#[test]
fn test_build_status_confidence() {
    assert_eq!(BuildStatus::Built.confidence(), Confidence::High);
    assert_eq!(BuildStatus::Error.confidence(), Confidence::Medium);
    assert_eq!(BuildStatus::Unbuilt.confidence(), Confidence::Low);
    assert_eq!(BuildStatus::Rebuild.confidence(), Confidence::Low);
}

#[test]
fn test_ir_file_new_sets_confidence() {
    let file = IrFile::new("test.ts".to_string(), Language::TypeScript, "abc123".to_string(), BuildStatus::Built);
    assert_eq!(file.confidence, Confidence::High);
    assert!(file.interfaces.is_empty());
    assert!(file.services.is_empty());
}

#[test]
fn test_ir_file_unbuilt_confidence() {
    let file = IrFile::new("test.py".to_string(), Language::Python, "def456".to_string(), BuildStatus::Unbuilt);
    assert_eq!(file.confidence, Confidence::Low);
}

#[test]
fn test_scan_stats_default() {
    let stats = ScanStats::default();
    assert_eq!(stats.total_files, 0);
    assert!(stats.files_by_language.is_empty());
    assert_eq!(ScanStats::empty(), stats);
}

#[test]
fn test_scan_config_new() {
    let config = ScanConfig::new("/tmp/project".to_string());
    assert_eq!(config.root, "/tmp/project");
    assert!(config.languages.is_empty());
    assert!(config.cache_enabled);
    assert_eq!(config.cache_dir, "/tmp/project/.domain-scan-cache");
}

#[test]
fn test_language_display() {
    assert_eq!(Language::TypeScript.to_string(), "TypeScript");
    assert_eq!(Language::CSharp.to_string(), "C#");
    assert_eq!(Language::Cpp.to_string(), "C++");
}

#[test]
fn test_scan_index_new() {
    let index = ScanIndex::new("/tmp/project".to_string(), "0.1.0".to_string(), "2026-01-01T00:00:00Z".to_string());
    assert_eq!(index.version, "0.1.0");
    assert!(index.files.is_empty());
    assert_eq!(index.stats.total_files, 0);
}

#[test]
fn status_and_confidence_labels() {
    assert_eq!(BuildStatus::Built.to_string(), "Built");
    assert_eq!(BuildStatus::Unbuilt.to_string(), "Unbuilt");
    assert_eq!(BuildStatus::Error.to_string(), "Error");
    assert_eq!(BuildStatus::Rebuild.to_string(), "Rebuild");
    assert_eq!(Confidence::High.to_string(), "high");
    assert_eq!(Confidence::Medium.to_string(), "medium");
    assert_eq!(Confidence::Low.to_string(), "low");
}

#[test]
fn test_no_extension() {
    assert_eq!(detect_language("Makefile"), None);
    assert_eq!(detect_language("README"), None);
}

#[test]
fn test_nested_path() {
    assert_eq!(detect_language("src/components/App.tsx"), Some(Language::TypeScript));
    assert_eq!(detect_language("pkg/server/handler.go"), Some(Language::Go));
}

#[test]
fn test_all_languages_covered() {
    for lang in all_languages() {
        let exts = extensions_for(*lang);
        assert!(!exts.is_empty());
        for ext in exts {
            let path = format!("test.{ext}");
            assert_eq!(detect_language(&path), Some(*lang));
        }
    }
}

#[test]
fn lang_unsupported_extensions() {
    assert_eq!(detect_language("foo.json"), None);
    assert_eq!(detect_language("foo.yaml"), None);
    assert_eq!(detect_language("a/b/c.rs"), Some(Language::Rust));
    assert_eq!(detect_language("x.py"), Some(Language::Python));
}

#[test]
fn detected_extension_is_listed_for_its_language() {
    for path in ["a.tsx", "lib/x.h", "m.kts", "s.sc", "p.pyi", "q.cjs"] {
        let lang = detect_language(path).unwrap_or_else(|| panic!("not detected: {path}"));
        let ext = path.rsplit('.').next().unwrap_or("");
        assert!(extensions_for(lang).contains(&ext), "{path}");
    }
}
