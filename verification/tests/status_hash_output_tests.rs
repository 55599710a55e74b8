use domain_scan::build_status::{
    artifact_dir_names, build_status_step, count_changes, first_probe, has_conflict_markers,
    language_artifact_paths, language_precheck, lock_file_name, Observation, Probe, Step,
    LOCK_FILE_COUNT,
};
use domain_scan::cache::{
    clear_action, disk_path, dry_run_clear_actions, dry_run_prune_actions, is_cache_file,
    least_recently_used, max_size_bytes, prune_action, total_disk_size,
};
use domain_scan::hash::{content_hash, to_hex};
use domain_scan::ir::{BuildStatus, IrFile, Language, ScanIndex};
use domain_scan::output::{format_ir_file, format_scan_index, OutputFormat};

/// Runs the detector against fixed observations.
fn run(artifacts: bool, git: Option<Option<&str>>, locks: &[Option<&str>], stale: bool) -> BuildStatus {
    let mut probe = first_probe();
    loop {
        let seen = match probe {
            Probe::ArtifactDirs => Observation::Flag(artifacts),
            Probe::GitRepo => Observation::Flag(git.is_some()),
            Probe::GitStatus => Observation::GitOutput(git.flatten().map(String::from)),
            Probe::LockFile(i) => Observation::LockContent(locks.get(i).copied().flatten().map(String::from)),
            Probe::Staleness => Observation::Flag(stale),
        };
        match build_status_step(probe, &seen) {
            Step::Look(next) => probe = next,
            Step::Finished(status) => return status,
        }
    }
}

#[test]
fn test_unbuilt_no_artifacts() {
    assert_eq!(run(false, None, &[], true), BuildStatus::Unbuilt);
}

#[test]
fn test_built_fresh_artifacts() {
    assert_eq!(run(true, None, &[], false), BuildStatus::Built);
}

#[test]
fn test_error_stale_artifacts() {
    assert_eq!(run(true, None, &[], true), BuildStatus::Error);
}

#[test]
fn test_error_lock_conflicts() {
    let lock = "<<<<<<< HEAD\nversion1\n=======\nversion2\n>>>>>>>\n";
    assert_eq!(run(true, None, &[Some(lock)], false), BuildStatus::Error);
}

#[test]
fn test_rebuild_many_uncommitted_changes() {
    let porcelain: String = (0..15).map(|i| format!("?? file{i}.rs\n")).collect();
    assert_eq!(run(true, Some(Some(&porcelain)), &[], false), BuildStatus::Rebuild);
    let few: String = (0..10).map(|i| format!(" M file{i}.rs\n")).collect();
    assert_eq!(run(true, Some(Some(&few)), &[], false), BuildStatus::Built);
}

#[test]
fn test_no_git_repo_skips_rebuild_check() {
    assert_ne!(run(true, None, &[], false), BuildStatus::Rebuild);
    assert_eq!(run(true, Some(None), &[], false), BuildStatus::Built);
}

#[test]
fn test_clean_lock_file_not_error() {
    assert_ne!(run(true, None, &[Some("[package]\nname = \"foo\"\n")], false), BuildStatus::Error);
}

#[test]
fn build_status_later_lock_file_conflict() {
    let locks = [None, None, None, None, None, Some(">>>>>>> theirs")];
    assert_eq!(run(true, None, &locks, false), BuildStatus::Error);
}

#[test]
fn build_status_change_counting() {
    assert_eq!(count_changes(""), 0);
    assert_eq!(count_changes("a\nb\n"), 2);
    assert_eq!(count_changes("a\r\n\r\n\nb"), 2);
    assert!(has_conflict_markers("x<<<<<<<y"));
    assert!(!has_conflict_markers("<<<<<< only six"));
}

#[test]
fn build_status_names() {
    assert_eq!(artifact_dir_names(), vec!["target", "node_modules", "__pycache__", "build", ".build"]);
    let locks: Vec<String> = (0..LOCK_FILE_COUNT).map(lock_file_name).collect();
    assert_eq!(locks, vec!["Cargo.lock", "package-lock.json", "yarn.lock", "pnpm-lock.yaml", "go.sum", "Gemfile.lock"]);
}

#[test]
fn test_rust_artifacts() {
    assert_eq!(language_artifact_paths(Language::Rust), vec!["target"]);
    assert_eq!(language_precheck(&vec![false]), Some(BuildStatus::Unbuilt));
    assert_eq!(language_precheck(&vec![true]), None);
}

#[test]
fn test_typescript_artifacts() {
    assert_eq!(language_artifact_paths(Language::TypeScript), vec!["node_modules", "node_modules/.cache"]);
    assert_eq!(language_precheck(&vec![false, false]), Some(BuildStatus::Unbuilt));
    assert_eq!(language_precheck(&vec![true, false]), None);
}

#[test]
fn test_python_artifacts() {
    assert_eq!(language_artifact_paths(Language::Python), vec!["__pycache__"]);
    assert_eq!(language_artifact_paths(Language::CSharp), vec!["bin", "obj"]);
    assert_eq!(language_artifact_paths(Language::Scala), vec!["build", "target"]);
}

#[test]
fn test_content_hash_deterministic() {
    let a = content_hash(b"hello world");
    let b = content_hash(b"hello world");
    assert_eq!(a, b);
}

#[test]
fn test_content_hash_differs() {
    let a = content_hash(b"hello");
    let b = content_hash(b"world");
    assert_ne!(a, b);
}

#[test]
fn content_hash_known_digest() {
    assert_eq!(
        content_hash(b"hello world"),
        "b94d27b9934d3e08a52e52d7da7dabfac484efe37a5380ee9088f7ace2efcde9"
    );
    assert_eq!(content_hash(b"").len(), 64);
    assert_eq!(to_hex(&vec![0, 15, 16, 255]), "000f10ff");
}

fn empty_index() -> ScanIndex {
    ScanIndex::new("/tmp/test".to_string(), "0.1.0".to_string(), "t".to_string())
}

#[test]
fn test_format_scan_index_table() {
    let table = format_scan_index(&empty_index(), OutputFormat::Table, Err("unused".to_string())).unwrap_or_default();
    assert!(table.contains("Scan:"));
    assert!(table.contains("0 files"));
    assert_eq!(
        table,
        "Scan: /tmp/test (0 files)\nVersion: 0.1.0\nInterfaces: 0 | Services: 0 | Classes: 0 | Functions: 0\nSchemas: 0 | Type Aliases: 0 | Implementations: 0\n"
    );
}

#[test]
fn test_format_scan_index_compact() {
    let compact = format_scan_index(&empty_index(), OutputFormat::Compact, Err("unused".to_string())).unwrap_or_default();
    assert!(compact.contains("0 files"));
    assert_eq!(compact, "0 files | 0 iface | 0 svc | 0 cls | 0 fn | 0 schema");
}

#[test]
fn test_format_scan_index_json() {
    assert_eq!(format_scan_index(&empty_index(), OutputFormat::Json, Ok("{}".to_string())).ok(), Some("{}".to_string()));
    assert!(matches!(
        format_scan_index(&empty_index(), OutputFormat::Json, Err("bad".to_string())),
        Err(domain_scan::DomainScanError::Serialization(m)) if m == "bad"
    ));
}

#[test]
fn test_format_ir_file_table() {
    let file = IrFile::new("test.ts".to_string(), Language::TypeScript, "hash123".to_string(), BuildStatus::Built);
    let table = format_ir_file(&file, OutputFormat::Table, Err("unused".to_string())).unwrap_or_default();
    assert!(table.contains("test.ts"));
    assert!(table.contains("TypeScript"));
    assert!(table.contains("Built"));
    assert_eq!(table, "test.ts: TypeScript (Built, high)");
    let compact = format_ir_file(&file, OutputFormat::Compact, Err("unused".to_string())).unwrap_or_default();
    assert_eq!(compact, "test.ts [TypeScript]");
}

#[test]
fn test_cache_stats_max_size_bytes() {
    assert_eq!(max_size_bytes(100), 100 * 1024 * 1024);
    assert_eq!(max_size_bytes(u64::MAX), u64::MAX);
}

#[test]
fn test_dry_run_clear_lists_all_entries() {
    let keys = vec!["a1".to_string(), "b2".to_string()];
    let actions = dry_run_clear_actions("/tmp/cache", &keys);
    assert_eq!(actions.len(), 2);
    for a in &actions {
        assert_eq!(a.action, "delete");
        assert!(a.target.ends_with(".bincode"));
        assert!(a.reason.contains("cache clear"));
    }
    // Nothing is deleted: the entries are all still there.
    assert_eq!(keys.len(), 2);
    assert!(dry_run_clear_actions("/tmp/cache", &vec![]).is_empty());
    let pruned = dry_run_prune_actions("/c", &vec![("abc".to_string(), "/src/gone.ts".to_string())]);
    assert_eq!(pruned.len(), 1);
    assert_eq!(pruned[0].target, "/c/abc.bincode");
    assert_eq!(pruned[0].reason, "source file deleted from disk: /src/gone.ts");
    let a = clear_action("/c", "abc");
    assert_eq!(a.action, "delete");
    assert_eq!(a.target, "/c/abc.bincode");
    assert_eq!(a.reason, "cache clear removes all entries");
    let p = prune_action("/c", "abc", "/src/gone.ts");
    assert_eq!(p.reason, "source file deleted from disk: /src/gone.ts");
    assert_eq!(disk_path("/c", "h"), "/c/h.bincode");
}

#[test]
fn cache_lru_and_sizes() {
    assert_eq!(least_recently_used(&vec![]), None);
    assert_eq!(least_recently_used(&vec![5, 3, 9, 3]), Some(1));
    assert_eq!(total_disk_size(&vec![1, 2, 3]), 6);
    assert_eq!(total_disk_size(&vec![u64::MAX, 1]), u64::MAX);
    assert!(is_cache_file("/c/abc.bincode"));
    assert!(!is_cache_file("/c/abc.json"));
}

#[test]
fn test_format_ir_file_json() {
    let file = IrFile::new("test.ts".to_string(), Language::TypeScript, "hash123".to_string(), BuildStatus::Built);
    let text = r#"{"path": "test.ts", "language": "TypeScript", "content_hash": "hash123"}"#.to_string();
    let json = format_ir_file(&file, OutputFormat::Json, Ok(text.clone())).unwrap_or_default();
    assert_eq!(json, text);
    let parsed: Result<serde_json::Value, _> = serde_json::from_str(&json);
    assert!(parsed.is_ok());
}

#[test]
fn eviction_stops_once_the_cache_fits() {
    assert_eq!(domain_scan::cache::next_eviction(100, 100, &vec![5, 3]), None);
    assert_eq!(domain_scan::cache::next_eviction(101, 100, &vec![5, 3, 9, 3]), Some(1));
    assert_eq!(domain_scan::cache::next_eviction(101, 100, &vec![]), None);
}

#[test]
fn artifacts_are_stale_when_a_source_is_newer() {
    assert!(!domain_scan::build_status::artifacts_stale(&vec![], &vec![10]));
    assert!(!domain_scan::build_status::artifacts_stale(&vec![5, 9], &vec![1, 9]));
    assert!(domain_scan::build_status::artifacts_stale(&vec![5, 9], &vec![1, 10]));
    assert!(!domain_scan::build_status::artifacts_stale(&vec![5], &vec![]));
}
