use domain_scan::ir::{
    BuildStatus, InterfaceDef, InterfaceKind, IrFile, Language, ScanIndex, ScanStats, Span,
    Visibility,
};
use domain_scan::prompt::{
    filter_files_by_focus, partition_by_build_status, project_name_from_root, select_strategy,
    PartitionStrategy, PromptConfig,
};
use domain_scan::prompt_text::{format_language_stats, generate_prompt};
use domain_scan::stats::build_index;

fn make_ir_file(path: &str, lang: Language, status: BuildStatus) -> IrFile {
    IrFile::new(path.to_string(), lang, format!("hash_{path}"), status)
}

fn make_interface(name: &str, file: &str) -> InterfaceDef {
    InterfaceDef {
        name: name.to_string(),
        file: file.to_string(),
        span: Span::default(),
        visibility: Visibility::Public,
        generics: Vec::new(),
        extends: Vec::new(),
        methods: Vec::new(),
        properties: Vec::new(),
        language_kind: InterfaceKind::Interface,
        decorators: Vec::new(),
    }
}

fn make_test_index(files: Vec<IrFile>) -> ScanIndex {
    build_index("/project".to_string(), "0.1.0".to_string(), "2026-01-01T00:00:00Z".to_string(), files, 100, 0, 0)
}

fn prompt_of(index: &ScanIndex, config: &PromptConfig) -> String {
    generate_prompt(index, config, Ok("{}".to_string())).unwrap_or_default()
}

#[test]
fn test_select_strategy_small() {
    assert_eq!(select_strategy(100, 5), PartitionStrategy::ByConcern);
    assert_eq!(select_strategy(499, 5), PartitionStrategy::ByConcern);
}

#[test]
fn test_select_strategy_medium() {
    assert_eq!(select_strategy(500, 5), PartitionStrategy::Hybrid);
    assert_eq!(select_strategy(2000, 5), PartitionStrategy::Hybrid);
}

#[test]
fn test_select_strategy_large() {
    assert_eq!(select_strategy(2001, 5), PartitionStrategy::ByDirectory);
    assert_eq!(select_strategy(10000, 5), PartitionStrategy::ByDirectory);
}

#[test]
fn test_project_name_from_root() {
    assert_eq!(project_name_from_root("/home/user/my-project"), "my-project");
    assert_eq!(project_name_from_root("/"), "project");
}

#[test]
fn test_format_language_stats() {
    let mut stats = ScanStats::default();
    stats.files_by_language = vec![(Language::TypeScript, 50), (Language::Rust, 30)];
    let formatted = format_language_stats(&stats);
    assert!(formatted.contains("TypeScript (50)"));
    assert!(formatted.contains("Rust (30)"));
}

#[test]
fn test_partition_by_build_status() {
    let built = IrFile::new("a.ts".to_string(), Language::TypeScript, "h1".into(), BuildStatus::Built);
    let unbuilt = IrFile::new("b.ts".to_string(), Language::TypeScript, "h2".into(), BuildStatus::Unbuilt);
    let error = IrFile::new("c.ts".to_string(), Language::TypeScript, "h3".into(), BuildStatus::Error);
    let files: Vec<&IrFile> = vec![&built, &unbuilt, &error];
    let (b, nb) = partition_by_build_status(&files);
    assert_eq!(b.len(), 1);
    assert_eq!(nb.len(), 2);
}

#[test]
fn test_filter_files_by_focus() {
    let mut f1 = make_ir_file("src/auth.ts", Language::TypeScript, BuildStatus::Built);
    f1.interfaces.push(make_interface("AuthService", "src/auth.ts"));
    let f2 = make_ir_file("src/utils.ts", Language::TypeScript, BuildStatus::Built);
    let files = vec![f1, f2];
    let filtered = filter_files_by_focus(&files, "auth");
    assert_eq!(filtered.len(), 1);
    assert_eq!(filtered[0].path, "src/auth.ts");
}

#[test]
fn test_generate_prompt_empty_index() {
    let index = make_test_index(vec![]);
    let result = generate_prompt(&index, &PromptConfig::default(), Ok("{}".to_string()));
    assert!(result.is_ok());
    let prompt = result.unwrap_or_default();
    assert!(prompt.contains("# Codebase Structural Analysis: project"));
    assert!(prompt.contains("Launch 5 sub-agents"));
    assert!(prompt.contains("## Sub-Agent Assignments"));
    assert!(prompt.contains("## Synthesis"));
}

#[test]
fn test_generate_prompt_with_files() {
    let mut f1 = make_ir_file("/project/src/types.ts", Language::TypeScript, BuildStatus::Built);
    f1.interfaces.push(make_interface("UserRepo", "/project/src/types.ts"));
    let prompt = prompt_of(&make_test_index(vec![f1]), &PromptConfig::default());
    assert!(prompt.contains("Agent 1: Interface & Type Boundary Audit"));
    assert!(prompt.contains("structural output is authoritative"));
}

#[test]
fn test_generate_prompt_with_focus() {
    let mut f1 = make_ir_file("/project/src/auth.ts", Language::TypeScript, BuildStatus::Built);
    f1.interfaces.push(make_interface("AuthService", "/project/src/auth.ts"));
    let f2 = make_ir_file("/project/src/utils.ts", Language::TypeScript, BuildStatus::Built);
    let config = PromptConfig { agents: 5, focus: Some("auth".to_string()), include_scan: false };
    let prompt = prompt_of(&make_test_index(vec![f1, f2]), &config);
    assert!(prompt.contains("auth.ts"));
}

#[test]
fn test_generate_prompt_with_non_built_files() {
    let mut f1 = make_ir_file("/project/src/auth.ts", Language::TypeScript, BuildStatus::Unbuilt);
    f1.interfaces.push(make_interface("AuthService", "/project/src/auth.ts"));
    let prompt = prompt_of(&make_test_index(vec![f1]), &PromptConfig::default());
    assert!(prompt.contains("best-effort extraction"));
    assert!(prompt.contains("do not currently build"));
}

#[test]
fn test_generate_prompt_include_scan() {
    let index = make_test_index(vec![]);
    let config = PromptConfig { agents: 3, focus: None, include_scan: true };
    let prompt = prompt_of(&index, &config);
    assert!(prompt.contains("## Full Scan Results"));
    assert!(prompt.contains("```json"));
}

#[test]
fn test_generate_prompt_agents_count() {
    let index = make_test_index(vec![]);
    let config = PromptConfig { agents: 3, focus: None, include_scan: false };
    let prompt = prompt_of(&index, &config);
    assert!(prompt.contains("Launch 3 sub-agents"));
    assert!(prompt.contains("Agent 1:"));
    assert!(prompt.contains("Agent 2:"));
    assert!(prompt.contains("Agent 3:"));
    assert!(!prompt.contains("Agent 4:"));
}

#[test]
fn prompt_serialization_failure_is_reported_only_when_scan_included() {
    let index = make_test_index(vec![]);
    let with = PromptConfig { agents: 3, focus: None, include_scan: true };
    let without = PromptConfig { agents: 3, focus: None, include_scan: false };
    assert!(matches!(
        generate_prompt(&index, &with, Err("boom".to_string())),
        Err(domain_scan::DomainScanError::Serialization(m)) if m == "boom"
    ));
    assert!(generate_prompt(&index, &without, Err("boom".to_string())).is_ok());
}

#[test]
fn concern_filter_keeps_files_of_the_concern() {
    let mut with_iface = make_ir_file("/p/a.ts", Language::TypeScript, BuildStatus::Built);
    with_iface.interfaces.push(make_interface("A", "/p/a.ts"));
    let plain = make_ir_file("/p/b.ts", Language::TypeScript, BuildStatus::Built);
    let files: Vec<&IrFile> = vec![&with_iface, &plain];
    let interfaces = domain_scan::prompt::filter_by_concern(&files, 0);
    assert_eq!(interfaces.len(), 1);
    assert_eq!(interfaces[0].path, "/p/a.ts");
    assert_eq!(domain_scan::prompt::filter_by_concern(&files, 1).len(), 0);
    assert_eq!(domain_scan::prompt::filter_by_concern(&files, 9).len(), 2);
}

fn make_service(name: &str, file: &str) -> domain_scan::ir::ServiceDef {
    domain_scan::ir::ServiceDef {
        name: name.to_string(),
        file: file.to_string(),
        span: Span::default(),
        kind: domain_scan::ir::ServiceKind::HttpController,
        methods: Vec::new(),
        dependencies: Vec::new(),
        decorators: Vec::new(),
        routes: Vec::new(),
    }
}

#[test]
fn snapshot_prompt_small_codebase() {
    let mut f1 = make_ir_file("/project/src/types.ts", Language::TypeScript, BuildStatus::Built);
    f1.interfaces.push(make_interface("UserRepository", "/project/src/types.ts"));
    f1.interfaces.push(make_interface("PostRepository", "/project/src/types.ts"));
    let mut f2 = make_ir_file("/project/src/services.ts", Language::TypeScript, BuildStatus::Built);
    f2.services.push(make_service("UserController", "/project/src/services.ts"));
    let mut f3 = make_ir_file("/project/src/legacy.ts", Language::TypeScript, BuildStatus::Unbuilt);
    f3.interfaces.push(make_interface("LegacyAuth", "/project/src/legacy.ts"));
    let index = make_test_index(vec![f1, f2, f3]);
    let config = PromptConfig { agents: 5, focus: None, include_scan: false };
    let prompt = prompt_of(&index, &config);
    assert_eq!(prompt, prompt_of(&index, &config));
    assert!(prompt.contains("Launch 5 sub-agents"));
    assert!(prompt.contains("### Agent 1:"));
    assert!(prompt.contains("best-effort extraction"));
    assert!(prompt.contains("legacy.ts"));
}

#[test]
fn snapshot_prompt_with_focus() {
    let mut f1 = make_ir_file("/project/src/auth/handler.ts", Language::TypeScript, BuildStatus::Built);
    f1.interfaces.push(make_interface("AuthHandler", "/project/src/auth/handler.ts"));
    f1.services.push(make_service("AuthController", "/project/src/auth/handler.ts"));
    let mut f2 = make_ir_file("/project/src/users/service.ts", Language::TypeScript, BuildStatus::Built);
    f2.services.push(make_service("UserService", "/project/src/users/service.ts"));
    let index = make_test_index(vec![f1, f2]);
    let config = PromptConfig { agents: 3, focus: Some("auth".to_string()), include_scan: false };
    let prompt = prompt_of(&index, &config);
    assert_eq!(prompt, prompt_of(&index, &config));
    assert!(prompt.contains("Launch 3 sub-agents"));
    assert!(prompt.contains("### Agent 3:"));
}

#[test]
fn snapshot_prompt_mixed_build_status() {
    let mut f1 = make_ir_file("/project/src/built.ts", Language::TypeScript, BuildStatus::Built);
    f1.interfaces.push(make_interface("BuiltInterface", "/project/src/built.ts"));
    let mut f2 = make_ir_file("/project/src/unbuilt.ts", Language::TypeScript, BuildStatus::Unbuilt);
    f2.interfaces.push(make_interface("UnbuiltInterface", "/project/src/unbuilt.ts"));
    let mut f3 = make_ir_file("/project/src/error.ts", Language::TypeScript, BuildStatus::Error);
    f3.interfaces.push(make_interface("ErrorInterface", "/project/src/error.ts"));
    let mut f4 = make_ir_file("/project/src/rebuild.ts", Language::TypeScript, BuildStatus::Rebuild);
    f4.interfaces.push(make_interface("RebuildInterface", "/project/src/rebuild.ts"));
    let index = make_test_index(vec![f1, f2, f3, f4]);
    let config = PromptConfig { agents: 5, focus: None, include_scan: false };
    let prompt = prompt_of(&index, &config);
    assert_eq!(prompt, prompt_of(&index, &config));
    assert!(prompt.contains("best-effort extraction"));
    assert!(prompt.contains("rebuild.ts"));
    assert!(prompt.contains("built.ts"));
}

#[test]
fn snapshot_prompt_three_agents() {
    let mut f1 = make_ir_file("/project/src/types.ts", Language::TypeScript, BuildStatus::Built);
    f1.interfaces.push(make_interface("Repo", "/project/src/types.ts"));
    let index = make_test_index(vec![f1]);
    let config = PromptConfig { agents: 3, focus: None, include_scan: false };
    let prompt = prompt_of(&index, &config);
    assert_eq!(prompt, prompt_of(&index, &config));
    assert!(prompt.contains("Launch 3 sub-agents"));
    assert!(prompt.contains("### Agent 1:"));
    assert!(prompt.contains("### Agent 3:"));
    assert!(!prompt.contains("### Agent 4:"));
}

#[test]
fn focus_patterns_are_regular_expressions() {
    let mut f1 = make_ir_file("src/a.ts", Language::TypeScript, BuildStatus::Built);
    f1.interfaces.push(make_interface("AuthService", "src/a.ts"));
    let mut f2 = make_ir_file("src/b.ts", Language::TypeScript, BuildStatus::Built);
    f2.interfaces.push(make_interface("UserAuth", "src/b.ts"));
    let files = vec![f1, f2];
    let filtered = filter_files_by_focus(&files, "^Auth");
    assert_eq!(filtered.len(), 1);
    assert_eq!(filtered[0].path, "src/a.ts");
    assert_eq!(filter_files_by_focus(&files, "^auth").len(), 1);
    assert_eq!(filter_files_by_focus(&files, "AUTH").len(), 2);
}
