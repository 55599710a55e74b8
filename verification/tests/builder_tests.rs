use domain_scan::builder::{
    bootstrap_manifest, compute_common_prefix, domain_color, find_subsystem_for_path,
    group_files_by_directory, humanize_name, is_source_root, is_workspace_dir, make_unique_id,
    normalize_path, resolve_import_to_subsystem, BootstrapOptions, DOMAIN_COLOR_COUNT,
};
use domain_scan::ir::{BuildStatus, ImportDef, IrFile, Language, ScanIndex, Span};
use domain_scan::manifest::{validate_system_manifest, ManifestStatus, ManifestSubsystem};

fn make_ir_file(path: &str, imports: Vec<ImportDef>) -> IrFile {
    let mut ir = IrFile::new(path.to_string(), Language::TypeScript, "hash123".to_string(), BuildStatus::Built);
    ir.imports = imports;
    ir
}

fn make_import(source: &str) -> ImportDef {
    ImportDef { source: source.to_string(), symbols: Vec::new(), is_wildcard: false, span: Span::default() }
}

fn make_scan_index(root: &str, files: Vec<IrFile>) -> ScanIndex {
    let mut index = ScanIndex::new(root.to_string(), "0.1.0".to_string(), "t".to_string());
    index.stats.total_files = files.len();
    index.files = files;
    index
}

fn subsystem(id: &str, name: &str, domain: &str, path: &str) -> ManifestSubsystem {
    ManifestSubsystem {
        id: id.to_string(),
        name: name.to_string(),
        domain: domain.to_string(),
        status: ManifestStatus::New,
        file_path: path.to_string(),
        interfaces: Vec::new(),
        operations: Vec::new(),
        tables: Vec::new(),
        events: Vec::new(),
        children: Vec::new(),
        dependencies: Vec::new(),
    }
}

fn has_domain(m: &domain_scan::manifest::SystemManifest, id: &str) -> bool {
    m.domains.iter().any(|(k, _)| k == id)
}

#[test]
fn test_humanize_name() {
    assert_eq!(humanize_name("auth"), "Auth");
    assert_eq!(humanize_name("domain-scan-core"), "Domain Scan Core");
    assert_eq!(humanize_name("my_service"), "My Service");
}

#[test]
fn test_make_unique_id() {
    let mut seen = Vec::new();
    assert_eq!(make_unique_id("auth", &mut seen), "auth");
    assert_eq!(make_unique_id("auth", &mut seen), "auth-2");
    assert_eq!(make_unique_id("auth", &mut seen), "auth-3");
}

#[test]
fn test_bootstrap_min_entities_default() {
    assert_eq!(BootstrapOptions::default().min_entities, 1);
}

#[test]
fn test_normalize_path_removes_single_dot() {
    assert_eq!(normalize_path("/project/src/./auth/handler.ts"), "/project/src/auth/handler.ts");
}

#[test]
fn test_normalize_path_resolves_parent_dir() {
    assert_eq!(normalize_path("/project/src/billing/../auth/handler.ts"), "/project/src/auth/handler.ts");
}

#[test]
fn test_normalize_path_multiple_parent_dirs() {
    assert_eq!(
        normalize_path("/project/src/billing/deep/../../auth/handler.ts"),
        "/project/src/auth/handler.ts"
    );
}

#[test]
fn test_normalize_path_parent_at_root_stays() {
    assert_eq!(normalize_path("/../../etc"), "/etc");
}

#[test]
fn test_normalize_path_relative_with_parent() {
    assert_eq!(normalize_path("src/billing/../auth/handler.ts"), "src/auth/handler.ts");
}

#[test]
fn test_normalize_path_no_ops() {
    assert_eq!(normalize_path("/project/src/auth/handler.ts"), "/project/src/auth/handler.ts");
}

#[test]
fn test_normalize_path_empty() {
    assert_eq!(normalize_path(""), "");
}

#[test]
fn test_normalize_path_only_dots() {
    assert_eq!(normalize_path("./././."), "");
}

#[test]
fn test_resolve_import_scoped_package() {
    let subsystems = vec![subsystem("auth", "Auth", "core", "packages/auth/src")];
    let result = resolve_import_to_subsystem("@myapp/auth", "/project/src/billing/invoice.ts", &subsystems, "/project");
    assert_eq!(result, Some("auth".to_string()));
}

#[test]
fn test_resolve_import_scoped_package_with_path() {
    let subsystems = vec![subsystem("auth", "Auth", "core", "packages/auth/src")];
    let result =
        resolve_import_to_subsystem("@myapp/auth/handler", "/project/src/billing/invoice.ts", &subsystems, "/project");
    assert_eq!(result, Some("auth".to_string()));
}

#[test]
fn test_resolve_import_crate_reference() {
    let subsystems = vec![subsystem("auth", "Auth", "core", "src/auth")];
    let result =
        resolve_import_to_subsystem("crate::auth::handler", "/project/src/billing/invoice.rs", &subsystems, "/project");
    assert_eq!(result, Some("auth".to_string()));
}

#[test]
fn test_resolve_import_no_match() {
    let subsystems = vec![subsystem("auth", "Auth", "core", "src/auth")];
    let result =
        resolve_import_to_subsystem("some-random-package", "/project/src/billing/invoice.ts", &subsystems, "/project");
    assert_eq!(result, None);
}

#[test]
fn test_resolve_import_relative_path() {
    let subsystems = vec![subsystem("auth", "Auth", "core", "src/auth")];
    let result =
        resolve_import_to_subsystem("../auth/handler", "/project/src/billing/invoice.ts", &subsystems, "/project");
    assert_eq!(result, Some("auth".to_string()));
}

#[test]
fn test_humanize_name_empty() {
    assert_eq!(humanize_name(""), "");
}

#[test]
fn test_humanize_name_single_char() {
    assert_eq!(humanize_name("a"), "A");
}

#[test]
fn test_humanize_name_multiple_separators() {
    assert_eq!(humanize_name("my--double--dash"), "My Double Dash");
}

#[test]
fn test_humanize_name_mixed_separators() {
    assert_eq!(humanize_name("my-app_service"), "My App Service");
}

#[test]
fn test_humanize_name_underscore_root() {
    assert_eq!(humanize_name("_root"), "Root");
}

#[test]
fn test_is_workspace_dir_known_dirs() {
    for d in ["crates", "packages", "apps", "modules", "services", "libs", "workspaces"] {
        assert!(is_workspace_dir(d));
    }
}

#[test]
fn test_is_workspace_dir_non_workspace() {
    assert!(!is_workspace_dir("src"));
    assert!(!is_workspace_dir("dist"));
    assert!(!is_workspace_dir("node_modules"));
    assert!(!is_workspace_dir("vendor"));
}

#[test]
fn test_is_source_root_known() {
    assert!(is_source_root("src"));
    assert!(is_source_root("lib"));
    assert!(is_source_root("app"));
}

#[test]
fn test_is_source_root_non_source() {
    assert!(!is_source_root("dist"));
    assert!(!is_source_root("test"));
    assert!(!is_source_root("crates"));
}

#[test]
fn test_compute_common_prefix_empty_files() {
    assert_eq!(compute_common_prefix(&vec![], "/project"), "");
}

#[test]
fn test_compute_common_prefix_single_file() {
    let files = vec!["/project/src/auth/handler.ts".to_string()];
    assert_eq!(compute_common_prefix(&files, "/project"), "src/auth");
}

#[test]
fn test_compute_common_prefix_same_dir() {
    let files = vec!["/project/src/auth/handler.ts".to_string(), "/project/src/auth/types.ts".to_string()];
    assert_eq!(compute_common_prefix(&files, "/project"), "src/auth");
}

#[test]
fn test_compute_common_prefix_different_dirs() {
    let files = vec!["/project/src/auth/handler.ts".to_string(), "/project/src/billing/invoice.ts".to_string()];
    assert_eq!(compute_common_prefix(&files, "/project"), "src");
}

#[test]
fn test_compute_common_prefix_no_common() {
    let files = vec!["/project/src/handler.ts".to_string(), "/project/lib/utils.ts".to_string()];
    assert_eq!(compute_common_prefix(&files, "/project"), ".");
}

#[test]
fn test_find_subsystem_deepest_match_wins() {
    let subsystems = vec![
        subsystem("auth", "Auth", "core", "src/auth"),
        subsystem("auth-jwt", "Auth JWT", "core", "src/auth/jwt"),
    ];
    assert_eq!(find_subsystem_for_path("src/auth/jwt/token.ts", &subsystems), Some("auth-jwt".to_string()));
}

#[test]
fn test_find_subsystem_no_match() {
    let subsystems = vec![subsystem("auth", "Auth", "core", "src/auth")];
    assert_eq!(find_subsystem_for_path("src/billing/invoice.ts", &subsystems), None);
}

#[test]
fn test_find_subsystem_empty_file_path_skipped() {
    let subsystems = vec![subsystem("root", "Root", "_root", "")];
    assert_eq!(find_subsystem_for_path("handler.ts", &subsystems), None);
}

#[test]
fn test_bootstrap_empty_index() {
    let index = make_scan_index("/project", Vec::new());
    let manifest = bootstrap_manifest(&index, &BootstrapOptions::default());
    assert_eq!(manifest.meta.name, "project");
    assert!(manifest.subsystems.is_empty());
    assert!(manifest.connections.is_empty());
    assert!(manifest.domains.is_empty());
}

#[test]
fn test_bootstrap_infers_domains_from_top_level_dirs() {
    let files = vec![
        make_ir_file("/project/src/auth/handler.ts", Vec::new()),
        make_ir_file("/project/src/auth/middleware.ts", Vec::new()),
        make_ir_file("/project/src/billing/invoice.ts", Vec::new()),
    ];
    let manifest = bootstrap_manifest(&make_scan_index("/project", files), &BootstrapOptions::default());
    assert!(has_domain(&manifest, "auth"));
    assert!(has_domain(&manifest, "billing"));
}

#[test]
fn test_bootstrap_infers_subsystems() {
    let files = vec![
        make_ir_file("/project/src/auth/handler.ts", Vec::new()),
        make_ir_file("/project/src/auth/middleware.ts", Vec::new()),
        make_ir_file("/project/src/auth/types.ts", Vec::new()),
        make_ir_file("/project/src/billing/invoice.ts", Vec::new()),
        make_ir_file("/project/src/billing/payment.ts", Vec::new()),
        make_ir_file("/project/src/billing/stripe.ts", Vec::new()),
    ];
    let manifest = bootstrap_manifest(&make_scan_index("/project", files), &BootstrapOptions::default());
    let ids: Vec<&str> = manifest.subsystems.iter().map(|s| s.id.as_str()).collect();
    assert!(ids.iter().any(|id| id.contains("auth")));
    assert!(ids.iter().any(|id| id.contains("billing")));
}

#[test]
fn test_bootstrap_infers_connections_from_imports() {
    let files = vec![
        make_ir_file("/project/src/billing/invoice.ts", vec![make_import("../auth/handler")]),
        make_ir_file("/project/src/billing/payment.ts", Vec::new()),
        make_ir_file("/project/src/billing/stripe.ts", Vec::new()),
        make_ir_file("/project/src/auth/handler.ts", Vec::new()),
        make_ir_file("/project/src/auth/middleware.ts", Vec::new()),
        make_ir_file("/project/src/auth/types.ts", Vec::new()),
    ];
    let manifest = bootstrap_manifest(&make_scan_index("/project", files), &BootstrapOptions::default());
    assert!(!manifest.connections.is_empty());
}

#[test]
fn test_bootstrap_workspace_layout() {
    let files = vec![
        make_ir_file("/project/crates/core/src/lib.rs", Vec::new()),
        make_ir_file("/project/crates/core/src/parser.rs", Vec::new()),
        make_ir_file("/project/crates/cli/src/main.rs", Vec::new()),
    ];
    let manifest = bootstrap_manifest(&make_scan_index("/project", files), &BootstrapOptions::default());
    assert!(has_domain(&manifest, "core"));
    assert!(has_domain(&manifest, "cli"));
}

#[test]
fn test_bootstrap_custom_project_name() {
    let index = make_scan_index("/project", Vec::new());
    let options = BootstrapOptions { project_name: Some("my-app".to_string()), ..Default::default() };
    assert_eq!(bootstrap_manifest(&index, &options).meta.name, "my-app");
}

#[test]
fn test_bootstrap_skips_src_intermediary() {
    let files = vec![
        make_ir_file("/project/packages/auth/src/handler.ts", Vec::new()),
        make_ir_file("/project/packages/auth/src/types.ts", Vec::new()),
    ];
    let manifest = bootstrap_manifest(&make_scan_index("/project", files), &BootstrapOptions::default());
    for sub in &manifest.subsystems {
        assert_ne!(sub.name, "Src");
        assert_ne!(sub.id, "auth-src");
    }
}

#[test]
fn test_bootstrap_fallback_to_domains() {
    let files = vec![
        make_ir_file("/project/packages/auth/src/handler.ts", Vec::new()),
        make_ir_file("/project/packages/billing/src/invoice.ts", Vec::new()),
    ];
    let options = BootstrapOptions { project_name: None, min_entities: 100 };
    let manifest = bootstrap_manifest(&make_scan_index("/project", files), &options);
    assert!(!manifest.subsystems.is_empty());
}

#[test]
fn test_bootstrap_root_level_files_use_dot_file_path() {
    let files = vec![
        make_ir_file("/project/handler.ts", Vec::new()),
        make_ir_file("/project/repo.ts", Vec::new()),
        make_ir_file("/project/types.ts", Vec::new()),
    ];
    let manifest = bootstrap_manifest(&make_scan_index("/project", files), &BootstrapOptions::default());
    assert!(manifest.subsystems.iter().all(|sub| sub.file_path == "."));
}

#[test]
fn test_group_files_skips_files_outside_root() {
    let files = vec![make_ir_file("/other-project/src/auth/handler.ts", Vec::new())];
    let groups = group_files_by_directory(&make_scan_index("/project", files), "/project");
    assert!(groups.is_empty());
}

#[test]
fn test_group_files_two_component_path() {
    let files = vec![make_ir_file("/project/src/main.rs", Vec::new())];
    let groups = group_files_by_directory(&make_scan_index("/project", files), "/project");
    let src = groups.iter().find(|g| g.domain == "src").unwrap_or_else(|| panic!("no src domain"));
    assert!(src.subsystems.iter().any(|s| s.name == "src"));
}

#[test]
fn test_domain_color_cycling() {
    let mut files = Vec::new();
    for i in 0..15 {
        files.push(make_ir_file(&format!("/project/src/domain{i:02}/handler.ts"), Vec::new()));
    }
    let manifest = bootstrap_manifest(&make_scan_index("/project", files), &BootstrapOptions::default());
    assert_eq!(manifest.domains.len(), 15);
    let palette: Vec<String> = (0..DOMAIN_COLOR_COUNT).map(domain_color).collect();
    for (_, def) in &manifest.domains {
        assert!(palette.contains(&def.color));
    }
    assert_eq!(domain_color(12), domain_color(0));
    assert_eq!(domain_color(0), "#3b82f6");
}

#[test]
fn test_no_self_connections() {
    let files = vec![
        make_ir_file("/project/src/auth/handler.ts", vec![make_import("./types")]),
        make_ir_file("/project/src/auth/types.ts", Vec::new()),
    ];
    let manifest = bootstrap_manifest(&make_scan_index("/project", files), &BootstrapOptions::default());
    for conn in &manifest.connections {
        assert_ne!(conn.from, conn.to);
    }
}

#[test]
fn test_make_unique_id_many_collisions() {
    let mut seen = Vec::new();
    assert_eq!(make_unique_id("x", &mut seen), "x");
    assert_eq!(make_unique_id("x", &mut seen), "x-2");
    assert_eq!(make_unique_id("x", &mut seen), "x-3");
    assert_eq!(make_unique_id("x", &mut seen), "x-4");
    assert_eq!(make_unique_id("x", &mut seen), "x-5");
    assert_eq!(seen.len(), 5);
}

#[test]
fn test_make_unique_id_different_bases_no_collision() {
    let mut seen = Vec::new();
    assert_eq!(make_unique_id("a", &mut seen), "a");
    assert_eq!(make_unique_id("b", &mut seen), "b");
    assert_eq!(make_unique_id("c", &mut seen), "c");
    assert_eq!(seen.len(), 3);
}

#[test]
fn bootstrap_ids_are_distinct_and_manifest_validates() {
    let files = vec![
        make_ir_file("/project/src/auth/handler.ts", Vec::new()),
        make_ir_file("/project/lib/auth/handler.ts", Vec::new()),
        make_ir_file("/project/src/billing/invoice.ts", Vec::new()),
    ];
    let manifest = bootstrap_manifest(&make_scan_index("/project", files), &BootstrapOptions::default());
    let mut ids: Vec<&String> = manifest.subsystems.iter().map(|s| &s.id).collect();
    let before = ids.len();
    ids.sort();
    ids.dedup();
    assert_eq!(ids.len(), before);
    assert!(validate_system_manifest(&manifest).is_empty());
}

#[test]
fn test_bootstrap_monorepo_layout() {
    let files = vec![
        make_ir_file("/project/packages/auth/src/handler.ts", Vec::new()),
        make_ir_file("/project/packages/auth/src/middleware.ts", Vec::new()),
        make_ir_file("/project/packages/billing/src/invoice.ts", Vec::new()),
        make_ir_file("/project/packages/billing/src/payment.ts", Vec::new()),
        make_ir_file("/project/apps/web/src/index.ts", Vec::new()),
        make_ir_file("/project/apps/web/src/routes.ts", Vec::new()),
    ];
    let manifest = bootstrap_manifest(&make_scan_index("/project", files), &BootstrapOptions::default());
    assert!(!manifest.subsystems.is_empty());
    let ids: Vec<&str> = manifest.subsystems.iter().map(|s| s.id.as_str()).collect();
    assert!(ids.iter().any(|id| id.contains("auth")));
    assert!(ids.iter().any(|id| id.contains("billing")));
    assert!(ids.iter().any(|id| id.contains("web")));
}

#[test]
fn test_bootstrap_produces_valid_system_manifest_schema() {
    let files = vec![
        make_ir_file("/project/src/auth/handler.ts", Vec::new()),
        make_ir_file("/project/src/billing/invoice.ts", Vec::new()),
    ];
    let manifest = bootstrap_manifest(&make_scan_index("/project", files), &BootstrapOptions::default());
    assert!(validate_system_manifest(&manifest).is_empty());
    for sub in &manifest.subsystems {
        assert!(manifest.domains.iter().any(|(k, _)| *k == sub.domain));
    }
}
