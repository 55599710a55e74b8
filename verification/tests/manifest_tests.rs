use domain_scan::ir::{
    BuildStatus, Confidence, EntityKind, EntitySummary, InterfaceDef, InterfaceKind, IrFile,
    Language, MatchResult, MatchStrategy, MatchedEntity, Span, Visibility,
};
use domain_scan::manifest::{
    is_dot_notation, is_glob_pattern, is_operation_format, is_pascal_case, is_snake_case,
    validate_glob_pattern, validate_manifest, validate_manifest_globs, Manifest,
    ManifestStatus, ManifestSubsystem,
};
use domain_scan::matching::{flatten, match_entities};
use domain_scan::stats::build_index;
use domain_scan::writeback::{write_back, write_back_system};
use domain_scan::manifest::{
    parse_manifest_status, Connection, ConnectionType, DomainDef, ManifestMeta, SystemManifest,
};
use domain_scan::DomainScanError;

fn strings(v: &[&str]) -> Vec<String> {
    v.iter().map(|s| s.to_string()).collect()
}

fn sub(id: &str, name: &str, status: ManifestStatus, path: &str) -> ManifestSubsystem {
    ManifestSubsystem {
        id: id.to_string(),
        name: name.to_string(),
        domain: "platform-core".to_string(),
        status,
        file_path: path.to_string(),
        interfaces: Vec::new(),
        operations: Vec::new(),
        tables: Vec::new(),
        events: Vec::new(),
        children: Vec::new(),
        dependencies: Vec::new(),
    }
}

fn sample_manifest() -> Manifest {
    let mut jwt = sub("auth-jwt", "JWT Provider", ManifestStatus::Built, "/project/src/auth/jwt/");
    jwt.interfaces = strings(&["JWTClaims"]);
    let mut auth = sub("auth", "Auth & Identity", ManifestStatus::Built, "/project/src/auth/");
    auth.interfaces = strings(&["AuthPrincipal"]);
    auth.operations = strings(&["signToken()", "verifyToken()"]);
    auth.tables = strings(&["users"]);
    auth.events = strings(&["session.created"]);
    auth.children = vec![jwt];
    auth.dependencies = strings(&["billing"]);
    let billing = sub("billing", "Billing", ManifestStatus::New, "/project/src/billing/");
    Manifest { subsystems: vec![auth, billing] }
}

fn make_iface(name: &str, path: &str) -> InterfaceDef {
    InterfaceDef {
        name: name.to_string(),
        file: path.to_string(),
        span: Span::default(),
        visibility: Visibility::Public,
        generics: Vec::new(),
        extends: Vec::new(),
        methods: Vec::new(),
        properties: Vec::new(),
        language_kind: InterfaceKind::Interface,
        decorators: Vec::new(),
    }
}

fn file_with_iface(path: &str, iface: &str) -> IrFile {
    let mut file = IrFile::new(path.to_string(), Language::TypeScript, "hash1".to_string(), BuildStatus::Built);
    file.interfaces = vec![make_iface(iface, path)];
    file
}

fn summary(name: &str, path: &str) -> EntitySummary {
    EntitySummary {
        name: name.to_string(),
        kind: EntityKind::Interface,
        file: path.to_string(),
        line: 1,
        language: Language::TypeScript,
        build_status: BuildStatus::Built,
        confidence: Confidence::High,
    }
}

fn index_of(files: Vec<IrFile>) -> domain_scan::ir::ScanIndex {
    build_index("/project".to_string(), "0.1.0".to_string(), "t".to_string(), files, 0, 0, 0)
}

#[test]
fn test_naming_conventions() {
    assert!(is_pascal_case("AuthPrincipal"));
    assert!(is_pascal_case("A"));
    assert!(!is_pascal_case("authPrincipal"));
    assert!(!is_pascal_case("auth_principal"));
    assert!(!is_pascal_case(""));

    assert!(is_operation_format("signToken()"));
    assert!(is_operation_format("a()"));
    assert!(!is_operation_format("SignToken()"));
    assert!(!is_operation_format("signToken"));
    assert!(!is_operation_format("()"));

    assert!(is_snake_case("users"));
    assert!(is_snake_case("auth_login_sessions"));
    assert!(!is_snake_case("Users"));
    assert!(!is_snake_case("authLogin"));

    assert!(is_dot_notation("session.created"));
    assert!(is_dot_notation("auth.session.created"));
    assert!(!is_dot_notation("session"));
    assert!(!is_dot_notation("Session.created"));
}

#[test]
fn test_is_glob_pattern_detection() {
    assert!(is_glob_pattern("src/services/scheduling*"));
    assert!(is_glob_pattern("packages/*/src/"));
    assert!(is_glob_pattern("src/[abc]/"));
    assert!(is_glob_pattern("src/{a,b}/"));
    assert!(!is_glob_pattern("src/services/"));
    assert!(!is_glob_pattern("/project/src/auth/"));
}

#[test]
fn test_validate_glob_pattern_valid() {
    assert!(validate_glob_pattern("packages/*/src/**").is_ok());
    assert!(validate_glob_pattern("src/services/scheduling*").is_ok());
}

#[test]
fn test_validate_glob_pattern_invalid() {
    let result = validate_glob_pattern("[unclosed");
    match result {
        Err(DomainScanError::InvalidInput(m)) => assert!(m.contains("Invalid glob pattern")),
        other => panic!("unexpected: {other:?}"),
    }
}

#[test]
fn test_validate_manifest_globs_valid() {
    let manifest = Manifest {
        subsystems: vec![sub("sched", "Scheduling", ManifestStatus::New, "src/services/scheduling*")],
    };
    assert!(validate_manifest_globs(&manifest).is_ok());
}

#[test]
fn test_validate_manifest_globs_invalid() {
    let manifest = Manifest {
        subsystems: vec![sub("bad", "Bad Glob", ManifestStatus::New, "[unclosed")],
    };
    let result = validate_manifest_globs(&manifest);
    assert!(result.is_err());
    if let Err(DomainScanError::InvalidInput(err_msg)) = result {
        assert!(err_msg.contains("Invalid glob pattern"), "Error should be structured DomainScanError, got: {err_msg}");
    } else {
        panic!("expected an invalid input error");
    }
}

#[test]
fn test_flatten_manifest() {
    let manifest = sample_manifest();
    let flat = flatten(&manifest);
    assert_eq!(flat.len(), 3);
    assert_eq!(flat[0].id, "auth");
    assert_eq!(flat[1].id, "auth-jwt");
    assert_eq!(flat[2].id, "billing");
}

#[test]
fn test_match_by_file_path() {
    let manifest = sample_manifest();
    let index = index_of(vec![file_with_iface("/project/src/auth/jwt/token.ts", "TokenService")]);
    let result = match_entities(&index, &manifest);
    assert_eq!(result.matched.len(), 1);
    assert_eq!(result.matched[0].subsystem_id, "auth-jwt");
    assert_eq!(result.matched[0].match_strategy, MatchStrategy::FilePath);
    assert!(result.unmatched.is_empty());
}

#[test]
fn test_match_by_name() {
    let manifest = sample_manifest();
    let index = index_of(vec![file_with_iface("/project/src/other/principal.ts", "AuthPrincipal")]);
    let result = match_entities(&index, &manifest);
    assert_eq!(result.matched.len(), 1);
    assert_eq!(result.matched[0].subsystem_id, "auth");
    assert_eq!(result.matched[0].match_strategy, MatchStrategy::NameMatch);
}

#[test]
fn test_unmatched_entity() {
    let manifest = sample_manifest();
    let index = index_of(vec![file_with_iface("/project/src/random/foo.ts", "UnknownThing")]);
    let result = match_entities(&index, &manifest);
    assert!(result.matched.is_empty());
    assert_eq!(result.unmatched.len(), 1);
}

#[test]
fn test_coverage_percent() {
    let manifest = sample_manifest();
    let index = index_of(vec![file_with_iface("/project/src/auth/login.ts", "LoginService")]);
    let result = match_entities(&index, &manifest);
    assert_eq!(result.total_entities, 1);
    assert_eq!(result.matched.len(), result.total_entities);
}

#[test]
fn test_empty_manifest() {
    let manifest = Manifest { subsystems: vec![] };
    let index = index_of(vec![]);
    let result = match_entities(&index, &manifest);
    assert_eq!(result.total_entities, 0);
    assert!(result.matched.is_empty());
}

#[test]
fn test_validate_manifest_clean() {
    let violations = validate_manifest(&sample_manifest());
    assert!(violations.is_empty());
}

#[test]
fn test_validate_manifest_violations() {
    let mut bad = sub("bad", "Bad Names", ManifestStatus::Built, "/project/src/");
    bad.interfaces = strings(&["lowercase_bad"]);
    bad.operations = strings(&["MissingParens"]);
    bad.tables = strings(&["CamelCase"]);
    bad.events = strings(&["no_dots"]);
    let violations = validate_manifest(&Manifest { subsystems: vec![bad] });
    assert_eq!(violations.len(), 4);
}

#[test]
fn test_write_back_adds_interface() {
    let mut manifest = sample_manifest();
    let index = index_of(vec![IrFile::new(
        "/project/src/auth/login.ts".to_string(),
        Language::TypeScript,
        "hash1".to_string(),
        BuildStatus::Built,
    )]);
    let match_result = MatchResult {
        matched: vec![MatchedEntity {
            entity: summary("NewInterface", "/project/src/auth/login.ts"),
            subsystem_id: "auth".to_string(),
            subsystem_name: "Auth & Identity".to_string(),
            match_strategy: MatchStrategy::FilePath,
        }],
        unmatched: vec![],
        total_entities: 1,
    };
    write_back(&mut manifest, &match_result, &index);
    assert!(manifest.subsystems[0].interfaces.contains(&"NewInterface".to_string()));
    assert!(manifest.subsystems[0].interfaces.contains(&"AuthPrincipal".to_string()));
}

#[test]
fn test_write_back_no_duplicates() {
    let mut manifest = sample_manifest();
    let index = index_of(vec![IrFile::new(
        "/project/src/auth/login.ts".to_string(),
        Language::TypeScript,
        "hash1".to_string(),
        BuildStatus::Built,
    )]);
    let match_result = MatchResult {
        matched: vec![MatchedEntity {
            entity: summary("AuthPrincipal", "/project/src/auth/login.ts"),
            subsystem_id: "auth".to_string(),
            subsystem_name: "Auth & Identity".to_string(),
            match_strategy: MatchStrategy::FilePath,
        }],
        unmatched: vec![],
        total_entities: 1,
    };
    let before_count = manifest.subsystems[0].interfaces.len();
    write_back(&mut manifest, &match_result, &index);
    assert_eq!(manifest.subsystems[0].interfaces.len(), before_count);
}

#[test]
fn write_back_twice_changes_nothing_more() {
    let mut once = sample_manifest();
    let index = index_of(vec![]);
    let match_result = MatchResult {
        matched: vec![MatchedEntity {
            entity: summary("Extra", "/project/src/billing/x.ts"),
            subsystem_id: "billing".to_string(),
            subsystem_name: "Billing".to_string(),
            match_strategy: MatchStrategy::FilePath,
        }],
        unmatched: vec![],
        total_entities: 1,
    };
    write_back(&mut once, &match_result, &index);
    let mut twice = sample_manifest();
    write_back(&mut twice, &match_result, &index);
    write_back(&mut twice, &match_result, &index);
    assert_eq!(once, twice);
    assert_eq!(once.subsystems[1].interfaces, vec!["Extra".to_string()]);
}

#[test]
fn matched_and_unmatched_partition_all_entities() {
    let manifest = sample_manifest();
    let index = index_of(vec![
        file_with_iface("/project/src/auth/a.ts", "A"),
        file_with_iface("/project/src/zzz/b.ts", "B"),
        file_with_iface("/project/src/billing/c.ts", "C"),
    ]);
    let result = match_entities(&index, &manifest);
    assert_eq!(result.matched.len() + result.unmatched.len(), result.total_entities);
    assert_eq!(result.total_entities, 3);
    assert_eq!(result.unmatched.len(), 1);
    assert_eq!(result.unmatched[0].entity.name, "B");
}

#[test]
fn manifest_status_maps_to_build_status() {
    assert_eq!(ManifestStatus::Built.to_build_status(), BuildStatus::Built);
    assert_eq!(ManifestStatus::Rebuild.to_build_status(), BuildStatus::Rebuild);
    assert_eq!(ManifestStatus::New.to_build_status(), BuildStatus::Unbuilt);
    assert_eq!(ManifestStatus::Boilerplate.to_build_status(), BuildStatus::Unbuilt);
}

#[test]
fn manifest_status_words_ignore_case() {
    assert_eq!(parse_manifest_status("Built"), Ok(ManifestStatus::Built));
    assert_eq!(parse_manifest_status("NEW"), Ok(ManifestStatus::New));
    assert_eq!(parse_manifest_status("boilerplate"), Ok(ManifestStatus::Boilerplate));
    assert_eq!(parse_manifest_status("Shipped"), Err("unknown manifest status: shipped".to_string()));
}

#[test]
fn system_manifest_write_back_records_entities() {
    let mut system = SystemManifest {
        meta: ManifestMeta { name: "sys".to_string(), version: String::new(), description: String::new() },
        domains: vec![],
        subsystems: sample_manifest().subsystems,
        connections: vec![],
    };
    let index = index_of(vec![]);
    let match_result = MatchResult {
        matched: vec![MatchedEntity {
            entity: summary("Ledger", "/project/src/billing/ledger.ts"),
            subsystem_id: "billing".to_string(),
            subsystem_name: "Billing".to_string(),
            match_strategy: MatchStrategy::FilePath,
        }],
        unmatched: vec![],
        total_entities: 1,
    };
    write_back_system(&mut system, &match_result, &index);
    assert_eq!(system.subsystems[1].interfaces, vec!["Ledger".to_string()]);
    assert_eq!(system.as_manifest().subsystems.len(), 2);
}

fn one_sub_manifest(id: &str, path: &str, status: ManifestStatus) -> Manifest {
    Manifest { subsystems: vec![sub(id, id, status, path)] }
}

fn index_at(root: &str, files: Vec<IrFile>) -> domain_scan::ir::ScanIndex {
    build_index(root.to_string(), "0.1.0".to_string(), "t".to_string(), files, 0, 0, 0)
}

fn one_match(name: &str, path: &str, id: &str) -> MatchResult {
    MatchResult {
        matched: vec![MatchedEntity {
            entity: summary(name, path),
            subsystem_id: id.to_string(),
            subsystem_name: id.to_string(),
            match_strategy: MatchStrategy::FilePath,
        }],
        unmatched: vec![],
        total_entities: 1,
    }
}

#[test]
fn test_relative_filepath_matching() {
    let manifest = one_sub_manifest("auth", "packages/auth/", ManifestStatus::New);
    let index = index_at("/abs/project", vec![file_with_iface("/abs/project/packages/auth/handler.ts", "AuthHandler")]);
    let result = match_entities(&index, &manifest);
    assert_eq!(result.matched.len(), 1);
    assert_eq!(result.matched[0].subsystem_id, "auth");
    assert_eq!(result.matched[0].match_strategy, MatchStrategy::FilePath);
}

#[test]
fn test_absolute_filepath_still_works() {
    let index = index_of(vec![file_with_iface("/project/src/auth/login.ts", "LoginService")]);
    let result = match_entities(&index, &sample_manifest());
    assert_eq!(result.matched.len(), 1);
    assert_eq!(result.matched[0].subsystem_id, "auth");
}

#[test]
fn test_mixed_relative_absolute_paths() {
    let manifest = Manifest {
        subsystems: vec![
            sub("auth", "Auth", ManifestStatus::New, "packages/auth/"),
            sub("billing", "Billing", ManifestStatus::New, "/abs/project/packages/billing/"),
        ],
    };
    let index = index_at(
        "/abs/project",
        vec![
            file_with_iface("/abs/project/packages/auth/handler.ts", "AuthHandler"),
            file_with_iface("/abs/project/packages/billing/invoice.ts", "InvoiceService"),
        ],
    );
    let result = match_entities(&index, &manifest);
    assert_eq!(result.matched.len(), 2);
    assert!(result.matched.iter().any(|m| m.subsystem_id == "auth"));
    assert!(result.matched.iter().any(|m| m.subsystem_id == "billing"));
}

#[test]
fn test_path_specificity_sibling_subsystems() {
    let manifest = Manifest {
        subsystems: vec![
            sub("platform-core", "Platform Core", ManifestStatus::New, "/project/packages/platform/"),
            sub("test-utils", "Test Utils", ManifestStatus::New, "/project/packages/platform/test-utils/"),
        ],
    };
    let index = index_of(vec![file_with_iface("/project/packages/platform/test-utils/helpers.ts", "TestHelper")]);
    let result = match_entities(&index, &manifest);
    assert_eq!(result.matched.len(), 1);
    assert_eq!(result.matched[0].subsystem_id, "test-utils");
}

#[test]
fn test_path_specificity_parent_child_hierarchy() {
    let index = index_of(vec![file_with_iface("/project/src/auth/jwt/token.ts", "TokenService")]);
    let result = match_entities(&index, &sample_manifest());
    assert_eq!(result.matched.len(), 1);
    assert_eq!(result.matched[0].subsystem_id, "auth-jwt");
}

#[test]
fn test_child_subsystem_takes_precedence_over_parent() {
    let index = index_of(vec![file_with_iface("/project/src/auth/jwt/claims.ts", "Claims")]);
    let result = match_entities(&index, &sample_manifest());
    assert_eq!(result.matched[0].subsystem_id, "auth-jwt");
}

#[test]
fn test_parent_subsystem_matches_when_not_in_child_path() {
    let index = index_of(vec![file_with_iface("/project/src/auth/session.ts", "Session")]);
    let result = match_entities(&index, &sample_manifest());
    assert_eq!(result.matched.len(), 1);
    assert_eq!(result.matched[0].subsystem_id, "auth");
}

#[test]
fn test_write_back_no_status_upgrade_new() {
    let mut manifest = one_sub_manifest("auth", "/project/src/auth/", ManifestStatus::New);
    let index = index_of(vec![]);
    write_back(&mut manifest, &one_match("LoginService", "/project/src/auth/login.ts", "auth"), &index);
    assert_eq!(manifest.subsystems[0].status, ManifestStatus::New);
}

#[test]
fn test_write_back_no_status_upgrade_boilerplate() {
    let mut manifest = one_sub_manifest("auth", "/project/src/auth/", ManifestStatus::Boilerplate);
    let index = index_of(vec![]);
    write_back(&mut manifest, &one_match("LoginService", "/project/src/auth/login.ts", "auth"), &index);
    assert_eq!(manifest.subsystems[0].status, ManifestStatus::Boilerplate);
}

#[test]
fn test_write_back_no_status_downgrade_built() {
    let mut manifest = one_sub_manifest("auth", "/project/src/auth/", ManifestStatus::Built);
    let index = index_of(vec![]);
    write_back(&mut manifest, &one_match("LoginService", "/project/src/auth/login.ts", "auth"), &index);
    assert_eq!(manifest.subsystems[0].status, ManifestStatus::Built);
}

#[test]
fn test_glob_filepath_matches_individual_files() {
    let manifest = one_sub_manifest("scheduling", "/project/src/services/scheduling*", ManifestStatus::New);
    let index = index_of(vec![
        file_with_iface("/project/src/services/scheduling.ts", "Scheduler"),
        file_with_iface("/project/src/services/schedulingUtils.ts", "SchedulerUtils"),
        file_with_iface("/project/src/services/billing.ts", "BillingService"),
    ]);
    let result = match_entities(&index, &manifest);
    assert_eq!(result.matched.len(), 2);
    assert_eq!(result.unmatched.len(), 1);
    for m in &result.matched {
        assert_eq!(m.subsystem_id, "scheduling");
        assert_eq!(m.match_strategy, MatchStrategy::FilePath);
    }
}

#[test]
fn test_glob_wildcard_matches_all_packages() {
    let manifest = one_sub_manifest("all-packages", "/project/packages/*/src/**", ManifestStatus::New);
    let index = index_of(vec![
        file_with_iface("/project/packages/auth/src/handler.ts", "AuthHandler"),
        file_with_iface("/project/packages/billing/src/stripe.ts", "StripeClient"),
        file_with_iface("/project/apps/web/src/index.ts", "WebApp"),
    ]);
    let result = match_entities(&index, &manifest);
    assert_eq!(result.matched.len(), 2);
    assert_eq!(result.unmatched.len(), 1);
}

#[test]
fn test_glob_does_not_regress_non_glob_paths() {
    let index = index_of(vec![file_with_iface("/project/src/auth/login.ts", "LoginService")]);
    let result = match_entities(&index, &sample_manifest());
    assert_eq!(result.matched.len(), 1);
    assert_eq!(result.matched[0].subsystem_id, "auth");
}

fn sample_system_manifest() -> SystemManifest {
    let mut auth = sub("auth", "Auth & Identity", ManifestStatus::Built, "/project/src/auth/");
    auth.interfaces = strings(&["AuthPrincipal"]);
    auth.tables = strings(&["users"]);
    auth.dependencies = strings(&["billing"]);
    let mut billing = sub("billing", "Billing", ManifestStatus::New, "/project/src/billing/");
    billing.domain = "services".to_string();
    SystemManifest {
        meta: ManifestMeta { name: "TestSystem".to_string(), version: "1.0".to_string(), description: "A test system".to_string() },
        domains: vec![
            ("platform-core".to_string(), DomainDef { label: "Platform Core".to_string(), color: "#3b82f6".to_string() }),
            ("services".to_string(), DomainDef { label: "Services".to_string(), color: "#f97316".to_string() }),
        ],
        subsystems: vec![auth, billing],
        connections: vec![
            Connection { from: "auth".to_string(), to: "billing".to_string(), label: "checks subscription".to_string(), connection_type: ConnectionType::DependsOn },
            Connection { from: "billing".to_string(), to: "auth".to_string(), label: "validates identity".to_string(), connection_type: ConnectionType::Uses },
        ],
    }
}

#[test]
fn test_system_manifest_as_manifest() {
    let manifest = sample_system_manifest().as_manifest();
    assert_eq!(manifest.subsystems.len(), 2);
    assert_eq!(manifest.subsystems[0].id, "auth");
}

#[test]
fn test_system_manifest_matching() {
    let manifest = sample_system_manifest().as_manifest();
    let index = index_of(vec![file_with_iface("/project/src/auth/login.ts", "LoginService")]);
    let result = match_entities(&index, &manifest);
    assert_eq!(result.matched.len(), 1);
    assert_eq!(result.matched[0].subsystem_id, "auth");
}

#[test]
fn test_validate_system_manifest_clean() {
    assert!(domain_scan::manifest::validate_system_manifest(&sample_system_manifest()).is_empty());
}

#[test]
fn test_validate_system_manifest_semantic_violations() {
    let mut first = sub("auth", "Auth", ManifestStatus::New, "/project/src/auth/");
    first.domain = "missing-domain".to_string();
    first.dependencies = strings(&["ghost-subsystem"]);
    let mut second = sub("auth", "Duplicate Auth", ManifestStatus::New, "/project/src/auth-2/");
    second.domain = "platform".to_string();
    let manifest = SystemManifest {
        meta: ManifestMeta { name: "Bad".to_string(), version: "1.0".to_string(), description: String::new() },
        domains: vec![("platform".to_string(), DomainDef { label: "Platform".to_string(), color: "#3b82f6".to_string() })],
        subsystems: vec![first, second],
        connections: vec![Connection {
            from: "auth".to_string(),
            to: "missing-target".to_string(),
            label: "calls".to_string(),
            connection_type: ConnectionType::DependsOn,
        }],
    };
    let violations = domain_scan::manifest::validate_system_manifest(&manifest);
    assert!(violations.iter().any(|v| v.field == "domain" && v.value == "missing-domain"));
    assert!(violations.iter().any(|v| v.field == "dependencies" && v.value == "ghost-subsystem"));
    assert!(violations.iter().any(|v| v.field == "connections.to" && v.value == "missing-target"));
    assert!(violations.iter().any(|v| v.field == "id" && v.value == "auth"));
}

#[test]
fn test_multiple_entities_distributed_across_parent_and_child() {
    let manifest = sample_manifest();
    let file_parent = file_with_iface("/project/src/auth/login.ts", "LoginService");
    let file_child = file_with_iface("/project/src/auth/jwt/verify.ts", "TokenVerifier");
    let file_unmatched = file_with_iface("/project/src/unknown/thing.ts", "UnknownThing");
    let index = index_of(vec![file_parent, file_child, file_unmatched]);
    let result = match_entities(&index, &manifest);

    assert_eq!(result.matched.len(), 2);
    assert_eq!(result.unmatched.len(), 1);
    let parent_match = result.matched.iter().find(|m| m.entity.name == "LoginService");
    let child_match = result.matched.iter().find(|m| m.entity.name == "TokenVerifier");
    assert_eq!(parent_match.map(|m| m.subsystem_id.as_str()), Some("auth"));
    assert_eq!(child_match.map(|m| m.subsystem_id.as_str()), Some("auth-jwt"));
}

#[test]
fn test_glob_relative_path_resolved_against_scan_root() {
    let mut services = sub("services", "Services", ManifestStatus::Built, "src/services/**");
    services.domain = "core".to_string();
    let manifest = Manifest { subsystems: vec![services] };
    let index = index_of(vec![file_with_iface("/project/src/services/auth/handler.ts", "AuthHandler")]);
    let result = match_entities(&index, &manifest);
    assert_eq!(result.matched.len(), 1, "Relative glob should match when resolved against scan root");
    assert_eq!(result.matched[0].subsystem_id, "services");
}

#[test]
fn globs_are_checked_at_any_depth() {
    let c = sub("c", "C", ManifestStatus::New, "[unclosed");
    let mut b = sub("b", "B", ManifestStatus::New, "src/a/b");
    b.children = vec![c];
    let mut a = sub("a", "A", ManifestStatus::New, "src/a");
    a.children = vec![b];
    let manifest = Manifest { subsystems: vec![a] };
    match validate_manifest_globs(&manifest) {
        Err(DomainScanError::InvalidInput(m)) => assert!(m.contains("Invalid glob pattern")),
        other => panic!("unexpected: {other:?}"),
    }
}

fn matched_kind(name: &str, kind: EntityKind, id: &str) -> MatchedEntity {
    let mut entity = summary(name, "/project/src/auth/x.ts");
    entity.kind = kind;
    MatchedEntity {
        entity,
        subsystem_id: id.to_string(),
        subsystem_name: "Auth & Identity".to_string(),
        match_strategy: MatchStrategy::FilePath,
    }
}

#[test]
fn write_back_appends_only_missing_names() {
    let mut manifest = sample_manifest();
    let index = index_of(vec![]);
    let match_result = MatchResult {
        matched: vec![
            matched_kind("AuthPrincipal", EntityKind::Interface, "auth"),
            matched_kind("signToken", EntityKind::Method, "auth"),
            matched_kind("refresh", EntityKind::Function, "auth"),
            matched_kind("sessions", EntityKind::Schema, "auth"),
            matched_kind("Fresh", EntityKind::Interface, "auth"),
            matched_kind("Fresh", EntityKind::Interface, "auth"),
            matched_kind("Helper", EntityKind::Class, "auth"),
            matched_kind("Deep", EntityKind::Interface, "auth-jwt"),
        ],
        unmatched: vec![],
        total_entities: 8,
    };
    write_back(&mut manifest, &match_result, &index);
    let auth = &manifest.subsystems[0];
    assert_eq!(auth.interfaces, strings(&["AuthPrincipal", "Fresh"]));
    assert_eq!(auth.operations, strings(&["signToken()", "verifyToken()", "refresh()"]));
    assert_eq!(auth.tables, strings(&["users", "sessions"]));
    assert_eq!(auth.events, strings(&["session.created"]));
    assert_eq!(auth.dependencies, strings(&["billing"]));
    assert_eq!(auth.children[0].interfaces, strings(&["JWTClaims", "Deep"]));
    assert_eq!(manifest.subsystems[1].interfaces, Vec::<String>::new());
}

#[test]
fn system_violations_list_naming_first_then_integrity() {
    let mut parent = sub("core", "Core", ManifestStatus::Built, "/project/src/core/");
    parent.interfaces = strings(&["bad_name"]);
    let mut child = sub("core-child", "Child", ManifestStatus::New, "");
    child.domain = "services".to_string();
    parent.children = vec![child];
    let twin = sub("core", "Twin", ManifestStatus::New, "/project/src/twin/");
    let manifest = SystemManifest {
        meta: ManifestMeta { name: "S".to_string(), version: "1".to_string(), description: String::new() },
        domains: vec![],
        subsystems: vec![parent, twin],
        connections: vec![Connection {
            from: "nowhere".to_string(),
            to: "core".to_string(),
            label: "x".to_string(),
            connection_type: ConnectionType::Uses,
        }],
    };
    let v = domain_scan::manifest::validate_system_manifest(&manifest);
    let fields: Vec<&str> = v.iter().map(|x| x.field.as_str()).collect();
    assert_eq!(fields, vec!["interfaces", "id", "filePath", "domain", "connections.from"]);
    assert_eq!(v[1].subsystem_id, "core");
    assert_eq!(v[2].subsystem_id, "core-child");
    assert_eq!(v[3].value, "services");
    assert_eq!(v[3].expected, "same domain as parent (platform-core)");
    assert_eq!(v[4].value, "nowhere");
}
