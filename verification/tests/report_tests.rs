use domain_scan::input_validation::check_json_payload;
use domain_scan::ir::{
    BuildStatus, ClassDef, Confidence, EntityKind, EntitySummary, HttpMethod, ImplDef, InterfaceDef,
    InterfaceKind, IrFile, Language, MatchResult, MatchStrategy, MatchedEntity, MethodDef, MethodSignature,
    RouteDef, ScanIndex, SchemaDef, SchemaField, SchemaKind, ServiceDef, ServiceKind, Span, UnmatchedEntity,
    ValidationResult, Violation, ViolationSeverity, Visibility,
};
use domain_scan::json::JsonValue;
use domain_scan::manifest::ManifestViolation;
use domain_scan::report::{
    every_implementation, every_method, impls_compact_text, impls_text, implementors_compact_text,
    interface_kind_str, interfaces_compact_text, interfaces_text, check_json_conflicts, languages_by_count,
    match_text, methods_compact_text, methods_text, schemas_compact_text, schemas_named, schemas_text,
    search_filter, search_kinds, select_methods, services_compact_text, services_named, services_text,
    shows_timing, stats_text, summaries_compact_text, summaries_text, trait_impls_text, validation_text,
    violations_text,
};
use domain_scan::stats::build_index;

fn span(line: u32) -> Span {
    Span { start_line: line, ..Span::default() }
}

fn table(header: &[&str], rows: Vec<Vec<&str>>) -> String {
    let mut t = comfy_table::Table::new();
    t.set_header(header.to_vec());
    for r in rows {
        t.add_row(r);
    }
    t.to_string()
}

fn sig(name: &str, is_async: bool, ret: Option<&str>) -> MethodSignature {
    MethodSignature {
        name: name.to_string(),
        span: Span::default(),
        is_async,
        parameters: Vec::new(),
        return_type: ret.map(String::from),
        has_default: false,
    }
}

fn method(name: &str, owner: Option<&str>, is_async: bool) -> MethodDef {
    MethodDef {
        name: name.to_string(),
        file: "src/a.rs".to_string(),
        span: span(4),
        visibility: Visibility::Public,
        is_async,
        is_static: false,
        is_generator: false,
        parameters: Vec::new(),
        return_type: None,
        decorators: Vec::new(),
        owner: owner.map(String::from),
        implements: None,
    }
}

fn iface(name: &str, kind: InterfaceKind, extends: Vec<&str>, methods: Vec<MethodSignature>) -> InterfaceDef {
    InterfaceDef {
        name: name.to_string(),
        file: "src/types.ts".to_string(),
        span: span(3),
        visibility: Visibility::Public,
        generics: Vec::new(),
        extends: extends.into_iter().map(String::from).collect(),
        methods,
        properties: Vec::new(),
        language_kind: kind,
        decorators: Vec::new(),
    }
}

fn service(name: &str, kind: ServiceKind, routes: Vec<RouteDef>, deps: Vec<&str>) -> ServiceDef {
    ServiceDef {
        name: name.to_string(),
        file: "src/svc.ts".to_string(),
        span: span(10),
        kind,
        methods: vec![method("handle", None, false)],
        dependencies: deps.into_iter().map(String::from).collect(),
        decorators: Vec::new(),
        routes,
    }
}

fn schema(name: &str, framework: &str, fields: Vec<SchemaField>) -> SchemaDef {
    SchemaDef {
        name: name.to_string(),
        file: "src/schema.ts".to_string(),
        span: span(7),
        kind: SchemaKind::ValidationSchema,
        fields,
        source_framework: framework.to_string(),
        table_name: None,
        derives: Vec::new(),
        visibility: Visibility::Public,
    }
}

fn field(name: &str, ty: Option<&str>, optional: bool) -> SchemaField {
    SchemaField {
        name: name.to_string(),
        type_annotation: ty.map(String::from),
        is_optional: optional,
        is_primary_key: false,
        constraints: Vec::new(),
    }
}

fn impl_def(target: &str, trait_name: Option<&str>, methods: Vec<MethodDef>) -> ImplDef {
    ImplDef {
        target: target.to_string(),
        trait_name: trait_name.map(String::from),
        file: "src/a.rs".to_string(),
        span: span(20),
        methods,
    }
}

fn class(name: &str, methods: Vec<MethodDef>) -> ClassDef {
    ClassDef {
        name: name.to_string(),
        file: "src/a.rs".to_string(),
        span: span(1),
        visibility: Visibility::Public,
        generics: Vec::new(),
        extends: None,
        implements: Vec::new(),
        methods,
        properties: Vec::new(),
        is_abstract: false,
        decorators: Vec::new(),
    }
}

fn summary(name: &str, kind: EntityKind, line: u32) -> EntitySummary {
    EntitySummary {
        name: name.to_string(),
        kind,
        file: "src/a.rs".to_string(),
        line,
        language: Language::Rust,
        build_status: BuildStatus::Built,
        confidence: Confidence::High,
    }
}

fn index_with(file: IrFile) -> ScanIndex {
    build_index("/p".to_string(), "0.1.0".to_string(), "t".to_string(), vec![file], 0, 0, 0)
}

#[test]
fn interface_kind_words() {
    assert_eq!(interface_kind_str(&InterfaceKind::Interface), "interface");
    assert_eq!(interface_kind_str(&InterfaceKind::AbstractClass), "abstract");
    assert_eq!(interface_kind_str(&InterfaceKind::PureVirtual), "virtual");
    assert_eq!(interface_kind_str(&InterfaceKind::Module), "module");
}

#[test]
fn interfaces_listing_has_rows_and_methods() {
    let a = iface("Repo", InterfaceKind::Trait, vec!["Base", "Other"], vec![sig("find", true, Some("User")), sig("save", false, None)]);
    let b = iface("Empty", InterfaceKind::Interface, vec![], vec![]);
    let items = vec![&a, &b];
    let expected_table = table(
        &["Language", "Kind", "Name", "Methods", "Extends", "File"],
        vec![
            vec!["trait", "trait", "Repo", "2", "Base, Other", "src/types.ts:3"],
            vec!["interface", "interface", "Empty", "0", "", "src/types.ts:3"],
        ],
    );
    assert_eq!(interfaces_text(&items, false), expected_table);
    assert_eq!(
        interfaces_text(&items, true),
        format!("{expected_table}\n\nRepo methods:\n  async find(...) -> User\n  save(...) -> void\n")
    );
    assert_eq!(
        interfaces_compact_text(&items),
        "interface:Repo [src/types.ts] 2 methods\ninterface:Empty [src/types.ts] 0 methods\n"
    );
}

#[test]
fn services_filtered_by_name_and_listed() {
    let route = RouteDef { method: HttpMethod::Get, path: "/users".to_string(), handler: "list".to_string() };
    let a = service("UserController", ServiceKind::HttpController, vec![route], vec!["Db", "Log"]);
    let b = service("Worker", ServiceKind::Custom("cron".to_string()), vec![], vec![]);
    let kept = services_named(vec![&a, &b], &Some("User".to_string()), &None);
    assert_eq!(kept.len(), 1);
    assert_eq!(kept[0].name, "UserController");
    assert_eq!(services_named(vec![&a, &b], &None, &None).len(), 2);

    let both = vec![&a, &b];
    let expected = table(
        &["Kind", "Name", "Methods", "Routes", "File", "Dependencies"],
        vec![
            vec!["HttpController", "UserController", "1", "1", "src/svc.ts:10", "Db, Log"],
            vec!["Custom(\"cron\")", "Worker", "1", "0", "src/svc.ts:10", ""],
        ],
    );
    assert_eq!(
        services_text(&both, true, true),
        format!("{expected}\n\nUserController routes:\n  Get /users -> list\n")
    );
    assert_eq!(
        services_compact_text(&both),
        "service:UserController [HttpController] 1 methods\nservice:Worker [Custom(\"cron\")] 1 methods\n"
    );
}

#[test]
fn methods_are_selected_and_listed() {
    let mut file = IrFile::new("src/a.rs".to_string(), Language::Rust, "h".to_string(), BuildStatus::Built);
    file.classes = vec![class("User", vec![method("load", Some("User"), true), method("name", Some("User"), false)])];
    file.services = vec![service("Svc", ServiceKind::Worker, vec![], vec![])];
    file.implementations = vec![impl_def("User", Some("Display"), vec![method("fmt", Some("User"), false)])];
    let index = index_with(file);

    let all: Vec<&str> = every_method(&index).iter().map(|m| m.name.as_str()).collect();
    assert_eq!(all, vec!["load", "name", "handle", "fmt"]);
    let owned: Vec<&str> = select_methods(&index, &Some("User".to_string()), false, &None, &None)
        .iter()
        .map(|m| m.name.as_str())
        .collect();
    assert_eq!(owned, vec!["load", "name", "fmt"]);
    let asynchronous = select_methods(&index, &None, true, &None, &None);
    assert_eq!(asynchronous.len(), 1);
    let named = select_methods(&index, &None, false, &None, &Some("a".to_string()));
    let names: Vec<&str> = named.iter().map(|m| m.name.as_str()).collect();
    assert_eq!(names, vec!["load", "name", "handle"]);

    let listed = select_methods(&index, &None, false, &None, &None);
    assert_eq!(
        methods_compact_text(&listed),
        "method:User.async load\nmethod:User.name\nmethod:handle\nmethod:User.fmt\n"
    );
    let first = vec![listed[0]];
    assert_eq!(
        methods_text(&first),
        table(&["Name", "Owner", "Async", "Visibility", "Return", "File"], vec![vec!["load", "User", "true", "Public", "-", "src/a.rs:4"]])
    );
}

#[test]
fn schemas_filtered_and_listed_with_fields() {
    let a = schema("UserSchema", "zod", vec![field("id", Some("string"), false), field("nick", None, true)]);
    let b = schema("Order", "drizzle", vec![]);
    let kept = schemas_named(vec![&a, &b], &Some("User".to_string()), &None);
    assert_eq!(kept.len(), 1);
    let both = vec![&a, &b];
    let expected = table(
        &["Framework", "Kind", "Name", "Fields", "File"],
        vec![
            vec!["zod", "ValidationSchema", "UserSchema", "2", "src/schema.ts:7"],
            vec!["drizzle", "ValidationSchema", "Order", "0", "src/schema.ts:7"],
        ],
    );
    assert_eq!(
        schemas_text(&both, true),
        format!("{expected}\n\nUserSchema fields:\n  id: string\n  nick?: ?\n")
    );
    assert_eq!(
        schemas_compact_text(&both),
        "schema:UserSchema [zod] 2 fields\nschema:Order [drizzle] 0 fields\n"
    );
}

#[test]
fn impls_are_listed() {
    let mut file = IrFile::new("src/a.rs".to_string(), Language::Rust, "h".to_string(), BuildStatus::Built);
    file.implementations = vec![
        impl_def("User", Some("Display"), vec![method("fmt", None, false)]),
        impl_def("User", None, vec![method("new", None, false), method("id", None, false)]),
    ];
    let index = index_with(file);
    let all = every_implementation(&index);
    assert_eq!(all.len(), 2);
    assert_eq!(
        impls_compact_text(&all),
        "impl:Display for User (1 methods)\nimpl:(inherent) for User (2 methods)\n"
    );
    assert_eq!(
        impls_text(&all, true),
        table(
            &["Target", "Trait", "Methods", "File", "Method Names"],
            vec![vec!["User", "Display", "1", "src/a.rs:20", "fmt"], vec!["User", "-", "2", "src/a.rs:20", "new, id"]],
        )
    );
    let display = index.get_implementations("Display");
    assert_eq!(
        trait_impls_text("Display", 1, &display, false),
        format!(
            "Trait: Display (1 implementors)\n\n{}",
            table(&["Implementor", "Methods", "File"], vec![vec!["User", "1", "src/a.rs:20"]])
        )
    );
    assert_eq!(
        implementors_compact_text("Display", &vec!["User".to_string(), "Admin".to_string()]),
        "impl:Display for User\nimpl:Display for Admin\n"
    );
}

#[test]
fn search_kind_lists_are_parsed() {
    assert_eq!(
        search_kinds(" Interface, class,bogus,TYPE_ALIAS,typealias,method"),
        vec![EntityKind::Interface, EntityKind::Class, EntityKind::TypeAlias, EntityKind::TypeAlias, EntityKind::Method]
    );
    assert!(search_kinds("nothing,here").is_empty());
    let f = search_filter("Repo".to_string(), &Some("impl, schema".to_string()));
    assert_eq!(f.name_pattern, Some("Repo".to_string()));
    assert_eq!(f.kind, Some(vec![EntityKind::Impl, EntityKind::Schema]));
    assert_eq!(search_filter("x".to_string(), &Some("bogus".to_string())).kind, None);
    assert_eq!(search_filter("x".to_string(), &None).kind, None);
}

#[test]
fn search_results_are_listed() {
    let found = vec![summary("Repo", EntityKind::Interface, 3), summary("run", EntityKind::Function, 9)];
    assert_eq!(summaries_compact_text(&found), "Interface:Repo [src/a.rs]\nFunction:run [src/a.rs]\n");
    assert_eq!(
        summaries_text(&found),
        table(
            &["Kind", "Name", "Language", "Status", "File"],
            vec![vec!["Interface", "Repo", "Rust", "Built", "src/a.rs:3"], vec!["Function", "run", "Rust", "Built", "src/a.rs:9"]],
        )
    );
}

#[test]
fn stats_listing_orders_languages_by_count() {
    let counts = vec![(Language::Go, 1), (Language::Rust, 3), (Language::Python, 1), (Language::TypeScript, 2)];
    assert_eq!(
        languages_by_count(&counts),
        vec![(Language::Rust, 3), (Language::TypeScript, 2), (Language::Go, 1), (Language::Python, 1)]
    );
    let mut file = IrFile::new("src/a.rs".to_string(), Language::Rust, "h".to_string(), BuildStatus::Built);
    file.classes = vec![class("User", vec![method("load", None, false)])];
    let index = index_with(file);
    assert_eq!(
        stats_text("/p", &index.stats),
        "Scan Statistics\nRoot:            /p\nFiles scanned:   1\nLanguages:       Rust (1)\n\n\
         Interfaces:      0\nServices:        0\nClasses:         1\nMethods:         1\nFunctions:       0\n\
         Schemas:         0\nType aliases:    0\nImplementations: 0\n"
    );
    assert!(!shows_timing(&index.stats));
}

#[test]
fn match_lines_are_listed() {
    let result = MatchResult {
        matched: vec![MatchedEntity {
            entity: summary("Repo", EntityKind::Interface, 3),
            subsystem_id: "auth".to_string(),
            subsystem_name: "Auth".to_string(),
            match_strategy: MatchStrategy::ImportGraph,
        }],
        unmatched: vec![UnmatchedEntity { entity: summary("run", EntityKind::Function, 9), candidate_subsystems: Vec::new() }],
        total_entities: 2,
    };
    assert_eq!(
        match_text(&result, false),
        "  + Interface:Repo -> Auth (import-graph)\n\nUnmatched:\n  - Function:run [src/a.rs:9]\n"
    );
    assert_eq!(match_text(&result, true), "  - Function:run [src/a.rs:9]\n");
}

#[test]
fn violations_are_listed() {
    assert_eq!(violations_text(&Vec::new()), "");
    let v = ManifestViolation {
        subsystem_id: "auth".to_string(),
        field: "interfaces".to_string(),
        value: "bad_name".to_string(),
        expected: "PascalCase".to_string(),
    };
    assert_eq!(
        violations_text(&vec![v]),
        "\nValidation errors:\n  auth / interfaces: 'bad_name' (expected PascalCase)\n"
    );
}

#[test]
fn json_payload_conflicts_name_the_flags() {
    let flags = vec![("--name".to_string(), true), ("--kind".to_string(), false), ("--show-routes".to_string(), true)];
    assert_eq!(
        check_json_conflicts(&flags),
        Some(
            "--json and individual filter flags are mutually exclusive. Remove these flags when using --json: --name, --show-routes"
                .to_string()
        )
    );
    assert_eq!(check_json_conflicts(&vec![("--name".to_string(), false)]), None);
}

#[test]
fn json_payload_checks() {
    assert_eq!(
        check_json_payload(r#"{"name": "Event"}"#, "interfaces"),
        Ok(JsonValue::Object(vec![("name".to_string(), JsonValue::Str("Event".to_string()))]))
    );
    let err = check_json_payload("{not valid json}", "interfaces").unwrap_err();
    assert!(err.starts_with("Invalid JSON syntax: "));
    assert!(err.ends_with(". Run `domain-scan schema interfaces` to see expected structure"));
    let deep = (0..33).fold(String::from("null"), |acc, _| format!("[{acc}]"));
    assert_eq!(check_json_payload(&deep, "search").unwrap_err(), "JSON nesting depth is 33, exceeds maximum of 32");
    let at_max = (0..32).fold(String::from("null"), |acc, _| format!("[{acc}]"));
    assert!(check_json_payload(&at_max, "search").is_ok());
    let big = format!(r#"{{"data": "{}"}}"#, "x".repeat(2_000_000));
    assert_eq!(
        check_json_payload(&big, "search").unwrap_err(),
        "JSON input is 2000012 bytes, exceeds maximum of 1048576 bytes (1 MB)"
    );
}

#[test]
fn rule_validation_is_listed() {
    let clean = ValidationResult { violations: Vec::new(), rules_checked: 3, pass_count: 3, warn_count: 0, fail_count: 0 };
    assert_eq!(validation_text(&clean), "Validation: 3 rules checked, 3 pass, 0 warn, 0 fail\n\nAll checks passed.\n");
    let v = Violation {
        rule: "naming".to_string(),
        severity: ViolationSeverity::Warn,
        message: "bad name".to_string(),
        entity_name: None,
        file: None,
        line: None,
    };
    let w = Violation { severity: ViolationSeverity::Fail, entity_name: Some("Repo".to_string()), ..v.clone() };
    let r = ValidationResult { violations: vec![v, w], rules_checked: 2, pass_count: 0, warn_count: 1, fail_count: 1 };
    assert_eq!(
        validation_text(&r),
        "Validation: 2 rules checked, 0 pass, 1 warn, 1 fail\n\n[WARN] naming: - - bad name\n[FAIL] naming: Repo - bad name\n"
    );
}

#[test]
fn payload_defaults() {
    assert_eq!(domain_scan::report::default_match_agents(), 3);
    assert_eq!(domain_scan::report::default_prompt_agents(), 5);
}

#[test]
fn services_filtered_by_kind() {
    let a = service("UserController", ServiceKind::HttpController, vec![], vec![]);
    let b = service("EventWorker", ServiceKind::Worker, vec![], vec![]);
    let c = service("Cron", ServiceKind::Custom("Scheduler".to_string()), vec![], vec![]);
    let kept = services_named(vec![&a, &b, &c], &None, &Some("worker".to_string()));
    let names: Vec<&str> = kept.iter().map(|s| s.name.as_str()).collect();
    assert_eq!(names, vec!["EventWorker"]);
    let kept = services_named(vec![&a, &b, &c], &None, &Some(" HTTP_controller , scheduler".to_string()));
    let names: Vec<&str> = kept.iter().map(|s| s.name.as_str()).collect();
    assert_eq!(names, vec!["UserController", "Cron"]);
}

#[test]
fn schemas_filtered_by_kind() {
    let a = schema("UserSchema", "zod", vec![]);
    let mut b = schema("Order", "drizzle", vec![]);
    b.kind = SchemaKind::OrmModel;
    let kept = schemas_named(vec![&a, &b], &None, &Some("orm_model".to_string()));
    assert_eq!(kept.len(), 1);
    assert_eq!(kept[0].name, "Order");
}

#[test]
fn methods_filtered_by_visibility() {
    let mut file = IrFile::new("src/a.rs".to_string(), Language::Rust, "h".to_string(), BuildStatus::Built);
    let mut m2 = method("m2", Some("C"), false);
    m2.visibility = Visibility::Private;
    file.classes = vec![class("C", vec![method("m1", Some("C"), false), m2])];
    let index = index_with(file);
    let public = select_methods(&index, &None, false, &Some("public".to_string()), &None);
    let names: Vec<&str> = public.iter().map(|m| m.name.as_str()).collect();
    assert_eq!(names, vec!["m1"]);
    let both = select_methods(&index, &None, false, &Some("public,private".to_string()), &None);
    assert_eq!(both.len(), 2);
}
