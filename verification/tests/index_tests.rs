use domain_scan::ir::{
    BuildStatus, ClassDef, EntityKind, FilterParams, FunctionDef, ImplDef, InterfaceDef,
    InterfaceKind, IrFile, Language, MethodDef, SchemaDef, SchemaKind, ServiceDef, ServiceKind,
    Span, Visibility,
};
use domain_scan::stats::{build_index, compute_stats};

fn make_ir_file(path: &str, lang: Language) -> IrFile {
    IrFile::new(path.to_string(), lang, format!("hash_{path}"), BuildStatus::Built)
}

fn make_interface(name: &str, path: &str) -> InterfaceDef {
    InterfaceDef {
        name: name.to_string(),
        file: path.to_string(),
        span: Span::default(),
        visibility: Visibility::Public,
        generics: Vec::new(),
        extends: Vec::new(),
        methods: Vec::new(),
        properties: Vec::new(),
        language_kind: InterfaceKind::Interface,
        decorators: Vec::new(),
    }
}

fn make_method(name: &str, path: &str) -> MethodDef {
    MethodDef {
        name: name.to_string(),
        file: path.to_string(),
        span: Span::default(),
        visibility: Visibility::Public,
        is_async: false,
        is_static: false,
        is_generator: false,
        parameters: Vec::new(),
        return_type: None,
        decorators: Vec::new(),
        owner: None,
        implements: None,
    }
}

fn make_class(name: &str, path: &str, implements: Vec<&str>) -> ClassDef {
    ClassDef {
        name: name.to_string(),
        file: path.to_string(),
        span: Span::default(),
        visibility: Visibility::Public,
        generics: Vec::new(),
        extends: None,
        implements: implements.into_iter().map(String::from).collect(),
        methods: Vec::new(),
        properties: Vec::new(),
        is_abstract: false,
        decorators: Vec::new(),
    }
}

fn make_service(name: &str, path: &str, kind: ServiceKind) -> ServiceDef {
    ServiceDef {
        name: name.to_string(),
        file: path.to_string(),
        span: Span::default(),
        kind,
        methods: Vec::new(),
        dependencies: Vec::new(),
        decorators: Vec::new(),
        routes: Vec::new(),
    }
}

fn make_schema(name: &str, path: &str, framework: &str, kind: SchemaKind) -> SchemaDef {
    SchemaDef {
        name: name.to_string(),
        file: path.to_string(),
        span: Span::default(),
        kind,
        fields: Vec::new(),
        source_framework: framework.to_string(),
        table_name: None,
        derives: Vec::new(),
        visibility: Visibility::Public,
    }
}

fn make_function(name: &str, path: &str) -> FunctionDef {
    FunctionDef {
        name: name.to_string(),
        file: path.to_string(),
        span: Span::default(),
        visibility: Visibility::Public,
        is_async: false,
        is_generator: false,
        parameters: Vec::new(),
        return_type: None,
        decorators: Vec::new(),
    }
}

fn index(files: Vec<IrFile>) -> domain_scan::ir::ScanIndex {
    build_index("/project".to_string(), "0.1.0".to_string(), "t".to_string(), files, 0, 0, 0)
}

#[test]
fn test_build_index_stats() {
    let mut file = make_ir_file("/project/src/types.ts", Language::TypeScript);
    file.interfaces = vec![
        make_interface("Foo", "/project/src/types.ts"),
        make_interface("Bar", "/project/src/types.ts"),
    ];
    file.classes = vec![make_class("Baz", "/project/src/types.ts", vec![])];
    file.functions = vec![make_function("helper", "/project/src/types.ts")];

    let index = build_index("/project".to_string(), "0.1.0".to_string(), "t".to_string(), vec![file], 100, 5, 10);

    assert_eq!(index.stats.total_files, 1);
    assert_eq!(index.stats.total_interfaces, 2);
    assert_eq!(index.stats.total_classes, 1);
    assert_eq!(index.stats.total_functions, 1);
    assert_eq!(index.stats.parse_duration_ms, 100);
    assert_eq!(index.stats.cache_hits, 5);
    assert_eq!(index.stats.cache_misses, 10);
    assert_eq!(index.stats.files_by_language, vec![(Language::TypeScript, 1)]);
}

#[test]
fn test_get_interfaces_by_name() {
    let mut file = make_ir_file("/project/src/types.ts", Language::TypeScript);
    file.interfaces = vec![
        make_interface("UserService", "/project/src/types.ts"),
        make_interface("PostService", "/project/src/types.ts"),
    ];
    let index = index(vec![file]);
    let results = index.get_interfaces_by_name("UserService");
    assert_eq!(results.len(), 1);
    assert_eq!(results[0].name, "UserService");
    assert!(index.get_interfaces_by_name("NotExist").is_empty());
}

#[test]
fn test_get_interfaces_pattern() {
    let mut file = make_ir_file("/project/src/types.ts", Language::TypeScript);
    file.interfaces = vec![
        make_interface("UserService", "/project/src/types.ts"),
        make_interface("PostService", "/project/src/types.ts"),
        make_interface("Config", "/project/src/types.ts"),
    ];
    let index = index(vec![file]);
    assert_eq!(index.get_interfaces(Some("Service")).len(), 2);
    assert_eq!(index.get_interfaces(None).len(), 3);
}

#[test]
fn test_get_services_by_kind() {
    let mut file = make_ir_file("/project/src/app.ts", Language::TypeScript);
    file.services = vec![
        make_service("UserController", "/project/src/app.ts", ServiceKind::HttpController),
        make_service("PostController", "/project/src/app.ts", ServiceKind::HttpController),
        make_service("EventWorker", "/project/src/app.ts", ServiceKind::Worker),
    ];
    let index = index(vec![file]);
    assert_eq!(index.get_services(Some(&ServiceKind::HttpController)).len(), 2);
    assert_eq!(index.get_services(Some(&ServiceKind::Worker)).len(), 1);
    assert_eq!(index.get_services(None).len(), 3);
}

#[test]
fn test_get_schemas_by_framework_and_kind() {
    let mut file = make_ir_file("/project/src/schemas.ts", Language::TypeScript);
    file.schemas = vec![
        make_schema("UserSchema", "/project/src/schemas.ts", "zod", SchemaKind::ValidationSchema),
        make_schema("PostSchema", "/project/src/schemas.ts", "zod", SchemaKind::ValidationSchema),
        make_schema("User", "/project/src/schemas.ts", "drizzle", SchemaKind::OrmModel),
    ];
    let index = index(vec![file]);
    assert_eq!(index.get_schemas(Some("zod")).len(), 2);
    let orm = index.get_schemas_by_kind(SchemaKind::OrmModel);
    assert_eq!(orm.len(), 1);
    assert_eq!(orm[0].name, "User");
}

#[test]
fn test_get_entity_summaries_filtered() {
    let mut file = make_ir_file("/project/src/types.ts", Language::TypeScript);
    file.interfaces = vec![make_interface("Foo", "/project/src/types.ts")];
    file.classes = vec![make_class("Bar", "/project/src/types.ts", vec![])];
    let index = index(vec![file]);
    let filter = FilterParams { kind: Some(vec![EntityKind::Interface]), ..FilterParams::default() };
    let summaries = index.get_entity_summaries(&filter);
    assert_eq!(summaries.len(), 1);
    assert_eq!(summaries[0].kind, EntityKind::Interface);
}

#[test]
fn test_search() {
    let mut file = make_ir_file("/project/src/types.ts", Language::TypeScript);
    file.interfaces = vec![
        make_interface("UserService", "/project/src/types.ts"),
        make_interface("Config", "/project/src/types.ts"),
    ];
    file.classes = vec![make_class("UserRepo", "/project/src/types.ts", vec![])];
    let index = index(vec![file]);
    assert_eq!(index.search("User").len(), 2);
}

#[test]
fn test_empty_index() {
    let index = index(vec![]);
    assert_eq!(index.stats.total_files, 0);
    assert!(index.get_interfaces(None).is_empty());
    assert!(index.get_classes(None).is_empty());
    assert!(index.get_services(None).is_empty());
    assert!(index.get_schemas(None).is_empty());
}

#[test]
fn test_get_file() {
    let index = index(vec![make_ir_file("/project/src/types.ts", Language::TypeScript)]);
    assert!(index.get_file("/project/src/types.ts").is_some());
    assert!(index.get_file("/project/src/other.ts").is_none());
    assert!(index.get_file("/project//src/./types.ts").is_some());
}

#[test]
fn test_language_filter() {
    let mut ts_file = make_ir_file("/project/src/types.ts", Language::TypeScript);
    ts_file.interfaces = vec![make_interface("TsFoo", "/project/src/types.ts")];
    let mut rs_file = make_ir_file("/project/src/types.rs", Language::Rust);
    rs_file.interfaces = vec![make_interface("RsFoo", "/project/src/types.rs")];
    let index = index(vec![ts_file, rs_file]);
    let filter = FilterParams { languages: Some(vec![Language::TypeScript]), ..FilterParams::default() };
    let summaries = index.get_entity_summaries(&filter);
    assert_eq!(summaries.len(), 1);
    assert_eq!(summaries[0].name, "TsFoo");
}

#[test]
fn stats_count_methods_of_classes_services_and_impls() {
    let mut file = make_ir_file("/p/a.rs", Language::Rust);
    let mut class = make_class("C", "/p/a.rs", vec![]);
    class.methods = vec![make_method("m1", "/p/a.rs"), make_method("m2", "/p/a.rs")];
    let mut service = make_service("S", "/p/a.rs", ServiceKind::Worker);
    service.methods = vec![make_method("run", "/p/a.rs")];
    let implementation = ImplDef {
        target: "C".to_string(),
        trait_name: Some("T".to_string()),
        file: "/p/a.rs".to_string(),
        span: Span::default(),
        methods: vec![make_method("t", "/p/a.rs")],
    };
    file.classes = vec![class];
    file.services = vec![service];
    file.implementations = vec![implementation];
    let files = vec![file, make_ir_file("/p/b.py", Language::Python), make_ir_file("/p/c.rs", Language::Rust)];
    let stats = compute_stats(&files, 7, 1, 2);
    assert_eq!(stats.total_methods, 4);
    assert_eq!(stats.total_implementations, 1);
    assert_eq!(stats.total_files, 3);
    assert_eq!(stats.files_by_language, vec![(Language::Rust, 2), (Language::Python, 1)]);
    let total: usize = stats.files_by_language.iter().map(|(_, n)| n).sum();
    assert_eq!(total, stats.total_files);
}

#[test]
fn methods_by_owner_take_classes_then_impls() {
    let mut file = make_ir_file("/p/a.rs", Language::Rust);
    let mut class = make_class("User", "/p/a.rs", vec![]);
    class.methods = vec![make_method("new", "/p/a.rs")];
    file.classes = vec![class, make_class("Other", "/p/a.rs", vec![])];
    file.implementations = vec![ImplDef {
        target: "User".to_string(),
        trait_name: None,
        file: "/p/a.rs".to_string(),
        span: Span::default(),
        methods: vec![make_method("save", "/p/a.rs")],
    }];
    let index = index(vec![file]);
    let names: Vec<&str> = index.get_methods_by_owner("User").iter().map(|m| m.name.as_str()).collect();
    assert_eq!(names, vec!["new", "save"]);
    assert!(index.get_methods_by_owner("Nobody").is_empty());
}

#[test]
fn implementations_and_functions_and_aliases() {
    let mut file = make_ir_file("/p/a.rs", Language::Rust);
    file.implementations = vec![
        ImplDef { target: "A".to_string(), trait_name: Some("Display".to_string()), file: "/p/a.rs".to_string(), span: Span::default(), methods: vec![] },
        ImplDef { target: "B".to_string(), trait_name: None, file: "/p/a.rs".to_string(), span: Span::default(), methods: vec![] },
    ];
    file.functions = vec![make_function("parse_all", "/p/a.rs"), make_function("main", "/p/a.rs")];
    let index = index(vec![file]);
    assert_eq!(index.get_implementations("Display").len(), 1);
    assert_eq!(index.get_implementations("B").len(), 0);
    assert_eq!(index.get_functions(Some("parse")).len(), 1);
    assert_eq!(index.get_type_aliases(None).len(), 0);
    let summaries = index.search("for");
    assert_eq!(summaries.len(), 1);
    assert_eq!(summaries[0].name, "Display for A");
    assert_eq!(summaries[0].kind, EntityKind::Impl);
}

#[test]
fn search_patterns_are_regular_expressions() {
    let mut file = make_ir_file("/project/src/types.ts", Language::TypeScript);
    file.interfaces = vec![
        make_interface("UserService", "/project/src/types.ts"),
        make_interface("MyUser", "/project/src/types.ts"),
    ];
    let ix = index(vec![file]);
    let found = ix.search("^User");
    assert_eq!(found.len(), 1);
    assert_eq!(found[0].name, "UserService");
    assert_eq!(ix.search("User$").len(), 1);
    // A pattern that is no valid regex is taken as a substring.
    let mut odd = make_ir_file("/project/src/odd.ts", Language::TypeScript);
    odd.interfaces = vec![make_interface("Weird(Name", "/project/src/odd.ts")];
    assert_eq!(index(vec![odd]).search("d(N").len(), 1);
}

#[test]
fn implementing_targets_are_distinct_in_first_order() {
    let imp = |target: &str| ImplDef {
        target: target.to_string(),
        trait_name: Some("Display".to_string()),
        file: "/p/a.rs".to_string(),
        span: Span::default(),
        methods: vec![],
    };
    let mut file = make_ir_file("/p/a.rs", Language::Rust);
    file.implementations = vec![imp("B"), imp("A"), imp("B"), imp("C"), imp("A")];
    let index = index(vec![file]);
    let found = index.get_implementations("Display");
    assert_eq!(found.len(), 5);
    let targets = domain_scan::queries::implementing_targets(&found);
    assert_eq!(targets, vec!["B".to_string(), "A".to_string(), "C".to_string()]);
}
