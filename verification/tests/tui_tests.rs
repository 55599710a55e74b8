use domain_scan::ir::{
    BuildStatus, EntityKind, HttpMethod, InterfaceDef, InterfaceKind, IrFile, Language,
    MethodSignature, RouteDef, ScanIndex, ServiceDef, ServiceKind, Span, Visibility,
};
use domain_scan::stats::build_index;
use domain_scan::tui::{line_prefix, service_kind_debug, KeyCode, KeyEvent, TuiApp};

fn sig(name: &str, is_async: bool, ret: Option<&str>) -> MethodSignature {
    MethodSignature {
        name: name.to_string(),
        span: Span::default(),
        is_async,
        parameters: Vec::new(),
        return_type: ret.map(String::from),
        has_default: false,
    }
}

fn iface(name: &str, methods: Vec<MethodSignature>) -> InterfaceDef {
    InterfaceDef {
        name: name.to_string(),
        file: "/project/src/types.ts".to_string(),
        span: Span { start_line: 3, ..Span::default() },
        visibility: Visibility::Public,
        generics: Vec::new(),
        extends: Vec::new(),
        methods,
        properties: Vec::new(),
        language_kind: InterfaceKind::Interface,
        decorators: Vec::new(),
    }
}

fn test_scan_index() -> ScanIndex {
    let mut file = IrFile::new("/project/src/types.ts".to_string(), Language::TypeScript, "h".to_string(), BuildStatus::Built);
    file.interfaces = vec![
        iface(
            "UserRepository",
            vec![sig("findById", true, Some("Promise<User>")), sig("findAll", true, Some("Promise<User[]>"))],
        ),
        iface("EventHandler", vec![sig("handle", false, Some("void"))]),
    ];
    build_index("/project".to_string(), "0.1.0".to_string(), "t".to_string(), vec![file], 0, 0, 0)
}

fn key(code: KeyCode) -> KeyEvent {
    KeyEvent { code, ctrl: false }
}

#[test]
fn test_initial_state_all_collapsed() {
    let app = TuiApp::from_interfaces(&test_scan_index());
    assert_eq!(app.nodes.len(), 5);
    assert_eq!(app.visible_indices(), vec![0, 3]);
    assert_eq!(app.selected, 0);
    assert!(!app.should_quit);
    assert_eq!(app.title, "Interfaces");
}

#[test]
fn test_enter_expands_parent() {
    let mut app = TuiApp::from_interfaces(&test_scan_index());
    assert!(app.handle_event(key(KeyCode::Enter)));
    assert!(app.nodes[0].expanded);
    assert_eq!(app.visible_indices(), vec![0, 1, 2, 3]);
}

#[test]
fn test_second_enter_collapses_parent() {
    let mut app = TuiApp::from_interfaces(&test_scan_index());
    app.handle_event(key(KeyCode::Enter));
    app.handle_event(key(KeyCode::Enter));
    assert!(!app.nodes[0].expanded);
    assert_eq!(app.visible_indices(), vec![0, 3]);
}

#[test]
fn test_arrow_navigation() {
    let mut app = TuiApp::from_interfaces(&test_scan_index());
    app.handle_event(key(KeyCode::Down));
    assert_eq!(app.selected, 1);
    app.handle_event(key(KeyCode::Down));
    assert_eq!(app.selected, 1);
    app.handle_event(key(KeyCode::Up));
    assert_eq!(app.selected, 0);
    app.handle_event(key(KeyCode::Up));
    assert_eq!(app.selected, 0);
    app.handle_event(key(KeyCode::Char('j')));
    assert_eq!(app.selected, 1);
    app.handle_event(key(KeyCode::Char('k')));
    assert_eq!(app.selected, 0);
}

#[test]
fn test_right_expands_left_collapses() {
    let mut app = TuiApp::from_interfaces(&test_scan_index());
    app.handle_event(key(KeyCode::Right));
    assert!(app.nodes[0].expanded);
    app.handle_event(key(KeyCode::Left));
    assert!(!app.nodes[0].expanded);
}

#[test]
fn test_left_on_child_collapses_parent_and_moves_selection() {
    let mut app = TuiApp::from_interfaces(&test_scan_index());
    app.handle_event(key(KeyCode::Enter));
    app.handle_event(key(KeyCode::Down));
    app.handle_event(key(KeyCode::Down));
    assert_eq!(app.selected, 2);
    app.handle_event(key(KeyCode::Left));
    assert!(!app.nodes[0].expanded);
    assert_eq!(app.selected, 0);
}

#[test]
fn test_q_quits() {
    let mut app = TuiApp::from_interfaces(&test_scan_index());
    assert!(app.handle_event(key(KeyCode::Char('q'))));
    assert!(app.should_quit);
    let mut app = TuiApp::from_interfaces(&test_scan_index());
    assert!(app.handle_event(KeyEvent { code: KeyCode::Char('c'), ctrl: true }));
    assert!(app.should_quit);
    let mut app = TuiApp::from_interfaces(&test_scan_index());
    assert!(!app.handle_event(key(KeyCode::Char('c'))));
    assert!(!app.should_quit);
}

#[test]
fn test_render_expanded_shows_children() {
    let mut app = TuiApp::from_interfaces(&test_scan_index());
    app.handle_event(key(KeyCode::Enter));
    let labels: Vec<&str> = app.visible_indices().iter().map(|&i| app.nodes[i].label.as_str()).collect();
    assert_eq!(
        labels,
        vec![
            "UserRepository (2 methods)",
            "async findById(...) -> Promise<User>",
            "async findAll(...) -> Promise<User[]>",
            "EventHandler (1 methods)",
        ]
    );
    assert_eq!(line_prefix(&app.nodes[0]), "v ");
    assert_eq!(line_prefix(&app.nodes[1]), "    ");
    assert_eq!(line_prefix(&app.nodes[3]), "> ");
    assert_eq!(app.nodes[0].file_loc, "/project/src/types.ts:3");
}

#[test]
fn test_search_mode() {
    let mut app = TuiApp::from_interfaces(&test_scan_index());
    app.handle_event(key(KeyCode::Char('/')));
    assert!(app.search_mode);
    assert_eq!(app.search_query.as_deref(), Some(""));
    app.handle_event(key(KeyCode::Char('E')));
    app.handle_event(key(KeyCode::Char('v')));
    assert_eq!(app.search_query.as_deref(), Some("Ev"));
    assert_eq!(app.selected, 1);
    app.handle_event(key(KeyCode::Backspace));
    assert_eq!(app.search_query.as_deref(), Some("E"));
    assert_eq!(app.selected, 0);
    app.handle_event(key(KeyCode::Enter));
    assert!(!app.search_mode);
    assert_eq!(app.footer_text(), " /project/src/types.ts:3  |  [\u{2191}\u{2193}] navigate  [Enter] toggle  [/] search  [q] quit");
    app.handle_event(key(KeyCode::Esc));
    assert_eq!(app.search_query, None);
}

#[test]
fn test_navigation_with_expanded_children() {
    let mut app = TuiApp::from_interfaces(&test_scan_index());
    app.handle_event(key(KeyCode::Enter));
    for _ in 0..3 {
        app.handle_event(key(KeyCode::Down));
    }
    assert_eq!(app.selected, 3);
    app.handle_event(key(KeyCode::Down));
    assert_eq!(app.selected, 3);
    app.handle_event(key(KeyCode::Enter));
    assert!(app.nodes[3].expanded);
    assert_eq!(app.visible_indices(), vec![0, 1, 2, 3, 4]);
}

#[test]
fn test_empty_scan_index() {
    let index = build_index("/project".to_string(), "0.1.0".to_string(), "t".to_string(), vec![], 0, 0, 0);
    let mut app = TuiApp::from_interfaces(&index);
    assert!(app.nodes.is_empty());
    assert!(app.visible_indices().is_empty());
    app.handle_event(key(KeyCode::Down));
    app.handle_event(key(KeyCode::Enter));
    assert_eq!(app.selected, 0);
    assert_eq!(app.header_text(), " Interfaces \u{2014} 0 entities (0 visible)");
}

#[test]
fn tui_header_counts_parents_and_visible() {
    let mut app = TuiApp::from_interfaces(&test_scan_index());
    assert_eq!(app.header_text(), " Interfaces \u{2014} 2 entities (2 visible)");
    app.handle_event(key(KeyCode::Enter));
    assert_eq!(app.header_text(), " Interfaces \u{2014} 2 entities (4 visible)");
}

#[test]
fn tui_services_and_entity_list() {
    let mut file = IrFile::new("/p/app.ts".to_string(), Language::TypeScript, "h".to_string(), BuildStatus::Built);
    file.services = vec![ServiceDef {
        name: "UserController".to_string(),
        file: "/p/app.ts".to_string(),
        span: Span { start_line: 7, ..Span::default() },
        kind: ServiceKind::HttpController,
        methods: Vec::new(),
        dependencies: Vec::new(),
        decorators: Vec::new(),
        routes: vec![RouteDef { method: HttpMethod::Get, path: "/users".to_string(), handler: "list".to_string() }],
    }];
    let index = build_index("/p".to_string(), "0.1.0".to_string(), "t".to_string(), vec![file], 0, 0, 0);
    let app = TuiApp::from_services(&index);
    assert_eq!(app.nodes[0].label, "UserController [HttpController] (0 methods, 1 routes)");
    assert_eq!(app.nodes[1].label, "Get /users -> list");
    assert_eq!(app.nodes[1].parent_idx, Some(0));
    let list = TuiApp::from_entity_list(&index, "Scan");
    assert_eq!(list.title, "Scan");
    assert_eq!(list.nodes.len(), 1);
    assert_eq!(list.nodes[0].label, "service: UserController");
    assert_eq!(list.nodes[0].kind, EntityKind::Service);
    assert_eq!(list.nodes[0].file_loc, "/p/app.ts:7");
    assert_eq!(service_kind_debug(&ServiceKind::Custom("x".to_string())), "Custom(\"x\")");
}
