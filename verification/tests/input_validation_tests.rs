use domain_scan::input_validation::{
    check_json_input, check_output_within_base, check_within_base, precheck_path,
    parse_json_input, validate_json_input, validate_regex, validate_resource_id,
    validate_string_input, MAX_JSON_DEPTH,
    MAX_REGEX_LEN, MAX_STRING_INPUT_LEN,
};
use domain_scan::json::JsonValue;
use domain_scan::DomainScanError;

fn message(e: &DomainScanError) -> String {
    match e {
        DomainScanError::InvalidPath(m)
        | DomainScanError::InvalidInput(m)
        | DomainScanError::InvalidResourceId(m)
        | DomainScanError::InvalidRegex(m)
        | DomainScanError::InvalidJson(m) => m.clone(),
        other => format!("{other:?}"),
    }
}

fn nested_arrays(levels: usize) -> JsonValue {
    let mut v = JsonValue::Null;
    for _ in 0..levels {
        v = JsonValue::Array(vec![v]);
    }
    v
}

#[test]
fn string_allows_newline_and_tab() {
    assert!(validate_string_input("line1\nline2").is_ok());
    assert!(validate_string_input("col1\tcol2").is_ok());
}

#[test]
fn string_allows_valid_unicode() {
    assert!(validate_string_input("ユーザーRepository").is_ok());
    assert!(validate_string_input("café_service").is_ok());
    assert!(validate_string_input("Überklasse").is_ok());
}

#[test]
fn resource_id_accepts_valid() {
    assert!(validate_resource_id("abc123").is_ok());
    assert!(validate_resource_id("my-interface-name").is_ok());
    assert!(validate_resource_id("UserRepository").is_ok());
}

#[test]
fn string_rejects_null_byte() {
    let err = validate_string_input("User\0Repository").unwrap_err();
    assert!(matches!(err, DomainScanError::InvalidInput(_)));
    assert!(message(&err).contains("null byte"));
}

#[test]
fn string_rejects_bell_char() {
    let err = validate_string_input("User\x07Repository").unwrap_err();
    assert!(matches!(err, DomainScanError::InvalidInput(_)));
    assert!(message(&err).contains("control character"));
}

#[test]
fn string_rejects_backspace() {
    let err = validate_string_input("User\x08Repo").unwrap_err();
    assert!(matches!(err, DomainScanError::InvalidInput(_)));
}

#[test]
fn string_rejects_overly_long() {
    let long = "a".repeat(MAX_STRING_INPUT_LEN + 1);
    let err = validate_string_input(&long).unwrap_err();
    assert!(matches!(err, DomainScanError::InvalidInput(_)));
}

#[test]
fn string_at_limit_is_accepted() {
    let exact = "a".repeat(MAX_STRING_INPUT_LEN);
    assert_eq!(validate_string_input(&exact).ok(), Some(exact.as_str()));
}

#[test]
fn resource_id_rejects_query_params() {
    let err = validate_resource_id("abc123?fields=name").unwrap_err();
    assert!(matches!(err, DomainScanError::InvalidResourceId(_)));
}

#[test]
fn resource_id_rejects_fragment() {
    let err = validate_resource_id("abc123#section").unwrap_err();
    assert!(matches!(err, DomainScanError::InvalidResourceId(_)));
}

#[test]
fn resource_id_rejects_pre_encoded() {
    let err = validate_resource_id("%2e%2e%2f%2e%2e%2fetc%2fpasswd").unwrap_err();
    assert!(matches!(err, DomainScanError::InvalidResourceId(_)));
}

#[test]
fn regex_rejects_invalid_pattern() {
    let err = validate_regex("[unclosed").unwrap_err();
    assert!(matches!(err, DomainScanError::InvalidRegex(_)));
}

#[test]
fn regex_rejects_oversized_pattern() {
    let pattern = "a".repeat(MAX_REGEX_LEN + 1);
    let err = validate_regex(&pattern).unwrap_err();
    assert!(matches!(err, DomainScanError::InvalidRegex(_)));
    assert!(message(&err).contains("maximum length"));
}

#[test]
fn regex_accepts_valid_pattern() {
    let re = validate_regex(".*Repository").ok();
    assert!(re.is_some());
    assert!(re.as_ref().is_some_and(|r| r.is_match("UserRepository")));
}

#[test]
fn path_rejects_dot_dot_traversal() {
    let err = precheck_path("../../etc/passwd", "/tmp", false).unwrap_err();
    assert!(matches!(err, DomainScanError::InvalidPath(_)));
    assert!(message(&err).contains("traversal"));
}

#[test]
fn path_rejects_null_byte() {
    let err = precheck_path("src/main\0.rs", "/tmp", false).unwrap_err();
    assert!(matches!(err, DomainScanError::InvalidPath(_)));
    assert!(message(&err).contains("null byte"));
}

#[test]
fn path_rejects_overly_long() {
    let long_path = "a/".repeat(3000);
    let err = precheck_path(&long_path, "/tmp", false).unwrap_err();
    assert!(matches!(err, DomainScanError::InvalidPath(_)));
    assert!(message(&err).contains("maximum length"));
}

#[test]
fn output_path_rejects_traversal() {
    let err = precheck_path("../../../etc/evil.json", "/tmp", true).unwrap_err();
    assert!(matches!(err, DomainScanError::InvalidPath(_)));
    assert!(message(&err).starts_with("Output path"));
}

#[test]
fn path_precheck_resolves_against_base() {
    assert_eq!(precheck_path("src/main.rs", "/work", false).ok(), Some("/work/src/main.rs".to_string()));
    assert_eq!(precheck_path("/abs/x.rs", "/work", false).ok(), Some("/abs/x.rs".to_string()));
}

#[test]
fn path_escaping_base_is_rejected() {
    let err = check_within_base("escape/passwd", "/etc/passwd", "/work").unwrap_err();
    assert_eq!(
        message(&err),
        "Path escapes base directory: escape/passwd (resolved to /etc/passwd)"
    );
    assert_eq!(
        check_within_base("src/main.rs", "/work/src/main.rs", "/work").ok(),
        Some("/work/src/main.rs".to_string())
    );
}

#[test]
fn output_path_parent_outside_base_is_rejected() {
    assert!(check_output_within_base("out.json", "/work/out", "/work").is_ok());
    let err = check_output_within_base("x.json", "/elsewhere", "/work").unwrap_err();
    assert_eq!(message(&err), "Output path escapes base directory: x.json");
}

#[test]
fn json_rejects_oversized() {
    let json = format!(r#"{{"data": "{}"}}"#, "x".repeat(2_000_000));
    let err = validate_json_input(&json).unwrap_err();
    assert!(matches!(err, DomainScanError::InvalidJson(_)));
    assert!(message(&err).contains("maximum size"));
}

#[test]
fn json_rejects_deeply_nested() {
    let json = (0..100).fold(String::from("null"), |acc, _| format!("[{acc}]"));
    let err = validate_json_input(&json).unwrap_err();
    assert!(matches!(err, DomainScanError::InvalidJson(_)));
    assert!(message(&err).contains("nesting depth"));
}

#[test]
fn json_rejects_malformed() {
    let err = validate_json_input("{not valid json}").unwrap_err();
    assert!(matches!(err, DomainScanError::InvalidJson(_)));
}

#[test]
fn json_accepts_valid() {
    let result = validate_json_input(r#"{"name": "Repo", "languages": ["typescript"]}"#);
    assert!(result.is_ok());
}

#[test]
fn json_accepts_at_max_depth() {
    let json = (0..MAX_JSON_DEPTH).fold(String::from("null"), |acc, _| format!("[{acc}]"));
    assert!(validate_json_input(&json).is_ok());
}

#[test]
fn json_parse_gives_the_content() {
    let value = parse_json_input(r#"{"name": "Repo", "languages": ["typescript"], "n": 3}"#).unwrap();
    let expected = JsonValue::Object(vec![
        ("languages".to_string(), JsonValue::Array(vec![JsonValue::Str("typescript".to_string())])),
        ("n".to_string(), JsonValue::Number("3".to_string())),
        ("name".to_string(), JsonValue::Str("Repo".to_string())),
    ]);
    assert_eq!(value, expected);
}

#[test]
fn json_check_messages_are_exact() {
    let text = (0..100).fold(String::from("null"), |acc, _| format!("[{acc}]"));
    let err = check_json_input(&text, Ok(nested_arrays(100))).unwrap_err();
    assert_eq!(message(&err), "JSON nesting depth exceeds maximum of 32 (got 100)");
    let err = check_json_input("{not valid json}", Err("key must be a string".to_string())).unwrap_err();
    assert_eq!(message(&err), "JSON parse error: key must be a string");
    let err = validate_json_input("{not valid json}").unwrap_err();
    assert!(message(&err).starts_with("JSON parse error: "));
    let big = format!(r#"{{"data": "{}"}}"#, "x".repeat(2_000_000));
    let err = validate_json_input(&big).unwrap_err();
    assert_eq!(message(&err), "JSON input exceeds maximum size of 1048576 bytes (got 2000012)");
}

#[test]
fn json_depth_counts_containers() {
    assert_eq!(domain_scan::json::json_depth(&JsonValue::Null), 0);
    assert_eq!(domain_scan::json::json_depth(&nested_arrays(3)), 3);
}

#[test]
fn validated_regex_is_the_given_pattern() {
    let re = validate_regex("^User").unwrap_or_else(|_| panic!("valid pattern refused"));
    assert_eq!(re.as_str(), "^User");
    assert!(re.is_match("UserService"));
    assert!(!re.is_match("MyUser"));
}
