use domain_scan::field_mask::{validate_fields_against_schema, FieldMask};
use domain_scan::json::JsonValue;

fn s(x: &str) -> JsonValue {
    JsonValue::Str(x.to_string())
}

fn obj(entries: Vec<(&str, JsonValue)>) -> JsonValue {
    JsonValue::Object(entries.into_iter().map(|(k, v)| (k.to_string(), v)).collect())
}

fn get<'a>(v: &'a JsonValue, key: &str) -> Option<&'a JsonValue> {
    match v {
        JsonValue::Object(es) => es.iter().find(|(k, _)| k == key).map(|(_, v)| v),
        _ => None,
    }
}

fn object_len(v: &JsonValue) -> usize {
    match v {
        JsonValue::Object(es) => es.len(),
        _ => panic!("not object"),
    }
}

#[test]
fn test_parse_simple_fields() {
    let mask = FieldMask::parse("name,methods").unwrap_or_else(|_| panic!("parse failed"));
    assert!(mask.has_child("name"));
    assert!(mask.has_child("methods"));
    assert_eq!(mask.child_count(), 2);
}

#[test]
fn test_parse_dot_notation() {
    let mask = FieldMask::parse("files.path,files.language,stats")
        .unwrap_or_else(|_| panic!("parse failed"));
    assert!(mask.has_child("files"));
    assert!(mask.has_child("stats"));
    let files = mask.child("files").unwrap_or_else(|| panic!("no files"));
    assert!(files.has_child("path"));
    assert!(files.has_child("language"));
}

#[test]
fn test_parse_empty_returns_error() {
    let result = FieldMask::parse("");
    assert!(result.is_err());
}

#[test]
fn test_whitespace_in_fields_is_trimmed() {
    let mask = FieldMask::parse(" name , methods ").unwrap_or_else(|_| panic!("parse failed"));
    assert!(mask.has_child("name"));
    assert!(mask.has_child("methods"));
}

#[test]
fn test_apply_simple_object() {
    let mask = FieldMask::parse("name,methods").unwrap_or_else(|_| panic!("parse failed"));
    let input = obj(vec![
        ("name", s("Foo")),
        ("methods", JsonValue::Array(vec![s("bar"), s("baz")])),
        ("extends", JsonValue::Array(vec![])),
        ("file", s("test.ts")),
    ]);
    let output = mask.apply(&input);
    assert_eq!(object_len(&output), 2);
    assert_eq!(get(&output, "name"), Some(&s("Foo")));
    assert!(get(&output, "methods").is_some());
    assert!(get(&output, "extends").is_none());
    assert!(get(&output, "file").is_none());
}

#[test]
fn test_apply_to_array() {
    let mask = FieldMask::parse("name").unwrap_or_else(|_| panic!("parse failed"));
    let input = JsonValue::Array(vec![
        obj(vec![("name", s("A")), ("kind", s("interface"))]),
        obj(vec![("name", s("B")), ("kind", s("trait"))]),
    ]);
    let output = mask.apply(&input);
    match output {
        JsonValue::Array(arr) => {
            assert_eq!(arr.len(), 2);
            assert_eq!(arr[0], obj(vec![("name", s("A"))]));
            assert_eq!(arr[1], obj(vec![("name", s("B"))]));
        }
        _ => panic!("not array"),
    }
}

#[test]
fn test_apply_nested_dot_notation() {
    let mask = FieldMask::parse("files.path,stats").unwrap_or_else(|_| panic!("parse failed"));
    let input = obj(vec![
        (
            "files",
            JsonValue::Array(vec![
                obj(vec![("path", s("a.ts")), ("language", s("TypeScript")), ("interfaces", JsonValue::Array(vec![]))]),
                obj(vec![("path", s("b.rs")), ("language", s("Rust")), ("interfaces", JsonValue::Array(vec![]))]),
            ]),
        ),
        ("stats", obj(vec![("total_files", JsonValue::Number("2".to_string()))])),
        ("version", s("1.0")),
    ]);
    let output = mask.apply(&input);
    assert_eq!(object_len(&output), 2);
    assert!(get(&output, "files").is_some());
    assert!(get(&output, "stats").is_some());
    assert!(get(&output, "version").is_none());
    match get(&output, "files") {
        Some(JsonValue::Array(files)) => {
            assert_eq!(files[0], obj(vec![("path", s("a.ts"))]));
            assert_eq!(files[1], obj(vec![("path", s("b.rs"))]));
        }
        _ => panic!("no files"),
    }
}

#[test]
fn test_apply_nonexistent_field_returns_empty() {
    let mask = FieldMask::parse("nonexistent").unwrap_or_else(|_| panic!("parse failed"));
    let input = obj(vec![("name", s("Foo")), ("methods", JsonValue::Array(vec![]))]);
    let output = mask.apply(&input);
    assert_eq!(object_len(&output), 0);
}

#[test]
fn test_validate_fields_against_schema() {
    let schema = obj(vec![(
        "properties",
        obj(vec![
            ("name", obj(vec![("type", s("string"))])),
            ("methods", obj(vec![("type", s("array"))])),
            ("extends", obj(vec![("type", s("array"))])),
        ]),
    )]);
    let mask = FieldMask::parse("name,bogus").unwrap_or_else(|_| panic!("parse failed"));
    let invalid = validate_fields_against_schema(&mask, &schema);
    assert_eq!(invalid, vec!["bogus".to_string()]);
}

#[test]
fn test_validate_all_valid() {
    let schema = obj(vec![(
        "properties",
        obj(vec![
            ("name", obj(vec![("type", s("string"))])),
            ("methods", obj(vec![("type", s("array"))])),
        ]),
    )]);
    let mask = FieldMask::parse("name,methods").unwrap_or_else(|_| panic!("parse failed"));
    let invalid = validate_fields_against_schema(&mask, &schema);
    assert!(invalid.is_empty());
}

#[test]
fn test_deeply_nested_dot_notation() {
    let mask = FieldMask::parse("a.b.c").unwrap_or_else(|_| panic!("parse failed"));
    let input = obj(vec![
        ("a", obj(vec![("b", obj(vec![("c", s("deep")), ("d", s("hidden"))])), ("e", s("hidden"))])),
        ("f", s("hidden")),
    ]);
    let output = mask.apply(&input);
    assert_eq!(output, obj(vec![("a", obj(vec![("b", obj(vec![("c", s("deep"))]))]))]));
}

#[test]
fn field_mask_scalars_pass_through() {
    let mask = FieldMask::parse("name").unwrap_or_else(|_| panic!("parse failed"));
    assert_eq!(mask.apply(&s("plain")), s("plain"));
    assert_eq!(mask.apply(&JsonValue::Null), JsonValue::Null);
}

#[test]
fn field_mask_only_commas_is_error() {
    assert!(matches!(
        FieldMask::parse(" , ,"),
        Err(domain_scan::DomainScanError::FieldMask(_))
    ));
}

#[test]
fn field_mask_top_level_fields_in_order() {
    let mask = FieldMask::parse("stats,files.path,name").unwrap_or_else(|_| panic!("parse failed"));
    let mut fields = mask.top_level_fields();
    fields.sort();
    assert_eq!(fields, vec!["files".to_string(), "name".to_string(), "stats".to_string()]);
}

#[test]
fn field_mask_apply_twice_is_apply_once() {
    let mask = FieldMask::parse("a.b,c").unwrap_or_else(|_| panic!("parse failed"));
    let input = obj(vec![
        ("a", obj(vec![("b", s("1")), ("x", s("2"))])),
        ("c", JsonValue::Array(vec![s("3")])),
        ("d", s("4")),
    ]);
    let once = mask.apply(&input);
    let twice = mask.apply(&once);
    assert_eq!(once, twice);
}

#[test]
fn unicode_white_space_is_trimmed_from_fields() {
    let mask = FieldMask::parse("\u{3000}name\u{00A0},\u{2003}methods\u{0085}")
        .unwrap_or_else(|_| panic!("parse failed"));
    let mut fields = mask.top_level_fields();
    fields.sort();
    assert_eq!(fields, vec!["methods".to_string(), "name".to_string()]);
}

#[test]
fn white_space_agrees_with_std() {
    for u in 0u32..0x3100 {
        if let Some(c) = char::from_u32(u) {
            let trimmed = domain_scan::text::trim_chars(&vec![c]);
            assert_eq!(trimmed.is_empty(), c.is_whitespace(), "U+{u:04X}");
        }
    }
}
