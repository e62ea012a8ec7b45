//! Unit tests of the merge engine, the path projector and the serializer on
//! values built directly.
use hcl2json::{merge_values, project, serialize, JsonValue, Number, ProjectionError};

fn s(text: &str) -> JsonValue {
    JsonValue::Str(text.to_string())
}

fn n(i: i64) -> JsonValue {
    JsonValue::Number(Number::Int(i))
}

fn obj(fields: Vec<(&str, JsonValue)>) -> JsonValue {
    JsonValue::Object(
        fields
            .into_iter()
            .map(|(k, v)| (k.to_string(), v))
            .collect(),
    )
}

fn compact(v: &JsonValue) -> String {
    serialize(v, false, 2, false)
}

#[test]
fn shallow_merge_later_document_wins() {
    // keys in both take the second document's value; other keys are the union
    let a = obj(vec![("a", n(1)), ("b", n(2))]);
    let b = obj(vec![("b", n(3)), ("c", n(4))]);
    let merged = merge_values(vec![a, b], false).unwrap();
    assert_eq!(compact(&merged), r#"{"a":1,"b":3,"c":4}"#);
}

#[test]
fn shallow_merge_does_not_recurse() {
    let a = obj(vec![("k", obj(vec![("x", n(1)), ("y", n(2))]))]);
    let b = obj(vec![("k", obj(vec![("y", n(9))]))]);
    let merged = merge_values(vec![a, b], false).unwrap();
    assert_eq!(compact(&merged), r#"{"k":{"y":9}}"#);
}

#[test]
fn deep_merge_combines_nested_objects() {
    let a = obj(vec![("k", obj(vec![("x", n(1)), ("y", n(2))])), ("s", s("old"))]);
    let b = obj(vec![("k", obj(vec![("y", n(9)), ("z", n(3))])), ("s", s("new"))]);
    let merged = merge_values(vec![a, b], true).unwrap();
    assert_eq!(compact(&merged), r#"{"k":{"x":1,"y":9,"z":3},"s":"new"}"#);
}

#[test]
fn merge_is_order_sensitive() {
    let a = obj(vec![("k", n(1))]);
    let b = obj(vec![("k", n(2))]);
    let ab = merge_values(vec![a, b], false).unwrap();
    let a2 = obj(vec![("k", n(1))]);
    let b2 = obj(vec![("k", n(2))]);
    let ba = merge_values(vec![b2, a2], false).unwrap();
    assert_ne!(compact(&ab), compact(&ba));
}

#[test]
fn merge_of_a_single_document_is_identity() {
    let a = obj(vec![("a", n(1)), ("b", obj(vec![("c", s("x"))]))]);
    let before = compact(&a);
    let merged = merge_values(vec![a], false).unwrap();
    assert_eq!(compact(&merged), before);
    let arr = JsonValue::Array(vec![n(1), n(2)]);
    let merged = merge_values(vec![arr], true).unwrap();
    assert_eq!(compact(&merged), "[1,2]");
}

#[test]
fn shallow_merge_reports_first_non_object() {
    let a = obj(vec![("a", n(1))]);
    let bad = JsonValue::Array(vec![n(1)]);
    let c = obj(vec![("c", n(3))]);
    assert_eq!(merge_values(vec![a, bad, c], false).unwrap_err(), 1);
}

#[test]
fn arrays_are_replaced_wholesale_under_deep_merge() {
    let a = obj(vec![("xs", JsonValue::Array(vec![n(1), n(2)]))]);
    let b = obj(vec![("xs", JsonValue::Array(vec![n(3)]))]);
    let merged = merge_values(vec![a, b], true).unwrap();
    assert_eq!(compact(&merged), r#"{"xs":[3]}"#);
}

#[test]
fn empty_path_projects_the_whole_value() {
    let root = obj(vec![("a", n(1))]);
    let projected = project(&root, "").unwrap();
    assert_eq!(compact(&projected), compact(&root));
}

#[test]
fn projection_returns_exactly_the_nested_value() {
    let root = obj(vec![("a", obj(vec![("b", s("deep"))]))]);
    let projected = project(&root, "a.b").unwrap();
    assert_eq!(compact(&projected), "\"deep\"");
}

#[test]
fn projection_through_non_object_names_the_resolved_path() {
    let root = obj(vec![("a", n(5))]);
    let err = project(&root, "a.b").unwrap_err();
    assert_eq!(
        err.message(),
        "Cannot access property 'b' on non-object at path 'a'"
    );
}

#[test]
fn projection_missing_key_lists_available_keys() {
    let root = obj(vec![("a", obj(vec![("x", n(1)), ("y", n(2))]))]);
    let err = project(&root, "a.b").unwrap_err();
    assert_eq!(
        err.message(),
        "Property 'a.b' not found at 'a.b' (available properties: x, y)"
    );
    match err {
        ProjectionError::KeyNotFound { available, .. } => {
            assert_eq!(available, vec!["x".to_string(), "y".to_string()]);
        }
        _ => panic!("expected a missing key"),
    }
}

#[test]
fn projection_missing_key_on_empty_object_lists_nothing() {
    let root = obj(vec![("a", obj(vec![]))]);
    let err = project(&root, "a.b").unwrap_err();
    assert_eq!(
        err.message(),
        "Property 'a.b' not found at 'a.b' (available properties: )"
    );
}

#[test]
fn scalars_render_exactly() {
    assert_eq!(compact(&JsonValue::Null), "null");
    assert_eq!(compact(&JsonValue::Bool(true)), "true");
    assert_eq!(compact(&JsonValue::Bool(false)), "false");
    assert_eq!(compact(&n(0)), "0");
    assert_eq!(compact(&n(-42)), "-42");
    assert_eq!(compact(&n(i64::MIN)), "-9223372036854775808");
    assert_eq!(
        compact(&JsonValue::Number(Number::Uint(u64::MAX))),
        "18446744073709551615"
    );
    assert_eq!(
        compact(&JsonValue::Number(Number::Float("2.5".to_string()))),
        "2.5"
    );
}

#[test]
fn strings_escape_like_json() {
    let v = s("a\"b\\c\nd\te\u{1}f");
    assert_eq!(compact(&v), "\"a\\\"b\\\\c\\nd\\te\\u0001f\"");
}

#[test]
fn empty_containers_render_closed() {
    assert_eq!(compact(&JsonValue::Array(vec![])), "[]");
    assert_eq!(compact(&obj(vec![])), "{}");
    assert_eq!(serialize(&JsonValue::Array(vec![]), true, 2, false), "[]");
    assert_eq!(serialize(&obj(vec![]), true, 2, false), "{}");
}

#[test]
fn pretty_array_layout() {
    let v = JsonValue::Array(vec![n(1), n(2)]);
    assert_eq!(serialize(&v, true, 2, false), "[\n  1,\n  2\n]");
}

#[test]
fn pretty_nested_indentation() {
    let v = obj(vec![("a", obj(vec![("b", n(1))]))]);
    assert_eq!(
        serialize(&v, true, 2, false),
        "{\n  \"a\": {\n    \"b\": 1\n  }\n}"
    );
}

#[test]
fn single_quotes_swap_only_structural_quotes() {
    let v = obj(vec![("a", s("say \"hi\""))]);
    assert_eq!(
        serialize(&v, false, 2, true),
        "{'a':'say \\\"hi\\\"'}"
    );
}

#[test]
fn roundtrip_through_json_parser_compact_and_pretty() {
    // serialize then re-parse: deep-equal for both layouts
    let v = obj(vec![
        ("nil", JsonValue::Null),
        ("flag", JsonValue::Bool(true)),
        ("int", n(-7)),
        ("big", JsonValue::Number(Number::Uint(18446744073709551615))),
        ("float", JsonValue::Number(Number::Float("0.125".to_string()))),
        ("text", s("line\nwith \"quotes\" and \\slashes\\")),
        ("list", JsonValue::Array(vec![n(1), s("two"), JsonValue::Null])),
        ("nested", obj(vec![("inner", JsonValue::Array(vec![obj(vec![("k", s("v"))])]))])),
    ]);
    let compact_text = serialize(&v, false, 2, false);
    let pretty_text = serialize(&v, true, 4, false);
    let from_compact: serde_json::Value = serde_json::from_str(&compact_text).unwrap();
    let from_pretty: serde_json::Value = serde_json::from_str(&pretty_text).unwrap();
    assert_eq!(from_compact, from_pretty);
    // and the parsed tree holds exactly the constructed values
    assert_eq!(from_compact["int"], serde_json::Value::from(-7i64));
    assert_eq!(from_compact["big"], serde_json::Value::from(u64::MAX));
    assert_eq!(from_compact["float"], serde_json::Value::from(0.125f64));
    assert_eq!(
        from_compact["text"],
        serde_json::Value::String("line\nwith \"quotes\" and \\slashes\\".to_string())
    );
    assert_eq!(from_compact["nested"]["inner"][0]["k"], serde_json::Value::String("v".to_string()));
    // a second serialize of the same value is unchanged
    assert_eq!(compact_text, serialize(&v, false, 2, false));
}

#[test]
fn format_simple_error_counts_lines() {
    assert_eq!(
        hcl2json::format_hcl_error_simple(""),
        "syntax error (file has 0 lines)"
    );
    assert_eq!(
        hcl2json::format_hcl_error_simple("a = 1\nb = 2\n"),
        "syntax error (file has 2 lines)"
    );
    assert_eq!(
        hcl2json::format_hcl_error_simple("a = 1\nb = 2"),
        "syntax error (file has 2 lines)"
    );
}
