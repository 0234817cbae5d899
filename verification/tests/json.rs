use serde_json::Value;
use sessio::json::{json_to_string, write_json_text, JsonValue};

fn lib(value: &Value) -> JsonValue {
    match value {
        Value::Null => JsonValue::Null,
        Value::Bool(b) => JsonValue::Bool(*b),
        Value::Number(n) => JsonValue::Number(n.to_string()),
        Value::String(s) => JsonValue::Str(s.clone()),
        Value::Array(items) => JsonValue::Array(items.iter().map(lib).collect()),
        Value::Object(map) => {
            JsonValue::Object(map.iter().map(|(k, v)| (k.clone(), lib(v))).collect())
        }
    }
}

fn parse(text: &str) -> JsonValue {
    lib(&serde_json::from_str::<Value>(text).unwrap())
}

fn compact(v: &JsonValue) -> String {
    let mut out = String::new();
    write_json_text(v, &mut out);
    out
}

#[test]
fn compact_text_matches_serde_json() {
    let samples = [
        "null",
        "true",
        "false",
        "0",
        "-17",
        "3.25",
        "1e300",
        "\"plain\"",
        "\"quote \\\" backslash \\\\ slash /\"",
        "\"controls \\u0000 \\u0001 \\b \\t \\n \\u000b \\f \\r \\u001f \\u007f\"",
        "\"unicode é 漢字 😀\"",
        "[]",
        "{}",
        "[1,[2,[3,{}]],\"x\"]",
        "{\"b\":1,\"a\":[true,null],\"c\":{\"d\":\"e\"}}",
        "{\"key with \\\"quote\\\"\":\"v\"}",
    ];
    for text in samples {
        let value: Value = serde_json::from_str(text).unwrap();
        let expected = serde_json::to_string(&value).unwrap();
        assert_eq!(compact(&lib(&value)), expected, "for {}", text);
    }
}

#[test]
fn json_to_string_keeps_strings_bare() {
    assert_eq!(json_to_string(&parse("\"hi \\\"there\\\"\"")), "hi \"there\"");
    assert_eq!(json_to_string(&parse("{\"a\":1}")), "{\"a\":1}");
    assert_eq!(json_to_string(&parse("[\"x\"]")), "[\"x\"]");
    assert_eq!(json_to_string(&JsonValue::Null), "null");
}

#[test]
fn get_finds_members_of_objects_only() {
    let v = parse("{\"type\":\"message\",\"n\":2,\"flag\":true}");
    assert_eq!(v.get_str("type"), Some("message"));
    assert_eq!(v.get_str("n"), None);
    assert!(v.get("n").is_some());
    assert_eq!(v.get_bool("flag"), Some(true));
    assert_eq!(v.get_bool("type"), None);
    assert!(v.get("missing").is_none());
    assert!(parse("[1,2]").get("0").is_none());
    assert!(parse("\"type\"").get("type").is_none());
}

#[test]
fn get_takes_the_first_entry_of_a_key() {
    let v = JsonValue::Object(vec![
        ("k".to_string(), JsonValue::Str("first".to_string())),
        ("k".to_string(), JsonValue::Str("second".to_string())),
    ]);
    assert_eq!(v.get_str("k"), Some("first"));
}

#[test]
fn deep_copy_is_equal_in_text() {
    let v = parse("{\"a\":[1,{\"b\":\"c\"}],\"d\":null}");
    assert_eq!(compact(&v.deep_copy()), compact(&v));
}
