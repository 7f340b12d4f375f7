use multiagent::json::Json;
use multiagent::text::{
    eq_ignore_ascii_case, parse_i64_str, replace_str, str_contains, to_lower, trim_matches,
    trim_start_matches, trimmed,
};

#[test]
fn compact_json_text() {
    let value = Json::Object(vec![
        ("a".to_string(), Json::Array(vec![Json::Null, Json::Bool(true), Json::Bool(false)])),
        ("n".to_string(), Json::Number(-42)),
        ("big".to_string(), Json::Number(18446744073709551615)),
        ("f".to_string(), Json::Float("1.5".to_string())),
        ("o".to_string(), Json::Object(vec![])),
    ]);
    assert_eq!(
        value.to_compact(),
        "{\"a\":[null,true,false],\"n\":-42,\"big\":18446744073709551615,\"f\":1.5,\"o\":{}}"
    );
}

#[test]
fn json_strings_are_escaped_by_serde_json() {
    assert_eq!(Json::Str("a\"b\n\\".to_string()).to_compact(), "\"a\\\"b\\n\\\\\"");
    assert_eq!(Json::Str("\u{1}é".to_string()).to_compact(), "\"\\u0001é\"");
    let keyed = Json::Object(vec![("k\"".to_string(), Json::Str("v".to_string()))]);
    assert_eq!(keyed.to_compact(), "{\"k\\\"\":\"v\"}");
}

#[test]
fn json_accessors() {
    let value = Json::Object(vec![
        ("id".to_string(), Json::Number(7)),
        ("big".to_string(), Json::Number(18446744073709551615)),
        ("neg".to_string(), Json::Number(-1)),
        ("s".to_string(), Json::Str("x".to_string())),
    ]);
    assert_eq!(value.get("id").and_then(|v| v.as_i64()), Some(7));
    assert_eq!(value.get("big").and_then(|v| v.as_i64()), None);
    assert_eq!(value.get("big").and_then(|v| v.as_u64()), Some(18446744073709551615));
    assert_eq!(value.get("neg").and_then(|v| v.as_u64()), None);
    assert_eq!(value.get("s").and_then(|v| v.as_str()).map(|s| s.as_str()), Some("x"));
    assert_eq!(value.get("missing"), None);
    assert_eq!(Json::Null.get("id"), None);
    assert_eq!(value.copy(), value);
}

#[test]
fn integer_parsing_follows_str_parse() {
    assert_eq!(parse_i64_str("123"), Some(123));
    assert_eq!(parse_i64_str("+5"), Some(5));
    assert_eq!(parse_i64_str("-9223372036854775808"), Some(i64::MIN));
    assert_eq!(parse_i64_str("9223372036854775807"), Some(i64::MAX));
    assert_eq!(parse_i64_str("9223372036854775808"), None);
    assert_eq!(parse_i64_str(""), None);
    assert_eq!(parse_i64_str("-"), None);
    assert_eq!(parse_i64_str(" 1"), None);
    assert_eq!(parse_i64_str("1a"), None);
}

#[test]
fn string_helpers() {
    assert_eq!(trimmed("\u{3000} a b \n"), "a b");
    assert_eq!(trim_start_matches("//a/", '/'), "a/");
    assert_eq!(trim_matches("\"x\"\"", '"'), "x");
    assert_eq!(replace_str("a--b--", "--", "+"), "a+b+");
    assert_eq!(to_lower("ÀBc"), "Àbc");
    assert!(eq_ignore_ascii_case("TeLeGrAm", "telegram"));
    assert!(str_contains("abc", ""));
    assert!(!str_contains("abc", "abcd"));
}
