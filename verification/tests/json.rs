use wifiscanner::json::{decode, Json};
use wifiscanner::record::ParseError;

fn text(s: &str) -> Json {
    Json::Text(s.to_string())
}

fn object(members: Vec<(&str, Json)>) -> Json {
    Json::Object(members.into_iter().map(|(k, v)| (k.to_string(), v)).collect())
}

#[test]
fn decode_reads_every_kind_of_value() {
    assert_eq!(decode("null"), Ok(Json::Null));
    assert_eq!(decode("true"), Ok(Json::Bool(true)));
    assert_eq!(decode("false"), Ok(Json::Bool(false)));
    assert_eq!(decode("12"), Ok(Json::Number));
    assert_eq!(decode("-1.5e3"), Ok(Json::Number));
    assert_eq!(decode("\"a\\n\\u00e9\""), Ok(text("a\n\u{e9}")));
    assert_eq!(decode("[]"), Ok(Json::List(vec![])));
    assert_eq!(decode("{}"), Ok(Json::Object(vec![])));
}

#[test]
fn decode_reads_nested_values() {
    assert_eq!(
        decode(r#" { "a" : [ 1, "x", null, true, { "b" : [] } ] } "#),
        Ok(object(vec![(
            "a",
            Json::List(vec![
                Json::Number,
                text("x"),
                Json::Null,
                Json::Bool(true),
                object(vec![("b", Json::List(vec![]))]),
            ])
        )]))
    );
}

#[test]
fn decode_keeps_list_order() {
    assert_eq!(
        decode(r#"["c", "a", "b"]"#),
        Ok(Json::List(vec![text("c"), text("a"), text("b")]))
    );
}

#[test]
fn decode_keeps_the_last_of_equal_keys() {
    let doc = decode(r#"{"a": 1, "a": "x"}"#).unwrap();
    assert_eq!(doc.member("a"), Some(&text("x")));
    assert_eq!(doc, object(vec![("a", text("x"))]));
}

#[test]
fn decode_refuses_what_is_no_json() {
    assert_eq!(decode(""), Err(ParseError::MalformedDocument));
    assert_eq!(decode("{"), Err(ParseError::MalformedDocument));
    assert_eq!(decode("[1,]"), Err(ParseError::MalformedDocument));
    assert_eq!(decode("{\"a\" 1}"), Err(ParseError::MalformedDocument));
    assert_eq!(decode("nul"), Err(ParseError::MalformedDocument));
    assert_eq!(decode("1 2"), Err(ParseError::MalformedDocument));
    assert_eq!(decode("\"open"), Err(ParseError::MalformedDocument));
}

#[test]
fn member_gives_the_first_with_the_key() {
    let doc = object(vec![("a", Json::Number), ("b", text("x")), ("a", Json::Null)]);
    assert_eq!(doc.member("a"), Some(&Json::Number));
    assert_eq!(doc.member("b"), Some(&text("x")));
    assert_eq!(doc.member("c"), None);
    assert_eq!(doc.member(""), None);
    assert_eq!(doc.member("A"), None);
}

#[test]
fn member_of_what_is_no_object() {
    assert_eq!(Json::Null.member("a"), None);
    assert_eq!(text("a").member("a"), None);
    assert_eq!(Json::List(vec![text("a")]).member("a"), None);
}

#[test]
fn kinds_are_told_apart() {
    assert!(object(vec![]).is_object());
    assert!(!Json::List(vec![]).is_object());
    assert!(!Json::Null.is_object());
    assert_eq!(text("x").as_text(), Some(&"x".to_string()));
    assert_eq!(Json::Number.as_text(), None);
    assert_eq!(Json::Null.as_text(), None);
    assert_eq!(Json::List(vec![Json::Null]).as_list(), Some(&vec![Json::Null]));
    assert_eq!(object(vec![]).as_list(), None);
    assert_eq!(text("[]").as_list(), None);
}

fn nested_lists(depth: usize) -> String {
    format!("{}{}", "[".repeat(depth), "]".repeat(depth))
}

#[test]
fn decode_limits_the_depth() {
    let mut expected = Json::List(vec![]);
    for _ in 1..100 {
        expected = Json::List(vec![expected]);
    }
    assert_eq!(decode(&nested_lists(100)), Ok(expected));
    assert_eq!(decode(&nested_lists(200)), Err(ParseError::MalformedDocument));
    assert_eq!(decode(&nested_lists(100_000)), Err(ParseError::MalformedDocument));
}
