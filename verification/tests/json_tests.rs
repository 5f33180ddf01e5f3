use channel_store::json::{find_key, get_key, has_key, remove_key, set_key, Json};
use channel_store::text::{parse_json, print_json};

fn obj(members: Vec<(&str, Json)>) -> Json {
    Json::Obj(members.into_iter().map(|(k, v)| (k.to_string(), v)).collect())
}

fn s(v: &str) -> Json {
    Json::Str(v.to_string())
}

#[test]
fn parses_scalars() {
    assert!(matches!(parse_json("null"), Some(Json::Null)));
    assert!(matches!(parse_json("true"), Some(Json::Bool(true))));
    assert!(matches!(parse_json("false"), Some(Json::Bool(false))));
    match parse_json("\"hi\"") {
        Some(Json::Str(t)) => assert_eq!(t, "hi"),
        _ => panic!("expected a string"),
    }
    match parse_json(" -12.5e3 ") {
        Some(Json::Num(t)) => assert_eq!(t, "-12.5e3"),
        _ => panic!("expected a number"),
    }
}

#[test]
fn parses_structures() {
    match parse_json("{\"a\": [1, 2], \"b\": {}}") {
        Some(Json::Obj(members)) => {
            assert_eq!(members.len(), 2);
            assert_eq!(members[0].0, "a");
            match &members[0].1 {
                Json::Arr(items) => assert_eq!(items.len(), 2),
                _ => panic!("expected an array"),
            }
            assert_eq!(members[1].0, "b");
            assert!(matches!(&members[1].1, Json::Obj(m) if m.is_empty()));
        }
        _ => panic!("expected an object"),
    }
}

#[test]
fn rejects_malformed_documents() {
    assert!(parse_json("").is_none());
    assert!(parse_json("{").is_none());
    assert!(parse_json("{\"a\": }").is_none());
    assert!(parse_json("[1,]").is_none());
    assert!(parse_json("01").is_none());
    assert!(parse_json("1.").is_none());
    assert!(parse_json("\"unterminated").is_none());
    assert!(parse_json("true false").is_none());
    assert!(parse_json("{\"a\" 1}").is_none());
    assert!(parse_json("nul").is_none());
}

#[test]
fn parses_escapes() {
    match parse_json("\"a\\n\\t\\\\\\\"\\u0041\"") {
        Some(Json::Str(t)) => assert_eq!(t, "a\n\t\\\"A"),
        _ => panic!("expected a string"),
    }
    // An escaped surrogate pair is not accepted; raw characters beyond the
    // basic plane are.
    assert!(parse_json("\"\\ud83d\\ude00\"").is_none());
    match parse_json("\"\u{1F600}\"") {
        Some(Json::Str(t)) => assert_eq!(t, "\u{1F600}"),
        _ => panic!("expected a string"),
    }
}

#[test]
fn repeated_keys_keep_first_position_and_last_value() {
    match parse_json("{\"a\": 1, \"b\": 2, \"a\": 3}") {
        Some(Json::Obj(members)) => {
            assert_eq!(members.len(), 2);
            assert_eq!(members[0].0, "a");
            assert!(matches!(&members[0].1, Json::Num(t) if t == "3"));
            assert_eq!(members[1].0, "b");
        }
        _ => panic!("expected an object"),
    }
}

#[test]
fn prints_pretty_form() {
    let doc = obj(vec![
        ("name", s("work")),
        ("flags", Json::Arr(vec![Json::Bool(true), Json::Null])),
        ("empty", Json::Obj(vec![])),
    ]);
    let expected = "{\n  \"name\": \"work\",\n  \"flags\": [\n    true,\n    null\n  ],\n  \"empty\": {}\n}";
    assert_eq!(print_json(&doc), expected);
}

#[test]
fn prints_escaped_strings() {
    let doc = s("a\"b\\c\nd\u{1}");
    assert_eq!(print_json(&doc), "\"a\\\"b\\\\c\\nd\\u0001\"");
}

#[test]
fn object_operations_edit_members_in_place() {
    let doc = vec![
        ("a".to_string(), Json::Num("1".to_string())),
        ("b".to_string(), Json::Num("2".to_string())),
    ];
    assert!(has_key(&doc, &"a".to_string()));
    assert!(!has_key(&doc, &"c".to_string()));
    assert_eq!(find_key(&doc, &"b".to_string()), Some(1));
    assert!(matches!(get_key(&doc, &"b".to_string()), Some(Json::Num(t)) if t == "2"));
    assert!(get_key(&doc, &"c".to_string()).is_none());
    // Setting a present key keeps its position; a new key is appended.
    let doc = set_key(doc, "a".to_string(), Json::Bool(true));
    let doc = set_key(doc, "c".to_string(), Json::Null);
    assert_eq!(doc[0].0, "a");
    assert!(matches!(doc[0].1, Json::Bool(true)));
    assert_eq!(doc[2].0, "c");
    // Removing drops the member and nothing else.
    let doc = remove_key(doc, &"b".to_string());
    let keys: Vec<&str> = doc.iter().map(|p| p.0.as_str()).collect();
    assert_eq!(keys, vec!["a", "c"]);
}

#[test]
fn print_then_parse_returns_the_value() {
    let doc = obj(vec![
        ("env", obj(vec![("K", s("v v")), ("Q", s("it's"))])),
        ("n", Json::Num("-3.25e-2".to_string())),
        ("list", Json::Arr(vec![s("x"), Json::Arr(vec![])])),
    ]);
    let text = print_json(&doc);
    let back = parse_json(&text).expect("printed text must parse");
    assert_eq!(print_json(&back), text);
}
