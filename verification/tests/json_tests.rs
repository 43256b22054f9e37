use xhtp::json::{json_eq, parse_json_text, to_json_string, JsonValue};

#[test]
fn encode_scalars() {
    assert_eq!(to_json_string(&JsonValue::Null), "null");
    assert_eq!(to_json_string(&JsonValue::Bool(true)), "true");
    assert_eq!(to_json_string(&JsonValue::Bool(false)), "false");
    assert_eq!(to_json_string(&JsonValue::Num(vec!['1', '.', '5'])), "1.5");
    assert_eq!(to_json_string(&JsonValue::Str("hi".to_string())), "\"hi\"");
}

#[test]
fn encode_escapes_specials() {
    let v = JsonValue::Str("a\"b\\c\nd\re\tf".to_string());
    assert_eq!(to_json_string(&v), "\"a\\\"b\\\\c\\nd\\re\\tf\"");
}

#[test]
fn encode_nested() {
    let v = JsonValue::Obj(vec![
        ("k".to_string(), JsonValue::Arr(vec![JsonValue::Num(vec!['1']), JsonValue::Null])),
    ]);
    assert_eq!(to_json_string(&v), "{\"k\":[1,null]}");
}

#[test]
fn parse_canonical_back() {
    let v = JsonValue::Obj(vec![
        ("a".to_string(), JsonValue::Str("x\ty".to_string())),
        ("b".to_string(), JsonValue::Arr(vec![JsonValue::Bool(false)])),
        ("n".to_string(), JsonValue::Num(vec!['-', '3', 'e', '2'])),
    ]);
    let text = to_json_string(&v);
    let back = parse_json_text(text.as_str()).expect("canonical text must parse");
    assert!(json_eq(&v, &back));
}

#[test]
fn parse_tolerates_whitespace() {
    let back = parse_json_text(" { \"a\" : [ 1 , 2 ] , \"b\" : null } ")
        .expect("spaced text must parse");
    let expected = JsonValue::Obj(vec![
        ("a".to_string(), JsonValue::Arr(vec![
            JsonValue::Num(vec!['1']),
            JsonValue::Num(vec!['2']),
        ])),
        ("b".to_string(), JsonValue::Null),
    ]);
    assert!(json_eq(&back, &expected));
}

#[test]
fn parse_string_escapes() {
    let back = parse_json_text("\"a\\\"b\\\\c\\nd\"").expect("escaped string must parse");
    assert!(json_eq(&back, &JsonValue::Str("a\"b\\c\nd".to_string())));
}

#[test]
fn parse_rejects_malformed() {
    assert!(parse_json_text("").is_none());
    assert!(parse_json_text("{").is_none());
    assert!(parse_json_text("[1,]]").is_none());
    assert!(parse_json_text("\"unterminated").is_none());
    assert!(parse_json_text("nul").is_none());
    assert!(parse_json_text("1 2").is_none());
    assert!(parse_json_text("{\"a\" 1}").is_none());
}

#[test]
fn parse_trailing_comma_tolerated_in_arrays() {
    // The parser accepts an element list that ends before the bracket.
    let back = parse_json_text("[1,]").expect("must parse");
    assert!(json_eq(&back, &JsonValue::Arr(vec![JsonValue::Num(vec!['1'])])));
}

#[test]
fn parse_all_escape_shorthands() {
    let back = parse_json_text("\"a\\/b\\bc\\fd\"").expect("shorthand escapes must parse");
    assert!(json_eq(&back, &JsonValue::Str("a/b\u{8}c\u{c}d".to_string())));
}

#[test]
fn parse_unicode_escapes() {
    let back = parse_json_text("\"Jos\\u00e9\"").expect("a unicode escape must parse");
    assert!(json_eq(&back, &JsonValue::Str("Jos\u{e9}".to_string())));
    let upper = parse_json_text("\"\\u00E9\"").expect("upper-case hex must parse");
    assert!(json_eq(&upper, &JsonValue::Str("\u{e9}".to_string())));
    let obj = parse_json_text("{\"name\":\"Jos\\u00e9\"}").expect("must parse");
    let expected = JsonValue::Obj(vec![("name".to_string(), JsonValue::Str("Jos\u{e9}".to_string()))]);
    assert!(json_eq(&obj, &expected));
}

#[test]
fn parse_surrogate_pairs() {
    let back = parse_json_text("\"\\ud83d\\ude00\"").expect("a surrogate pair must parse");
    assert!(json_eq(&back, &JsonValue::Str("\u{1f600}".to_string())));
}

#[test]
fn parse_rejects_bad_unicode_escapes() {
    assert!(parse_json_text("\"\\u12\"").is_none());
    assert!(parse_json_text("\"\\uzzzz\"").is_none());
    assert!(parse_json_text("\"\\ud83d\"").is_none());
    assert!(parse_json_text("\"\\ude00\"").is_none());
    assert!(parse_json_text("\"\\x41\"").is_none());
}

#[test]
fn parse_rejects_raw_control_characters() {
    assert!(parse_json_text("\"a\u{1}b\"").is_none());
    assert!(parse_json_text("\"a\tb\"").is_none());
}

#[test]
fn encode_escapes_other_controls_as_unicode() {
    let v = JsonValue::Str("a\u{8}b\u{c}c\u{1}d".to_string());
    let text = to_json_string(&v);
    assert_eq!(text, "\"a\\u0008b\\u000cc\\u0001d\"");
    let back = parse_json_text(text.as_str()).expect("must round trip");
    assert!(json_eq(&back, &v));
}

#[test]
fn encoded_text_is_json_another_parser_accepts() {
    let v = JsonValue::Obj(vec![(
        "k\u{1f}".to_string(),
        JsonValue::Arr(vec![
            JsonValue::Str("line\nbreak \u{8} \u{c} quote\" slash/ gr\u{fc}n \u{1f600}".to_string()),
            JsonValue::Num(vec!['-', '3', '.', '5', 'e', '2']),
            JsonValue::Bool(false),
            JsonValue::Null,
        ]),
    )]);
    let text = to_json_string(&v);
    let outside: serde_json::Value =
        serde_json::from_str(&text).expect("the written text must be valid JSON");
    assert_eq!(outside["k\u{1f}"][0].as_str().unwrap(),
        "line\nbreak \u{8} \u{c} quote\" slash/ gr\u{fc}n \u{1f600}");
    let back = parse_json_text(text.as_str()).expect("must round trip");
    assert!(json_eq(&back, &v));
}

#[test]
fn json_eq_distinguishes() {
    let a = JsonValue::Obj(vec![("k".to_string(), JsonValue::Num(vec!['1']))]);
    let b = JsonValue::Obj(vec![("k".to_string(), JsonValue::Num(vec!['2']))]);
    let c = JsonValue::Obj(vec![("j".to_string(), JsonValue::Num(vec!['1']))]);
    assert!(!json_eq(&a, &b));
    assert!(!json_eq(&a, &c));
    assert!(json_eq(&a, &a));
    assert!(!json_eq(&a, &JsonValue::Null));
}
