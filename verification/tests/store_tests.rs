use xhtp::json::JsonValue;
use xhtp::store::{
    delete_global_variable, delete_request_by_index, get_request_from_saved_requests,
    parse_global_variables, parse_saved_request, parse_saved_requests, save_to_global_variables,
    serialize_global_variables, serialize_saved_request, serialize_saved_requests,
    set_request_by_index, IndexOutOfRange,
};
use xhtp::structs::{BodyType, ExtractVariable, GlobalVariable, HttpRequest, Method};

fn sample_requests() -> Vec<HttpRequest> {
    vec![
        HttpRequest {
            method: Method::Get,
            url: "example.com/ping".to_string(),
            headers: vec!["Accept: application/json".to_string()],
            body_type: None,
            body: None,
            extract_variables: Some(vec![ExtractVariable {
                key_path: "token".to_string(),
                variable_name: "auth".to_string(),
            }]),
        },
        HttpRequest {
            method: Method::Post,
            url: "https://example.com/users".to_string(),
            headers: vec![],
            body_type: Some(BodyType::Json),
            body: Some(JsonValue::Obj(vec![
                ("name".to_string(), JsonValue::Str("a \"quoted\" name\n".to_string())),
                ("age".to_string(), JsonValue::Num(vec!['4', '2'])),
                ("tags".to_string(), JsonValue::Arr(vec![JsonValue::Null, JsonValue::Bool(true)])),
            ])),
            extract_variables: None,
        },
    ]
}

fn request_fields_equal(a: &HttpRequest, b: &HttpRequest) -> bool {
    xhtp::structs::request_eq(a, b)
}

#[test]
fn round_trip_requests() {
    let reqs = sample_requests();
    let text = serialize_saved_requests(&reqs);
    let loaded = parse_saved_requests(text.as_str()).expect("round trip must parse");
    assert_eq!(loaded.len(), reqs.len());
    for k in 0..reqs.len() {
        assert!(request_fields_equal(&loaded[k], &reqs[k]));
    }
}

#[test]
fn round_trip_single_request() {
    let reqs = sample_requests();
    let text = serialize_saved_request(&reqs[1]);
    let loaded = parse_saved_request(text.as_str()).expect("round trip must parse");
    assert!(request_fields_equal(&loaded, &reqs[1]));
}

#[test]
fn round_trip_keeps_unicode() {
    let reqs = vec![HttpRequest {
        method: Method::Get,
        url: "exam\u{e9}ple.com/\u{3c0}?q=\u{2713}".to_string(),
        headers: vec!["X-Note: caf\u{e9}".to_string()],
        body_type: None,
        body: Some(JsonValue::Str("gr\u{fc}n \u{1f600}".to_string())),
        extract_variables: None,
    }];
    let text = serialize_saved_requests(&reqs);
    let loaded = parse_saved_requests(text.as_str()).expect("unicode must round trip");
    assert_eq!(loaded.len(), 1);
    assert!(request_fields_equal(&loaded[0], &reqs[0]));
}

#[test]
fn round_trip_empty_requests() {
    let reqs: Vec<HttpRequest> = vec![];
    let text = serialize_saved_requests(&reqs);
    assert_eq!(text, "[]");
    let loaded = parse_saved_requests(text.as_str()).expect("empty store must parse");
    assert_eq!(loaded.len(), 0);
}

#[test]
fn round_trip_globals() {
    let gs = vec![
        GlobalVariable { key: "host".to_string(), value: "example.com".to_string() },
        GlobalVariable { key: "auth".to_string(), value: "abc".to_string() },
    ];
    let text = serialize_global_variables(&gs);
    let loaded = parse_global_variables(text.as_str()).expect("round trip must parse");
    assert_eq!(loaded.len(), 2);
    assert_eq!(loaded[0].key, "host");
    assert_eq!(loaded[0].value, "example.com");
    assert_eq!(loaded[1].key, "auth");
    assert_eq!(loaded[1].value, "abc");
}

#[test]
fn parse_rejects_garbage() {
    assert!(parse_saved_requests("not json at all").is_err());
    assert!(parse_saved_requests("{\"a\":1}").is_err());
    assert!(parse_global_variables("[{\"key\":\"k\"}]").is_err());
}

#[test]
fn parse_accepts_whitespace() {
    let loaded = parse_global_variables(" [ {\"key\":\"k\", \"value\":\"v\"} ] ")
        .expect("spaced store must parse");
    assert_eq!(loaded.len(), 1);
    assert_eq!(loaded[0].key, "k");
    assert_eq!(loaded[0].value, "v");
}

#[test]
fn upsert_overwrites_existing_key() {
    let mut gs = vec![
        GlobalVariable { key: "host".to_string(), value: "old".to_string() },
        GlobalVariable { key: "auth".to_string(), value: "abc".to_string() },
    ];
    save_to_global_variables(&mut gs, "host".to_string(), "new".to_string());
    assert_eq!(gs.len(), 2);
    assert_eq!(gs[0].key, "host");
    assert_eq!(gs[0].value, "new");
    assert_eq!(gs[1].value, "abc");
}

#[test]
fn upsert_appends_fresh_key() {
    let mut gs = vec![GlobalVariable { key: "host".to_string(), value: "h".to_string() }];
    save_to_global_variables(&mut gs, "auth".to_string(), "abc".to_string());
    assert_eq!(gs.len(), 2);
    assert_eq!(gs[1].key, "auth");
    assert_eq!(gs[1].value, "abc");
}

#[test]
fn delete_request_rejects_bad_index() {
    let mut reqs = sample_requests();
    assert_eq!(delete_request_by_index(&mut reqs, 0), Err(IndexOutOfRange));
    assert_eq!(reqs.len(), 2);
    assert_eq!(delete_request_by_index(&mut reqs, 3), Err(IndexOutOfRange));
    assert_eq!(reqs.len(), 2);
}

#[test]
fn delete_request_removes_at_index() {
    let mut reqs = sample_requests();
    assert!(delete_request_by_index(&mut reqs, 1).is_ok());
    assert_eq!(reqs.len(), 1);
    assert_eq!(reqs[0].url, "https://example.com/users");
}

#[test]
fn delete_global_rejects_bad_index() {
    let mut gs = vec![GlobalVariable { key: "k".to_string(), value: "v".to_string() }];
    assert_eq!(delete_global_variable(&mut gs, 0), Err(IndexOutOfRange));
    assert_eq!(gs.len(), 1);
    assert_eq!(delete_global_variable(&mut gs, 2), Err(IndexOutOfRange));
    assert_eq!(gs.len(), 1);
    assert!(delete_global_variable(&mut gs, 1).is_ok());
    assert_eq!(gs.len(), 0);
}

#[test]
fn get_request_by_valid_index() {
    let reqs = sample_requests();
    let r = get_request_from_saved_requests(&reqs, 2);
    assert_eq!(r.url, "https://example.com/users");
}

#[test]
fn set_request_replaces_at_index() {
    let mut reqs = sample_requests();
    let edited = HttpRequest {
        method: Method::Delete,
        url: "example.com/other".to_string(),
        headers: vec![],
        body_type: None,
        body: None,
        extract_variables: None,
    };
    assert!(set_request_by_index(&mut reqs, 1, edited).is_ok());
    assert_eq!(reqs.len(), 2);
    assert_eq!(reqs[0].url, "example.com/other");
    let rejected = HttpRequest {
        method: Method::Get,
        url: "x".to_string(),
        headers: vec![],
        body_type: None,
        body: None,
        extract_variables: None,
    };
    assert!(set_request_by_index(&mut reqs, 0, rejected).is_err());
    assert_eq!(reqs.len(), 2);
}
