use xhtp::dispatch::{parse_header, prepare_request, PrepareError, PreparedBody};
use xhtp::import::{get_base_url, map_open_api_spec_to_http_requests, merge_requests};
use xhtp::json::JsonValue;
use xhtp::openapi_structs::{Info, OpenAPI, Operation, Parameter, PathItem};
use xhtp::resolve::resolve_string;
use xhtp::response::handle_response;
use xhtp::structs::{BodyType, ExtractVariable, GlobalVariable, HttpRequest, Method};
use xhtp::utils::{
    arg_is_number, convert_option_to_number, get_ansi_colored_request_method,
    get_content_type_from_header, get_extract_variables_list, get_http_requests_file_path,
    get_json_value, get_url_with_https,
};

fn globals(pairs: &[(&str, &str)]) -> Vec<GlobalVariable> {
    pairs
        .iter()
        .map(|(k, v)| GlobalVariable { key: k.to_string(), value: v.to_string() })
        .collect()
}

fn get_op(params: Vec<Parameter>) -> Operation {
    Operation {
        summary: None,
        description: None,
        operation_id: None,
        parameters: if params.is_empty() { None } else { Some(params) },
        request_body: None,
        responses: vec![],
    }
}

#[test]
fn resolve_replaces_placeholders() {
    let gs = globals(&[("host", "example.com"), ("id", "7")]);
    let r = resolve_string("{{host}}/items/{{id}}", &gs);
    assert_eq!(r, "example.com/items/7");
}

#[test]
fn resolve_leaves_unknown_placeholders() {
    let gs = globals(&[("host", "example.com")]);
    let r = resolve_string("{{host}}/{{missing}}", &gs);
    assert_eq!(r, "example.com/{{missing}}");
}

#[test]
fn resolve_no_placeholder_is_identity() {
    let gs = globals(&[("host", "example.com"), ("a", "b")]);
    let r = resolve_string("https://plain.example/path?q=1", &gs);
    assert_eq!(r, "https://plain.example/path?q=1");
}

#[test]
fn https_normalization() {
    assert_eq!(get_url_with_https("example.com"), "https://example.com");
    assert_eq!(get_url_with_https("http://example.com"), "http://example.com");
    assert_eq!(get_url_with_https("https://example.com"), "https://example.com");
}

#[test]
fn dispatch_resolves_url_like_the_transport_sees_it() {
    let gs = globals(&[("host", "example.com")]);
    let req = HttpRequest {
        method: Method::Get,
        url: "{{host}}/ping".to_string(),
        headers: vec![],
        body_type: None,
        body: None,
        extract_variables: None,
    };
    let p = prepare_request(&req, &gs).expect("a plain GET must prepare");
    assert_eq!(p.url, "https://example.com/ping");
    assert!(matches!(p.body, PreparedBody::Empty));
    assert_eq!(p.headers.len(), 0);
}

#[test]
fn dispatch_parses_headers() {
    let gs = globals(&[("tok", "abc")]);
    let req = HttpRequest {
        method: Method::Get,
        url: "example.com".to_string(),
        headers: vec!["Authorization: \"Bearer {{tok}}\"".to_string()],
        body_type: None,
        body: None,
        extract_variables: None,
    };
    let p = prepare_request(&req, &gs).expect("must prepare");
    assert_eq!(p.headers.len(), 1);
    assert_eq!(p.headers[0].0, "Authorization");
    assert_eq!(p.headers[0].1, "Bearer abc");
}

#[test]
fn dispatch_rejects_header_without_colon() {
    let req = HttpRequest {
        method: Method::Get,
        url: "example.com".to_string(),
        headers: vec!["no separator here".to_string()],
        body_type: None,
        body: None,
        extract_variables: None,
    };
    assert!(matches!(prepare_request(&req, &vec![]), Err(PrepareError::HeaderFormat)));
}

#[test]
fn dispatch_rejects_text_post_without_body() {
    let req = HttpRequest {
        method: Method::Post,
        url: "example.com".to_string(),
        headers: vec![],
        body_type: Some(BodyType::Text),
        body: None,
        extract_variables: None,
    };
    assert!(matches!(prepare_request(&req, &vec![]), Err(PrepareError::BodyFormat)));
}

#[test]
fn dispatch_form_body_from_object() {
    let req = HttpRequest {
        method: Method::Post,
        url: "example.com".to_string(),
        headers: vec![],
        body_type: Some(BodyType::Form),
        body: Some(JsonValue::Obj(vec![
            ("a".to_string(), JsonValue::Str("x".to_string())),
            ("b".to_string(), JsonValue::Num(vec!['2'])),
        ])),
        extract_variables: None,
    };
    let p = prepare_request(&req, &vec![]).expect("form body must prepare");
    match p.body {
        PreparedBody::Form(entries) => {
            assert_eq!(entries.len(), 2);
            assert_eq!(entries[0], ("a".to_string(), "x".to_string()));
            assert_eq!(entries[1], ("b".to_string(), "2".to_string()));
        },
        _ => panic!("expected a form body"),
    }
}

#[test]
fn parse_header_splits_on_first_colon() {
    let (n, v) = parse_header("Accept: application/json").expect("must split");
    assert_eq!(n, "Accept");
    assert_eq!(v, "application/json");
    let (n2, v2) = parse_header("X: a:b").expect("must split");
    assert_eq!(n2, "X");
    assert_eq!(v2, "a:b");
    assert!(parse_header("nocolon").is_err());
}

#[test]
fn response_extracts_variable() {
    let req = HttpRequest {
        method: Method::Get,
        url: "example.com".to_string(),
        headers: vec![],
        body_type: None,
        body: None,
        extract_variables: Some(vec![ExtractVariable {
            key_path: "token".to_string(),
            variable_name: "auth".to_string(),
        }]),
    };
    let mut gs: Vec<GlobalVariable> = vec![];
    let ct = "application/json".to_string();
    let (resp, missing) =
        handle_response(&req, 200, Some(&ct), "{\"token\":\"abc\"}", &mut gs).expect("must handle");
    assert_eq!(missing.len(), 0);
    assert_eq!(gs.len(), 1);
    assert_eq!(gs[0].key, "auth");
    assert_eq!(gs[0].value, "abc");
    assert_eq!(resp.status_code, 200);
    assert!(resp.json_data.is_some());
    assert!(resp.text_data.is_none());
}

#[test]
fn response_reports_missing_key_and_continues() {
    let req = HttpRequest {
        method: Method::Get,
        url: "example.com".to_string(),
        headers: vec![],
        body_type: None,
        body: None,
        extract_variables: Some(vec![
            ExtractVariable {
                key_path: "absent".to_string(),
                variable_name: "a".to_string(),
            },
            ExtractVariable {
                key_path: "token".to_string(),
                variable_name: "auth".to_string(),
            },
        ]),
    };
    let mut gs: Vec<GlobalVariable> = vec![];
    let ct = "application/json; charset=utf-8".to_string();
    let (_resp, missing) =
        handle_response(&req, 200, Some(&ct), "{\"token\":\"abc\"}", &mut gs).expect("must handle");
    assert_eq!(missing.len(), 1);
    assert_eq!(missing[0], "absent");
    assert_eq!(gs.len(), 1);
    assert_eq!(gs[0].key, "auth");
    assert_eq!(gs[0].value, "abc");
}

#[test]
fn response_no_content() {
    let req = HttpRequest {
        method: Method::Delete,
        url: "example.com".to_string(),
        headers: vec![],
        body_type: None,
        body: None,
        extract_variables: None,
    };
    let mut gs: Vec<GlobalVariable> = vec![];
    let ct = "text/plain".to_string();
    let (resp, missing) = handle_response(&req, 204, Some(&ct), "", &mut gs).expect("must handle");
    assert_eq!(missing.len(), 0);
    assert!(resp.json_data.is_none());
    assert!(resp.text_data.is_none());
}

#[test]
fn response_opaque_text() {
    let req = HttpRequest {
        method: Method::Get,
        url: "example.com".to_string(),
        headers: vec![],
        body_type: None,
        body: None,
        extract_variables: None,
    };
    let mut gs: Vec<GlobalVariable> = vec![];
    let (resp, _missing) = handle_response(&req, 200, None, "hello", &mut gs).expect("must handle");
    assert_eq!(resp.text_data, Some("hello".to_string()));
    assert!(resp.json_data.is_none());
}

#[test]
fn response_malformed_json_is_fatal() {
    let req = HttpRequest {
        method: Method::Get,
        url: "example.com".to_string(),
        headers: vec![],
        body_type: None,
        body: None,
        extract_variables: None,
    };
    let mut gs: Vec<GlobalVariable> = vec![];
    let ct = "application/json".to_string();
    assert!(handle_response(&req, 200, Some(&ct), "{broken", &mut gs).is_err());
}

#[test]
fn import_one_path_with_required_param() {
    let spec = OpenAPI {
        openapi: "3.0.0".to_string(),
        info: Info { title: "t".to_string(), version: "1".to_string() },
        paths: vec![(
            "/users/{id}".to_string(),
            PathItem {
                summary: None,
                description: None,
                get: Some(get_op(vec![Parameter {
                    name: "id".to_string(),
                    description: None,
                    required: Some(true),
                    schema: None,
                }])),
                put: None,
                post: None,
                delete: None,
            },
        )],
    };
    let base = get_base_url("https://example.com/v1/spec.json");
    assert_eq!(base, "https://example.com");
    let imported = map_open_api_spec_to_http_requests(base.as_str(), &spec);
    assert_eq!(imported.len(), 1);
    assert!(matches!(imported[0].method, Method::Get));
    assert_eq!(imported[0].url, "https://example.com/users/1");
    assert_eq!(imported[0].headers.len(), 0);
    assert!(imported[0].body.is_none());
    assert!(imported[0].extract_variables.is_none());
    let saved: Vec<HttpRequest> = vec![];
    let merged = merge_requests(&saved, &imported);
    assert_eq!(merged.len(), 1);
}

#[test]
fn import_optional_param_becomes_zero() {
    let spec = OpenAPI {
        openapi: "3.0.0".to_string(),
        info: Info { title: "t".to_string(), version: "1".to_string() },
        paths: vec![(
            "/things/{n}".to_string(),
            PathItem {
                summary: None,
                description: None,
                get: None,
                put: None,
                post: Some(get_op(vec![Parameter {
                    name: "n".to_string(),
                    description: None,
                    required: None,
                    schema: None,
                }])),
                delete: None,
            },
        )],
    };
    let imported = map_open_api_spec_to_http_requests("https://h", &spec);
    assert_eq!(imported.len(), 1);
    assert!(matches!(imported[0].method, Method::Post));
    assert_eq!(imported[0].url, "https://h/things/0");
}

#[test]
fn import_same_spec_twice_leaves_length_unchanged() {
    let spec = OpenAPI {
        openapi: "3.0.0".to_string(),
        info: Info { title: "t".to_string(), version: "1".to_string() },
        paths: vec![
            (
                "/a".to_string(),
                PathItem {
                    summary: None,
                    description: None,
                    get: Some(get_op(vec![])),
                    put: Some(get_op(vec![])),
                    post: None,
                    delete: None,
                },
            ),
            (
                "/b".to_string(),
                PathItem {
                    summary: None,
                    description: None,
                    get: Some(get_op(vec![])),
                    put: None,
                    post: None,
                    delete: None,
                },
            ),
        ],
    };
    let imported = map_open_api_spec_to_http_requests("https://h", &spec);
    assert_eq!(imported.len(), 3);
    let saved: Vec<HttpRequest> = vec![];
    let once = merge_requests(&saved, &imported);
    assert_eq!(once.len(), 3);
    let twice = merge_requests(&once, &imported);
    assert_eq!(twice.len(), 3);
}

#[test]
fn arg_is_number_cases() {
    assert!(arg_is_number("12"));
    assert!(arg_is_number("-5"));
    assert!(arg_is_number("+7"));
    assert!(arg_is_number("2147483647"));
    assert!(arg_is_number("-2147483648"));
    assert!(arg_is_number("0000000001"));
    assert!(!arg_is_number("2147483648"));
    assert!(!arg_is_number("-2147483649"));
    assert!(!arg_is_number("abc"));
    assert!(!arg_is_number(""));
    assert!(!arg_is_number("-"));
    assert!(!arg_is_number("1.5"));
}

#[test]
fn convert_option_to_number_cases() {
    assert_eq!(convert_option_to_number("42"), 42);
    assert_eq!(convert_option_to_number("+3"), 3);
    assert_eq!(convert_option_to_number("0"), 0);
}

#[test]
fn content_type_before_semicolon() {
    assert_eq!(
        get_content_type_from_header("application/json; charset=utf-8"),
        "application/json"
    );
    assert_eq!(get_content_type_from_header("text/plain"), "text/plain");
}

#[test]
fn json_top_level_lookup_only() {
    let v = JsonValue::Obj(vec![
        ("a".to_string(), JsonValue::Obj(vec![("b".to_string(), JsonValue::Num(vec!['1']))])),
        ("token".to_string(), JsonValue::Str("abc".to_string())),
    ]);
    assert!(get_json_value(&v, "token").is_some());
    assert!(get_json_value(&v, "b").is_none());
    assert!(get_json_value(&v, "a.b").is_none());
    assert!(get_json_value(&JsonValue::Null, "a").is_none());
}

#[test]
fn colored_method_names() {
    assert_eq!(get_ansi_colored_request_method("GET"), "\u{1b}[32mGET\u{1b}[0m");
    assert_eq!(get_ansi_colored_request_method("POST"), "\u{1b}[33mPOST\u{1b}[0m");
    assert_eq!(get_ansi_colored_request_method("PUT"), "\u{1b}[34mPUT\u{1b}[0m");
    assert_eq!(get_ansi_colored_request_method("DELETE"), "\u{1b}[31mDELETE\u{1b}[0m");
    assert_eq!(get_ansi_colored_request_method("PATCH"), "PATCH");
}

#[test]
fn extract_variables_listing() {
    let evs = Some(vec![
        ExtractVariable { key_path: "token".to_string(), variable_name: "auth".to_string() },
        ExtractVariable { key_path: "id".to_string(), variable_name: "uid".to_string() },
    ]);
    assert_eq!(get_extract_variables_list(&evs), "token -> {{auth}}, id -> {{uid}}");
    assert_eq!(get_extract_variables_list(&None), "");
}

#[test]
fn requests_file_path_has_fixed_tail() {
    let p = get_http_requests_file_path();
    assert!(p.ends_with("/.xhtp/requests.json"));
}
