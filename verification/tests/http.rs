use hermes::http_client::{
    active_rows, auth_plan, body_plan, build_response, check_header, has_header,
    parse_request_url, query_plan, response_rows, token_form, url_with_query, AuthPlan, BodyPlan,
};
use hermes::models::{ApiKeyPlacement, AuthConfig, KeyValueRow, RequestBody};

fn row(key: &str, value: &str, enabled: bool) -> KeyValueRow {
    KeyValueRow { id: key.to_string(), key: key.to_string(), value: value.to_string(), enabled, secret: false }
}

fn pairs(v: &[(&str, &str)]) -> Vec<(String, String)> {
    v.iter().map(|(a, b)| (a.to_string(), b.to_string())).collect()
}

#[test]
fn only_enabled_rows_with_keys_are_sent() {
    let rows = vec![row("limit", "1", true), row("  ", "x", true), row("off", "2", false), row("page", "3", true)];
    let active = active_rows(&rows);
    assert_eq!(active.len(), 2);
    assert_eq!(active[0].key, "limit");
    assert_eq!(active[1].key, "page");
}

#[test]
fn header_names_match_ignoring_case() {
    let headers = pairs(&[("Content-Type", "text/plain"), ("X-A", "1")]);
    assert!(has_header(&headers, "content-type"));
    assert!(has_header(&headers, "x-a"));
    assert!(!has_header(&headers, "accept"));
}

#[test]
fn bodies_add_a_content_type_unless_one_is_given() {
    let none: Vec<(String, String)> = Vec::new();
    match body_plan(&RequestBody::Json { content: "{}".to_string() }, &none) {
        BodyPlan::Content { text, content_type } => {
            assert_eq!(text, "{}");
            assert_eq!(content_type.as_deref(), Some("application/json"));
        }
        _ => panic!("expected a text body"),
    }
    let given = pairs(&[("CONTENT-TYPE", "application/vnd+json")]);
    match body_plan(&RequestBody::Json { content: "{}".to_string() }, &given) {
        BodyPlan::Content { content_type, .. } => assert_eq!(content_type, None),
        _ => panic!("expected a text body"),
    }
    match body_plan(&RequestBody::Form { content: "a=1".to_string() }, &none) {
        BodyPlan::Content { content_type, .. } => {
            assert_eq!(content_type.as_deref(), Some("application/x-www-form-urlencoded"))
        }
        _ => panic!("expected a text body"),
    }
    match body_plan(&RequestBody::Text { content: "hi".to_string() }, &none) {
        BodyPlan::Content { content_type, .. } => assert_eq!(content_type, None),
        _ => panic!("expected a text body"),
    }
    match body_plan(&RequestBody::Binary { content: "/tmp/f.bin".to_string() }, &none) {
        BodyPlan::File { path } => assert_eq!(path, "/tmp/f.bin"),
        _ => panic!("expected a file body"),
    }
    assert!(matches!(body_plan(&RequestBody::NoBody { content: None }, &none), BodyPlan::Empty));
}

#[test]
fn auth_settings_become_steps() {
    assert!(matches!(auth_plan(&AuthConfig::NoAuth), AuthPlan::NoAuth));
    let key = AuthConfig::ApiKey {
        placement: ApiKeyPlacement::Query,
        name: "api_key".to_string(),
        value: "{{token}}".to_string(),
        value_secret: None,
    };
    match auth_plan(&key) {
        AuthPlan::QueryKey { name, value } => {
            assert_eq!(name, "api_key");
            assert_eq!(value, "{{token}}");
        }
        _ => panic!("expected a query key"),
    }
    let oauth = AuthConfig::Oauth2ClientCredentials {
        token_url: "https://auth/token".to_string(),
        client_id: "id".to_string(),
        client_secret: "s".to_string(),
        client_secret_ref: None,
        scopes: vec!["read".to_string(), "write".to_string()],
    };
    match auth_plan(&oauth) {
        AuthPlan::TokenRequest { token_url, scope, .. } => {
            assert_eq!(token_url, "https://auth/token");
            assert_eq!(scope, "read write");
        }
        _ => panic!("expected a token request"),
    }
    let form = token_form("id", "s", "read write");
    assert_eq!(form, pairs(&[("grant_type", "client_credentials"), ("client_id", "id"), ("client_secret", "s"), ("scope", "read write")]));
}

#[test]
fn header_checks_report_name_before_value() {
    assert!(check_header("X-Trace", "abc\tdef").is_ok());
    let e = check_header("bad name", "v").unwrap_err();
    assert_eq!(e.code(), "invalid_header");
    assert_eq!(e.message(), "Invalid header name 'bad name'.");
    let e = check_header("X-Ok", "line\nbreak").unwrap_err();
    assert_eq!(e.message(), "Invalid value for header 'X-Ok'.");
    assert_eq!(e.wire().detail.as_deref(), Some("failed to parse header value"));
    assert!(check_header("", "v").is_err());
}

#[test]
fn urls_get_their_query_pairs_in_order() {
    let parsed = parse_request_url("https://example.com/ping").unwrap();
    let url = url_with_query(parsed, &pairs(&[("limit", "1"), ("q", "a b")]));
    assert_eq!(url, "https://example.com/ping?limit=1&q=a+b");
    let parsed = parse_request_url("https://example.com/p?x=1#frag").unwrap();
    assert_eq!(url_with_query(parsed, &pairs(&[("y", "2")])), "https://example.com/p?x=1&y=2#frag");
    let parsed = parse_request_url("https://example.com/ping").unwrap();
    assert_eq!(url_with_query(parsed, &Vec::new()), "https://example.com/ping");
    let e = match parse_request_url("not a url") {
        Err(e) => e,
        Ok(_) => panic!("expected a parse error"),
    };
    assert_eq!(e.code(), "url_error");
    assert_eq!(e.message(), "relative URL without a base");
}

#[test]
fn responses_list_their_headers_as_rows() {
    let headers = vec![("content-type".to_string(), Some("application/json".to_string())), ("x-bin".to_string(), None)];
    let rows = response_rows(&headers);
    assert_eq!(rows[0].id, "content-type");
    assert_eq!(rows[0].value, "application/json");
    assert!(rows[0].enabled && !rows[0].secret);
    assert_eq!(rows[1].value, "<non-utf8>");
    let r = build_response(200, Some("OK".to_string()), &headers, "{\"ok\":true}".to_string(), None, 5, 11);
    assert_eq!(r.status, 200);
    assert_eq!(r.status_text, "OK");
    assert!(r.body.contains("\"ok\":true"));
    let r = build_response(599, None, &Vec::new(), String::new(), None, 0, 0);
    assert_eq!(r.status_text, "");
}

#[test]
fn query_pairs_are_active_params_then_a_query_key() {
    let request = hermes::models::HermesRequest {
        id: "r".to_string(),
        name: "R".to_string(),
        method: hermes::models::HttpMethod::Get,
        url: "https://x".to_string(),
        params: vec![row("limit", "1", true), row("off", "0", false), row("page", "{{p}}", true)],
        headers: Vec::new(),
        body: RequestBody::default(),
        auth: AuthConfig::ApiKey {
            placement: ApiKeyPlacement::Query,
            name: "key".to_string(),
            value: "k".to_string(),
            value_secret: None,
        },
        description: None,
    };
    assert_eq!(query_plan(&request), pairs(&[("limit", "1"), ("page", "{{p}}"), ("key", "k")]));
}
