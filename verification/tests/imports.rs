use hermes::documents::{JsonValue, YamlValue};
use hermes::imports::{
    import_destination, import_files, import_kind, looks_like_json, method_from_str, parse_curl, parse_openapi,
    parse_postman, preview, slugify, ImportKind, ImportPayload,
};
use hermes::models::{AuthConfig, HttpMethod, RequestBody};

fn json_of(v: &serde_json::Value) -> JsonValue {
    match v {
        serde_json::Value::Null => JsonValue::Null,
        serde_json::Value::Bool(b) => JsonValue::Bool(*b),
        serde_json::Value::Number(n) => JsonValue::Number(n.to_string()),
        serde_json::Value::String(s) => JsonValue::Str(s.clone()),
        serde_json::Value::Array(items) => JsonValue::Array(items.iter().map(json_of).collect()),
        serde_json::Value::Object(members) => JsonValue::Object(
            members.iter().map(|(k, v)| (k.clone(), json_of(v))).collect(),
        ),
    }
}

fn yaml_of(v: &serde_yaml::Value) -> YamlValue {
    match v {
        serde_yaml::Value::Null => YamlValue::Null,
        serde_yaml::Value::Bool(b) => YamlValue::Bool(*b),
        serde_yaml::Value::Number(n) => YamlValue::Number(n.to_string()),
        serde_yaml::Value::String(s) => YamlValue::Str(s.clone()),
        serde_yaml::Value::Sequence(items) => {
            YamlValue::Sequence(items.iter().map(yaml_of).collect())
        }
        serde_yaml::Value::Mapping(entries) => YamlValue::Mapping(
            entries.iter().map(|(k, v)| (yaml_of(k), yaml_of(v))).collect(),
        ),
        serde_yaml::Value::Tagged(t) => {
            YamlValue::Tagged(t.tag.to_string(), Box::new(yaml_of(&t.value)))
        }
    }
}

fn json_text(text: &str) -> JsonValue {
    json_of(&serde_json::from_str::<serde_json::Value>(text).unwrap())
}

fn yaml_text(text: &str) -> YamlValue {
    yaml_of(&serde_yaml::from_str::<serde_yaml::Value>(text).unwrap())
}

#[test]
fn parses_curl_with_header_and_body() {
    let request = parse_curl("curl -X POST https://example.com/users -H 'content-type: application/json' -d '{\"name\":\"Ada\"}'").unwrap();
    assert_eq!(request.method, HttpMethod::Post);
    assert_eq!(request.headers[0].key, "content-type");
    assert!(matches!(request.body, RequestBody::Json { .. }));
}

#[test]
fn curl_defaults_and_errors() {
    let request = parse_curl("curl https://example.com/ping").unwrap();
    assert_eq!(request.method, HttpMethod::Get);
    assert_eq!(request.url, "https://example.com/ping");
    assert_eq!(request.id.len(), 36);
    assert!(matches!(request.auth, AuthConfig::NoAuth));
    let posted = parse_curl("curl https://example.com/form --data 'a=1'").unwrap();
    assert_eq!(posted.method, HttpMethod::Post);
    assert!(matches!(posted.body, RequestBody::Text { .. }));
    assert_eq!(parse_curl("curl 'unterminated").unwrap_err().code(), "invalid_curl");
    assert_eq!(parse_curl("curl -X POST").unwrap_err().code(), "invalid_curl");
}

#[test]
fn parses_openapi_paths() {
    let input = r#"
openapi: 3.0.0
servers:
  - url: https://api.example.com
paths:
  /users:
    get:
      operationId: listUsers
      parameters:
        - name: limit
          in: query
"#;
    let preview = parse_openapi(&yaml_text(input)).unwrap();
    assert_eq!(preview.requests.len(), 1);
    assert_eq!(preview.requests[0].name, "listUsers");
    assert_eq!(preview.requests[0].params[0].key, "limit");
}

#[test]
fn openapi_urls_join_server_and_path() {
    let input = "paths:\n  /users/{id}:\n    delete: {}\n";
    let preview = parse_openapi(&yaml_text(input)).unwrap();
    assert_eq!(preview.requests.len(), 1);
    assert_eq!(preview.requests[0].method, HttpMethod::Delete);
    assert_eq!(preview.requests[0].url, "{{baseUrl}}/users/{id}");
    assert!(parse_openapi(&yaml_text("openapi: 3.0.0\n")).is_err());
}

#[test]
fn parses_postman_items() {
    let input = r#"{"item":[{"name":"Ping","request":{"method":"GET","url":"https://example.com/ping"}}]}"#;
    let preview = parse_postman(&json_text(input));
    assert_eq!(preview.requests.len(), 1);
    assert_eq!(preview.requests[0].name, "Ping");
}

#[test]
fn postman_folders_are_flattened_in_order() {
    let input = r#"{"item":[{"name":"A","item":[{"name":"B","request":{"method":"post","url":{"raw":"https://x/b"}}}]},{"name":"C","request":{"url":"https://x/c"}}]}"#;
    let preview = parse_postman(&json_text(input));
    assert_eq!(preview.requests.len(), 2);
    assert_eq!(preview.requests[0].name, "B");
    assert_eq!(preview.requests[0].method, HttpMethod::Post);
    assert_eq!(preview.requests[0].url, "https://x/b");
    assert_eq!(preview.requests[1].name, "C");
    assert_eq!(preview.requests[1].method, HttpMethod::Get);
}

#[test]
fn import_kinds_and_preview() {
    assert_eq!(import_kind("curl").unwrap(), ImportKind::Curl);
    assert_eq!(import_kind("openapi").unwrap(), ImportKind::Openapi);
    let e = import_kind("har").unwrap_err();
    assert_eq!(e.code(), "unsupported_import");
    assert_eq!(e.message(), "Unsupported import kind 'har'.");
    let p = preview(&ImportPayload::Curl("curl https://example.com".to_string())).unwrap();
    assert_eq!(p.requests.len(), 1);
    assert!(p.warnings.is_empty());
}

#[test]
fn method_names_ignore_case() {
    assert_eq!(method_from_str("get"), Some(HttpMethod::Get));
    assert_eq!(method_from_str("Patch"), Some(HttpMethod::Patch));
    assert_eq!(method_from_str("TRACE"), None);
    for m in [HttpMethod::Get, HttpMethod::Post, HttpMethod::Options, HttpMethod::Head] {
        assert_eq!(method_from_str(m.name()), Some(m));
    }
}

#[test]
fn slugs_and_json_detection() {
    assert_eq!(slugify("List Users (v2)!"), "list-users-v2");
    assert_eq!(slugify("--"), "request");
    assert_eq!(slugify(""), "request");
    assert!(looks_like_json("  {\"a\":1}"));
    assert!(looks_like_json("\n[1]"));
    assert!(!looks_like_json("a=1"));
}

#[test]
fn imported_files_are_named_after_the_request() {
    let p = import_destination("Get User");
    assert!(p.starts_with("collections/imported/get-user-"));
    assert!(p.ends_with(".yaml"));
    assert_eq!(p.len(), "collections/imported/get-user-".len() + 8 + ".yaml".len());
}

#[test]
fn slugs_are_their_own_slugs() {
    for name in ["List Users (v2)!", "", "--a--b--", "ÄÖ x"] {
        let once = slugify(name);
        assert_eq!(slugify(&once), once);
    }
}

#[test]
fn imports_write_one_file_per_request_in_order() {
    let found = parse_postman(&json_text(r#"{"item":[{"name":"Get User","request":{"url":"https://x/u"}},{"name":"Ping","request":{"url":"https://x/p"}}]}"#));
    let files = import_files(&found);
    assert_eq!(files.len(), 2);
    assert!(files[0].path.starts_with("collections/imported/get-user-"));
    assert!(files[1].path.starts_with("collections/imported/ping-"));
    assert_eq!(files[1].path.len(), "collections/imported/ping-".len() + 8 + ".yaml".len());
    assert_eq!(files[0].request.name, "Get User");
    assert_eq!(files[1].request.url, "https://x/p");
    let w = hermes::workspace::write_request("/ws", &files[0].path).unwrap();
    assert_eq!(w.relative.unwrap(), files[0].path);
}
