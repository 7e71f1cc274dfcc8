use hermes::history::{
    history_lines, history_path, history_record, listed_lines, newest_first, read_history_entry,
    record_exchange,
};
use hermes::models::{AuthConfig, HermesRequest, HermesResponse, HistoryEntry, HttpMethod, RequestBody};

fn request() -> HermesRequest {
    HermesRequest {
        id: "req".to_string(),
        name: "Ping".to_string(),
        method: HttpMethod::Get,
        url: "{{baseUrl}}/ping".to_string(),
        params: Vec::new(),
        headers: Vec::new(),
        body: RequestBody::default(),
        auth: AuthConfig::default(),
        description: None,
    }
}

fn response(status: u16) -> HermesResponse {
    HermesResponse {
        status,
        status_text: "OK".to_string(),
        headers: Vec::new(),
        body: "pong".to_string(),
        content_type: None,
        elapsed_ms: 7,
        size_bytes: 4,
    }
}

fn entry(id: &str, status: u16) -> HistoryEntry {
    let mut e = record_exchange("w", request(), "https://x/ping".to_string(), &response(status), "2024-01-01T00:00:00Z".to_string());
    e.id = id.to_string();
    e
}

#[test]
fn history_file_and_lines() {
    assert_eq!(history_path("/ws"), "/ws/.hermes/history.jsonl");
    let lines = history_lines("{\"a\":1}\r\n\n  \n{\"b\":2}\n");
    assert_eq!(lines, vec!["{\"a\":1}".to_string(), "{\"b\":2}".to_string()]);
    assert!(history_lines("").is_empty());
}

#[test]
fn recorded_exchanges_keep_the_resolved_url() {
    let e = record_exchange("w", request(), "https://x/ping".to_string(), &response(200), "t".to_string());
    assert_eq!(e.id.len(), 36);
    assert_eq!(e.url, "https://x/ping");
    assert_eq!(e.request.url, "https://x/ping");
    assert_eq!(e.request_name, "Ping");
    assert_eq!(e.status, Some(200));
    assert_eq!(e.elapsed_ms, Some(7));
    assert_eq!(e.response.unwrap().body, "pong");
}

#[test]
fn the_latest_entry_with_an_id_is_read() {
    let listed = newest_first(vec![entry("a", 200), entry("b", 201), entry("a", 500)]);
    assert_eq!(listed[0].status, Some(500));
    assert_eq!(read_history_entry(listed, "a").unwrap().status, Some(500));
    let listed = newest_first(vec![entry("a", 200)]);
    let e = read_history_entry(listed, "zzz").unwrap_err();
    assert_eq!(e.code(), "history_not_found");
    assert_eq!(e.message(), "History entry was not found.");
}

#[test]
fn appended_records_are_listed_newest_first() {
    let mut file = String::new();
    file.push_str(&history_record("{\"id\":\"e1\"}"));
    file.push_str(&history_record("{\"id\":\"e2\"}"));
    assert_eq!(file, "{\"id\":\"e1\"}\n{\"id\":\"e2\"}\n");
    let mut lines = listed_lines(Some(file));
    lines.reverse();
    assert_eq!(lines, vec!["{\"id\":\"e2\"}".to_string(), "{\"id\":\"e1\"}".to_string()]);
    assert!(listed_lines(None).is_empty());
}
