use fm_tester::ai::AiDomainService;
use fm_tester::history::{reconstruct_entry, HistoryRow};
use fm_tester::http_client::{
    check_redirect_count, http_method, plan_target, redirect_step, request_header_list, request_header_pairs, resolve_redirect,
    with_total, HttpMethod, RedirectStep, RequestTiming,
};
use fm_tester::models::{FormField, Header};
use fm_tester::sse::plan_sse_request;

fn header(key: &str, value: &str, enabled: bool) -> Header {
    Header { key: key.to_string(), value: value.to_string(), enabled, description: None }
}

#[test]
fn targets_of_requests() {
    let t = plan_target("GET", "https://example.com/a/b?x=1").unwrap();
    assert!(t.https);
    assert_eq!(t.host, "example.com");
    assert_eq!(t.port, 443);
    assert_eq!(t.authority, "example.com:443");
    assert_eq!(t.uri_path, "/a/b?x=1");
    assert!(!t.has_body);
    let t = plan_target("POST", "http://localhost:8080").unwrap();
    assert!(!t.https);
    assert_eq!(t.port, 8080);
    assert_eq!(t.uri_path, "/");
    assert!(t.has_body);
    assert!(plan_target("GET", "not a url").unwrap_err().starts_with("URL 解析失败: "));
    assert_eq!(plan_target("GET", "ftp://example.com/x").unwrap_err(), "不支持的协议: ftp");
}

#[test]
fn redirects() {
    assert_eq!(resolve_redirect("http://a.com/x/y", "https://b.com/z").unwrap(), "https://b.com/z");
    assert_eq!(resolve_redirect("http://a.com/x/y", "/z?q=1").unwrap(), "http://a.com/z?q=1");
    assert_eq!(resolve_redirect("http://a.com/x/y", "w").unwrap(), "http://a.com/x/w");
    assert!(resolve_redirect("nope", "/z").unwrap_err().starts_with("解析基础 URL 失败: "));
    assert_eq!(redirect_step(302, true), RedirectStep::Follow);
    assert_eq!(redirect_step(302, false), RedirectStep::Done);
    assert_eq!(redirect_step(200, true), RedirectStep::Done);
    assert_eq!(redirect_step(400, true), RedirectStep::Done);
    assert!(check_redirect_count(10).is_ok());
    assert_eq!(check_redirect_count(11).unwrap_err(), "重定向次数过多");
}

#[test]
fn methods_headers_and_timing() {
    assert_eq!(http_method("POST"), HttpMethod::Post);
    assert_eq!(http_method("OPTIONS"), HttpMethod::Options);
    assert_eq!(http_method("post"), HttpMethod::Get);
    assert_eq!(http_method("TRACE"), HttpMethod::Get);
    let hs = vec![header("A", "1", true), header("B", "2", false), header("  ", "3", true), header("C", "4", true)];
    let pairs = request_header_pairs(&hs);
    assert_eq!(pairs, vec![("A".to_string(), "1".to_string()), ("C".to_string(), "4".to_string())]);
    let t = with_total(RequestTiming { dns_ms: 1, connect_ms: 2, tls_ms: 3, ttfb_ms: 4, download_ms: 50, total_ms: 0 });
    assert_eq!(t.total_ms, 10);
    assert_eq!(t.download_ms, 50);
}

#[test]
fn stream_requests() {
    let hs = vec![header("X-A", "1", true), header("off", "2", false)];
    let p = plan_sse_request("post", &hs, Some("{}".to_string()), Some("42".to_string()));
    assert!(p.post);
    assert_eq!(p.body.as_deref(), Some("{}"));
    assert_eq!(
        p.headers,
        vec![
            ("Content-Type".to_string(), "application/json".to_string()),
            ("X-A".to_string(), "1".to_string()),
            ("Last-Event-ID".to_string(), "42".to_string()),
        ]
    );
    // A Content-Type among the headers, even a disabled one, keeps the default out.
    let hs = vec![header("content-TYPE", "text/plain", false)];
    let p = plan_sse_request("GET", &hs, Some("x".to_string()), None);
    assert!(!p.post);
    assert!(p.headers.is_empty());
    let p = plan_sse_request("get", &vec![], None, None);
    assert!(p.headers.is_empty());
    assert!(p.body.is_none());
}

#[test]
fn workspace_tools() {
    let tools = AiDomainService::get_workspace_tools();
    let names: Vec<&str> = tools.iter().map(|t| t.function.name.as_str()).collect();
    assert_eq!(
        names,
        vec!["list_workspace_apis", "get_api_detail", "get_api_doc", "get_api_responses", "get_api_history", "search_apis"]
    );
    assert!(tools.iter().all(|t| t.tool_type == "function"));
    assert_eq!(tools[0].function.parameters, "{\"type\":\"object\",\"properties\":{}}");
    assert_eq!(
        tools[5].function.parameters,
        "{\"type\":\"object\",\"properties\":{\"keyword\":{\"type\":\"string\",\"description\":\"搜索关键词\"}},\"required\":[\"keyword\"]}"
    );
    let v: serde_json::Value = serde_json::from_str(&tools[1].function.parameters).unwrap();
    assert_eq!(v["required"][0], "api_id");
}

fn row(status: i32, time: i32) -> HistoryRow {
    HistoryRow {
        id: "h1".to_string(),
        method: "GET".to_string(),
        url: "u".to_string(),
        resolved_url: "r".to_string(),
        status,
        status_text: "OK".to_string(),
        response_body: "b".to_string(),
        time,
        size: 7,
        created_at: "t".to_string(),
        body: None,
        body_type: None,
        api_id: Some("a".to_string()),
        api_name: None,
    }
}

#[test]
fn history_rows() {
    let e = reconstruct_entry(row(200, 12), vec![], vec![("k".to_string(), "v".to_string())], vec![]);
    assert_eq!((e.status, e.time, e.size), (200, 12, 7));
    assert!(e.form_fields.is_none());
    assert_eq!(e.response_headers.len(), 1);
    let f = FormField { key: "f".to_string(), value: "v".to_string(), field_type: "text".to_string(), enabled: true, files: None };
    let e = reconstruct_entry(row(65536 + 404, -1), vec![], vec![], vec![f]);
    assert_eq!(e.status, 404);
    assert_eq!(e.time, u64::MAX);
    assert_eq!(e.form_fields.unwrap().len(), 1);
}

#[test]
fn headers_on_the_wire() {
    let hs = vec![header("X-A", "1", true), header("X-B", "2", false)];
    assert_eq!(
        request_header_list("a.com:443", Some("text/plain"), &hs),
        vec![
            ("host".to_string(), "a.com:443".to_string()),
            ("content-type".to_string(), "text/plain".to_string()),
            ("X-A".to_string(), "1".to_string()),
        ]
    );
    assert_eq!(request_header_list("a.com:80", None, &vec![]), vec![("host".to_string(), "a.com:80".to_string())]);
}
