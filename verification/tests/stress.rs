use fm_tester::script_session::{PostScriptResult, ScriptTestResult};
use fm_tester::stress::{judge_response, send_error_text};
use fm_tester::http::parse_set_cookie;
use fm_tester::models::{Header, Variable};
use fm_tester::stress::{cookie_matches_domain, prepare_stress_request, StressBody, StressRequestConfig};

fn cookie(domain: &str) -> fm_tester::models::Cookie {
    let mut c = parse_set_cookie("k=v", domain).unwrap();
    c.domain = domain.to_string();
    c
}

#[test]
fn cookie_domain_matching() {
    assert!(cookie_matches_domain(&cookie("example.com"), "example.com"));
    assert!(cookie_matches_domain(&cookie(".Example.COM"), "api.example.com"));
    assert!(!cookie_matches_domain(&cookie("api.example.com"), "example.com"));
    assert!(!cookie_matches_domain(&cookie("ample.com"), "example.com"));
    assert!(!cookie_matches_domain(&cookie("..."), "example.com"));
    assert!(!cookie_matches_domain(&cookie("example.com"), ""));
}

fn config(method: &str, url: &str) -> StressRequestConfig {
    StressRequestConfig {
        method: method.to_string(),
        url: url.to_string(),
        headers: vec![
            Header { key: "Content-Type".into(), value: "{{ct}}".into(), enabled: true, description: None },
            Header { key: "X-Off".into(), value: "1".into(), enabled: false, description: None },
        ],
        body: Some("{\"n\":\"{{name}}\"}".to_string()),
        body_type: None,
        form_fields: None,
        collection_variables: Some(vec![Variable { key: "name".into(), value: "coll".into(), enabled: true }]),
    }
}

#[test]
fn prepared_request() {
    let vars = vec![("host".to_string(), "https://a.example.com".to_string()), ("name".to_string(), "env".to_string()), ("ct".to_string(), "application/json".to_string())];
    let mut c = cookie("example.com");
    c.name = "sid".into();
    c.value = "1".into();
    let mut other = cookie("other.org");
    other.name = "x".into();
    let r = prepare_stress_request(&config("post", "{{host}}/users"), &vars, &vec![c.clone(), other, c]).unwrap();
    assert_eq!(r.method, "POST");
    assert_eq!(r.url, "https://a.example.com/users");
    assert_eq!(r.cookie.as_deref(), Some("sid=1; sid=1"));
    assert_eq!(r.headers, vec![("Content-Type".to_string(), "application/json".to_string())]);
    assert!(matches!(r.body, StressBody::Text(ref t) if t == "{\"n\":\"coll\"}"));
}

#[test]
fn prepared_request_errors() {
    assert_eq!(prepare_stress_request(&config("GET", "ftp://x"), &vec![], &vec![]).unwrap_err(), "URL 无效");
    assert_eq!(prepare_stress_request(&config("TRACE", "http://x"), &vec![], &vec![]).unwrap_err(), "不支持的 HTTP 方法");
    let r = prepare_stress_request(&config("GET", "http://x"), &vec![], &vec![]).unwrap();
    assert!(matches!(r.body, StressBody::Empty));
    let mut multipart = config("POST", "http://x");
    multipart.body_type = Some("form-data".into());
    let r = prepare_stress_request(&multipart, &vec![], &vec![]).unwrap();
    assert!(r.headers.is_empty());
    assert!(matches!(r.body, StressBody::Empty));
}

#[test]
fn judging_one_request() {
    assert_eq!(judge_response(204, None), (true, None));
    assert_eq!(judge_response(404, None), (false, None));
    assert_eq!(judge_response(399, None), (true, None));
    let t = |n: &str, p: bool| ScriptTestResult { name: n.to_string(), passed: p, error: None };
    let ok = PostScriptResult { success: true, all_tests_passed: true, test_results: vec![t("a", true)], error: None };
    assert_eq!(judge_response(500, Some(ok)), (true, None));
    let failed = PostScriptResult {
        success: true,
        all_tests_passed: false,
        test_results: vec![t("a", false), t("b", true), t("c", false)],
        error: None,
    };
    assert_eq!(judge_response(200, Some(failed)), (false, Some("断言失败: a, c".to_string())));
    let broken = PostScriptResult { success: false, all_tests_passed: true, test_results: vec![], error: Some("x".to_string()) };
    assert_eq!(judge_response(200, Some(broken)), (false, Some("脚本执行失败: x".to_string())));
    let odd = PostScriptResult { success: false, all_tests_passed: true, test_results: vec![], error: None };
    assert_eq!(judge_response(200, Some(odd)), (false, Some("后置脚本执行异常".to_string())));
    assert_eq!(send_error_text(true, "x"), "请求超时");
    assert_eq!(send_error_text(false, "refused"), "refused");
}
