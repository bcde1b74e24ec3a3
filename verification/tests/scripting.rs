use fm_tester::models::{Header, Param};
use fm_tester::script_session::{
    blank_script_result, exception_detail, outer_timeout_ms, post_script_response, script_error_text, sleep_ms,
    timeout_text, wrap_script, PostScriptChain, ScriptExecutionContext, ScriptExecutionResult, ScriptRequestContext,
    ScriptResponseContext, ScriptSession, ScriptTestResult,
};
use fm_tester::script_tools::{
    base64_decode_text, base64_encode_text, crypto_hmac, random_int, random_string, sha256_hex, url_decode_text,
    url_encode_text,
};
use fm_tester::script_vars::VarStore;

fn header(key: &str, value: &str, enabled: bool) -> Header {
    Header { key: key.to_string(), value: value.to_string(), enabled, description: None }
}

fn request() -> ScriptRequestContext {
    ScriptRequestContext {
        url: "https://a.com/v1/users".to_string(),
        method: "GET".to_string(),
        headers: vec![header("Content-Type", "application/json", true), header("X-Off", "1", false)],
        params: vec![Param { key: "Page".to_string(), value: "1".to_string(), enabled: true, description: None }],
        body: None,
    }
}

fn response() -> ScriptResponseContext {
    post_script_response(200, "{\"ok\":true}", &vec![("content-type".to_string(), "application/json".to_string())], 12)
}

fn pairs(p: &[(&str, &str)]) -> Vec<(String, String)> {
    p.iter().map(|(k, v)| (k.to_string(), v.to_string())).collect()
}

fn sorted(mut v: Vec<(String, String)>) -> Vec<(String, String)> {
    v.sort();
    v
}

fn context(target_env: bool, with_response: bool) -> ScriptExecutionContext {
    ScriptExecutionContext {
        environment_variables: pairs(&[("a", "1")]),
        target_environment_id: if target_env { Some("env1".to_string()) } else { None },
        collection_variables: pairs(&[("shared", "s")]),
        all_collection_variables: vec![("c1".to_string(), pairs(&[("x", "y")])), ("c2".to_string(), pairs(&[("q", "r")]))],
        target_collection_id: Some("c2".to_string()),
        parent_collection_id: Some("c1".to_string()),
        is_api_script: true,
        request: request(),
        response: if with_response { Some(response()) } else { None },
    }
}

#[test]
fn variable_store_reads_what_was_written() {
    let mut s = VarStore::from_pairs(&pairs(&[("a", "1"), ("b", "2"), ("a", "3")]));
    assert_eq!(s.get("a").as_deref(), Some("3"));
    s.set("c".to_string(), "4".to_string());
    s.set("b".to_string(), "5".to_string());
    assert_eq!(s.get("b").as_deref(), Some("5"));
    s.remove("a");
    assert_eq!(s.get("a"), None);
    assert_eq!(sorted(s.pairs()), pairs(&[("b", "5"), ("c", "4")]));
    assert_eq!(VarStore::new().get("a"), None);
}

#[test]
fn request_headers_and_params_in_any_case() {
    let mut r = request();
    assert_eq!(r.get_header("content-type").as_deref(), Some("application/json"));
    r.set_header("CONTENT-TYPE".to_string(), "text/plain".to_string());
    assert_eq!(r.headers[0].key, "Content-Type");
    assert_eq!(r.headers[0].value, "text/plain");
    r.set_header("X-New".to_string(), "1".to_string());
    assert_eq!(r.get_header("x-new").as_deref(), Some("1"));
    assert_eq!(
        r.enabled_headers(),
        pairs(&[("Content-Type", "text/plain"), ("X-New", "1")])
    );
    r.remove_header("x-NEW");
    assert_eq!(r.get_header("X-New"), None);
    assert_eq!(r.headers.len(), 2);
    assert_eq!(r.get_param("page").as_deref(), Some("1"));
    r.set_param("size".to_string(), "10".to_string());
    r.set_param("PAGE".to_string(), "2".to_string());
    assert_eq!(r.enabled_params(), pairs(&[("Page", "2"), ("size", "10")]));
    r.remove_param("Size");
    assert_eq!(r.params.len(), 1);
}

#[test]
fn request_url_parts() {
    let mut r = request();
    r.set_path("items");
    assert_eq!(r.url, "https://a.com/items");
    r.set_base_url("http://b.org");
    assert_eq!(r.url, "http://b.org/items");
}

#[test]
fn session_variables_follow_their_targets() {
    let mut s = ScriptSession::start(context(true, true), "post".to_string());
    assert_eq!(s.env_get("a").as_deref(), Some("1"));
    assert_eq!(s.target_collection_id.as_deref(), Some("c1"));
    assert_eq!(s.target_coll_vars.get("x").as_deref(), Some("y"));
    s.env_set("b".to_string(), "2".to_string());
    s.env_remove("a");
    s.coll_set("z".to_string(), "9".to_string());
    assert_eq!(s.coll_get("z").as_deref(), Some("9"));
    s.coll_set("gone".to_string(), "1".to_string());
    s.coll_remove("gone");
    assert_eq!(s.coll_get("gone"), None);
    s.log(None);
    s.log(Some("hi".to_string()));
    s.check(false, None);
    s.check(true, Some("ok".to_string()));
    let r = s.finish(None);
    assert!(r.success);
    assert_eq!(sorted(r.modified_environment_vars), pairs(&[("b", "2")]));
    assert_eq!(sorted(r.modified_target_environment_vars.unwrap()), pairs(&[("b", "2")]));
    assert_eq!(sorted(r.modified_collection_vars), pairs(&[("shared", "s"), ("z", "9")]));
    assert_eq!(sorted(r.modified_target_collection_vars.unwrap()), pairs(&[("x", "y"), ("z", "9")]));
    assert_eq!(r.logs[0].message, "null");
    assert_eq!(r.logs[1].message, "hi");
    assert_eq!(r.logs[0].level, "log");
    assert_eq!(r.logs[0].source, "post");
    assert_eq!(r.test_results.len(), 2);
    assert_eq!(r.test_results[0].name, "断言检查");
    assert_eq!(r.test_results[0].error.as_deref(), Some("断言检查"));
    assert!(r.test_results[1].passed && r.test_results[1].error.is_none());
    assert!(r.error_source.is_none());
}

#[test]
fn session_without_targets_or_response() {
    let mut c = context(false, false);
    c.is_api_script = false;
    c.target_collection_id = None;
    let mut s = ScriptSession::start(c, "pre".to_string());
    s.env_set("b".to_string(), "2".to_string());
    s.coll_set("z".to_string(), "9".to_string());
    s.check(false, Some("ignored".to_string()));
    let r = s.finish(Some("boom".to_string()));
    assert!(!r.success);
    assert_eq!(r.modified_target_environment_vars.unwrap(), vec![]);
    assert_eq!(r.modified_target_collection_vars.unwrap(), vec![]);
    assert!(r.test_results.is_empty());
    assert_eq!(r.error.as_deref(), Some("boom"));
    assert_eq!(r.error_source.as_deref(), Some("pre"));
}

#[test]
fn blank_scripts_change_nothing() {
    let r = blank_script_result(&context(true, false));
    assert!(r.success);
    assert_eq!(r.modified_environment_vars, pairs(&[("a", "1")]));
    assert!(r.modified_target_environment_vars.is_none());
    assert_eq!(r.target_collection_id.as_deref(), Some("c2"));
    assert_eq!(r.modified_request.unwrap().url, "https://a.com/v1/users");
}

#[test]
fn texts_of_a_run() {
    assert_eq!(wrap_script("x=1", false), "(function() { x=1 })()");
    assert_eq!(
        wrap_script("x=1", true),
        "(function() { fm.response.getJson = function() { try { return JSON.parse(fm.response._rawBody); } catch(e) { return null; } }; x=1; })()"
    );
    assert_eq!(exception_detail(Some("boom".to_string()), Some("at f".to_string())), "boom\nat f");
    assert_eq!(exception_detail(None, Some(String::new())), "(无消息的 Error 对象)");
    assert_eq!(script_error_text("pre", "boom"), "Script error in pre: boom");
    assert_eq!(outer_timeout_ms(300_000), 305_000);
    assert_eq!(outer_timeout_ms(u64::MAX), u64::MAX);
    assert_eq!(timeout_text(300_000, "pre"), "Script execution timed out after 300000 ms in pre");
    assert_eq!((sleep_ms(-5), sleep_ms(100), sleep_ms(400_000)), (0, 100, 300_000));
}

#[test]
fn digests_and_codings() {
    assert_eq!(sha256_hex("abc"), "ba7816bf8f01cfea414140de5dae2223b00361a396177a9cb410ff61f20015ad");
    let msg = "The quick brown fox jumps over the lazy dog";
    assert_eq!(crypto_hmac("SHA256", "key", msg), "f7bc83f430538424b13298e6aa6fb143ef4d59a14946175997479dbc2d1a3cd8");
    assert_eq!(crypto_hmac("md5", "key", msg), "80070713463e7749b90c2dc24911e275");
    assert_eq!(crypto_hmac("sha1", "key", msg), "Unsupported algorithm: sha1");
    assert_eq!(base64_encode_text("hello"), "aGVsbG8=");
    assert_eq!(base64_decode_text("aGVsbG8="), "hello");
    assert!(base64_decode_text("@@").starts_with("Base64 decode error: "));
    assert_eq!(url_encode_text("a b&c"), "a%20b%26c");
    assert_eq!(url_decode_text("a%20b+c%zz%4"), "a b+c%zz%4");
    assert!(url_decode_text("%FF").starts_with("URL decode error: "));
}

#[test]
fn random_values() {
    let s = random_string(5, None).unwrap();
    assert_eq!(s.len(), 5);
    assert!(s.chars().all(|c| c.is_ascii_alphanumeric()));
    assert_eq!(random_string(-1, Some(String::new())), Some(String::new()));
    assert!(random_string(10, Some("ab".to_string())).unwrap().chars().all(|c| c == 'a' || c == 'b'));
    assert_eq!(random_int(3, 3), 3);
    let n = random_int(-2, 2);
    assert!((-2..=2).contains(&n));
}

fn outcome(success: bool, vars: &[(&str, &str)], passed: bool) -> Result<ScriptExecutionResult, String> {
    Ok(ScriptExecutionResult {
        success,
        modified_environment_vars: pairs(vars),
        modified_target_environment_vars: None,
        target_environment_id: None,
        modified_collection_vars: pairs(&[("c", "1")]),
        modified_target_collection_vars: None,
        target_collection_id: None,
        modified_request: None,
        test_results: vec![ScriptTestResult { name: "t".to_string(), passed, error: None }],
        logs: vec![],
        error: if success { None } else { Some("bad".to_string()) },
        error_source: None,
    })
}

#[test]
fn post_script_chains() {
    let resp = response();
    assert_eq!(resp.size, 11);
    assert_eq!(resp.status_text, "");
    let mut chain = PostScriptChain::new(pairs(&[("a", "1")]));
    let ctx = chain.context(&request(), &resp);
    assert_eq!(ctx.environment_variables, pairs(&[("a", "1")]));
    assert!(ctx.response.is_some() && !ctx.is_api_script);
    chain.record(outcome(true, &[("a", "2")], true));
    assert!(!chain.stopped);
    assert_eq!(chain.env_vars, pairs(&[("a", "2")]));
    chain.record(outcome(false, &[("a", "3")], false));
    assert!(chain.stopped);
    assert_eq!(chain.env_vars, pairs(&[("a", "2")]));
    let r = chain.finish();
    assert!(!r.success && !r.all_tests_passed);
    assert_eq!(r.test_results.len(), 2);
    assert_eq!(r.error.as_deref(), Some("bad"));
    let mut chain = PostScriptChain::new(vec![]);
    chain.record(Err("timeout".to_string()));
    let r = chain.finish();
    assert!(!r.success && r.all_tests_passed);
    assert_eq!(r.error.as_deref(), Some("timeout"));
}

#[test]
fn charsets() {
    assert!(random_string(0, Some("é".to_string())).is_some());
    let s = random_string(3, Some("é".to_string()));
    assert!(s.is_none() || s.as_deref() == Some("ééé"));
    assert!(random_string(4, Some("xyz".to_string())).is_some());
}

#[test]
fn send_request_plans() {
    let p = fm_tester::script_tools::plan_send_request(
        Some("http://x.io".to_string()),
        Some("post".to_string()),
        vec![("A".to_string(), Some("1".to_string())), ("B".to_string(), None)],
        Some("{}".to_string()),
    )
    .unwrap();
    assert_eq!(p.method, "POST");
    assert_eq!(p.headers, pairs(&[("A", "1")]));
    assert_eq!(p.body.as_deref(), Some("{}"));
    let p = fm_tester::script_tools::plan_send_request(Some("u".to_string()), None, vec![], None).unwrap();
    assert_eq!(p.method, "GET");
    assert_eq!(
        fm_tester::script_tools::plan_send_request(None, None, vec![], None).unwrap_err(),
        "Missing url"
    );
    assert_eq!(
        fm_tester::script_tools::plan_send_request(Some(String::new()), None, vec![], None).unwrap_err(),
        "Missing url"
    );
}

#[test]
fn response_headers_by_name() {
    let r = post_script_response(
        200,
        "",
        &vec![("content-type".to_string(), "text/plain".to_string()), ("X-Id".to_string(), "7".to_string())],
        1,
    );
    assert_eq!(r.get_header("Content-Type").as_deref(), Some("text/plain"));
    assert_eq!(r.get_header("X-Id").as_deref(), Some("7"));
    assert_eq!(r.get_header("x-id"), None);
}
