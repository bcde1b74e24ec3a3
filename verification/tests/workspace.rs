use fm_tester::ai::{AiDomainService, CHAT_SUMMARY_PROMPT, POST_SCRIPT_PROMPT, PRE_SCRIPT_PROMPT, WORKSPACE_CHAT_PROMPT};
use fm_tester::ai_stream::{bearer_value, enabled_header_pairs};
use fm_tester::history::{HistoryDomainService, HttpResponse};
use fm_tester::models::{Cookie, Environment, EnvironmentsConfig, FileInfo, FormField, Header, Variable};
use fm_tester::orchestration::OrchestrationDomainService;
use fm_tester::request_body::attached_file_paths;
use fm_tester::response::ResponseDomainService;
use fm_tester::workspace_data::WorkspaceDataDomainService as W;

fn cookie(name: &str, domain: &str, value: &str) -> Cookie {
    Cookie {
        name: name.to_string(),
        value: value.to_string(),
        domain: domain.to_string(),
        path: "/".to_string(),
        expires: None,
        max_age: None,
        secure: false,
        http_only: false,
        created_at: "t".to_string(),
    }
}

#[test]
fn variable_keys_and_environments() {
    assert!(W::validate_variable_key("token").is_ok());
    assert_eq!(W::validate_variable_key("  ").unwrap_err(), "变量名不能为空");
    assert_eq!(W::validate_variable_key("a b").unwrap_err(), "变量名不能包含空格");
    let e = W::create_environment_entity("dev".to_string());
    assert!(e.id.starts_with("env_"));
    assert_eq!(e.name, "dev");
    assert!(e.variables.is_empty() && e.common_headers.is_none());
}

#[test]
fn ids_tabs_and_cookies() {
    let v = |s: &[&str]| s.iter().map(|x| x.to_string()).collect::<Vec<_>>();
    assert!(W::validate_expanded_ids(&v(&["a", "b"])).is_ok());
    assert_eq!(W::validate_expanded_ids(&v(&["a", " "])).unwrap_err(), "展开集合ID不能为空");
    assert_eq!(W::validate_expanded_ids(&v(&["a", "b", "a"])).unwrap_err(), "展开集合ID 'a' 重复");
    assert_eq!(W::validate_open_tabs(&v(&["t1", "t1"])).unwrap_err(), "标签页ID 't1' 重复");
    assert_eq!(W::validate_open_tabs(&v(&[""])).unwrap_err(), "标签页ID不能为空");
    assert!(W::validate_active_tab_index(0, 5).is_ok());
    assert!(W::validate_active_tab_index(3, 2).is_ok());
    assert_eq!(W::validate_active_tab_index(3, 3).unwrap_err(), "激活标签页索引 3 超出范围 (共 3 个标签页)");
    assert!(W::validate_cookie(&cookie("sid", "a.com", "1")).is_ok());
    assert_eq!(W::validate_cookie(&cookie(" ", "a.com", "1")).unwrap_err(), "Cookie 名称不能为空");
    assert_eq!(W::validate_cookie(&cookie("sid", "", "1")).unwrap_err(), "Cookie domain 不能为空");
    assert_eq!(W::validate_cookie(&cookie("sid", "a.com", "\t")).unwrap_err(), "Cookie value 不能为空");
}

#[test]
fn records_with_fresh_ids() {
    let s = ResponseDomainService::create_saved_response("ok".to_string(), Some("api1".to_string()), "doc".to_string());
    assert!(s.id.starts_with("resp_"));
    assert_eq!((s.name.as_str(), s.api_id.as_deref(), s.doc_content.as_str()), ("ok", Some("api1"), "doc"));
    let r = HttpResponse {
        status: 201,
        status_text: "Created".to_string(),
        headers: vec![("a".to_string(), "b".to_string())],
        body: "{}".to_string(),
        time: 5,
        size: 2,
    };
    let e = HistoryDomainService::create_history_entry(
        "POST".to_string(),
        "u".to_string(),
        "r".to_string(),
        vec![],
        Some("{}".to_string()),
        None,
        None,
        &r,
        None,
        None,
    );
    assert!(e.id.starts_with("hist_"));
    assert_eq!((e.status, e.time, e.size), (201, 5, 2));
    assert_eq!(e.response_headers, vec![("a".to_string(), "b".to_string())]);
    let mut o = OrchestrationDomainService::create_orchestration_entity("f".to_string(), None);
    let created = o.created_at.clone();
    OrchestrationDomainService::update_timestamp(&mut o);
    assert_eq!(o.created_at, created);
    assert_eq!(o.name, "f");
}

#[test]
fn assistant_prompts_and_headers() {
    assert_eq!(AiDomainService::get_script_system_prompt("pre"), PRE_SCRIPT_PROMPT);
    assert_eq!(AiDomainService::get_script_system_prompt("post"), POST_SCRIPT_PROMPT);
    assert_eq!(AiDomainService::get_workspace_chat_system_prompt(), WORKSPACE_CHAT_PROMPT);
    assert_eq!(AiDomainService::get_chat_summary_prompt(), CHAT_SUMMARY_PROMPT);
    assert_eq!(bearer_value("k1"), "Bearer k1");
    let hs = vec![
        Header { key: "A".to_string(), value: "1".to_string(), enabled: true, description: None },
        Header { key: "B".to_string(), value: "2".to_string(), enabled: false, description: None },
    ];
    assert_eq!(enabled_header_pairs(&Some(hs)), vec![("A".to_string(), "1".to_string())]);
    assert!(enabled_header_pairs(&None).is_empty());
}

#[test]
fn attached_files_in_order() {
    let f = |p: &str| FileInfo { path: p.to_string(), name: p.to_string() };
    let fields = vec![
        FormField { key: "a".to_string(), value: String::new(), field_type: "file".to_string(), enabled: true, files: Some(vec![f("/x"), f("/y")]) },
        FormField { key: "b".to_string(), value: "t".to_string(), field_type: "text".to_string(), enabled: true, files: None },
        FormField { key: "c".to_string(), value: String::new(), field_type: "file".to_string(), enabled: false, files: Some(vec![f("/z")]) },
    ];
    assert_eq!(attached_file_paths(&Some(fields)), vec!["/x", "/y", "/z"]);
    assert!(attached_file_paths(&None).is_empty());
}

fn var(key: &str, value: &str, enabled: bool) -> Variable {
    Variable { key: key.to_string(), value: value.to_string(), enabled }
}

fn env(id: &str, variables: Vec<Variable>) -> Environment {
    Environment { id: id.to_string(), name: id.to_string(), variables, common_headers: None }
}

#[test]
fn active_environment_variables() {
    let config = EnvironmentsConfig {
        environments: vec![
            env("dev", vec![var("host", "dev.local", true)]),
            env("prod", vec![
                var("host", "old.example", true),
                var("token", "secret", false),
                var("host", "api.example", true),
                var("port", "443", true),
            ]),
        ],
        active_environment_id: Some("prod".to_string()),
    };
    assert_eq!(config.get_active_environment().map(|e| e.id.clone()), Some("prod".to_string()));
    let vars = W::get_active_variables_map(&config);
    assert_eq!(vars.get("host"), Some("api.example".to_string()));
    assert_eq!(vars.get("port"), Some("443".to_string()));
    assert_eq!(vars.get("token"), None);
    assert_eq!(vars.pairs().len(), 2);

    let none_active = EnvironmentsConfig { environments: vec![env("dev", vec![var("a", "1", true)])], active_environment_id: None };
    assert!(none_active.get_active_environment().is_none());
    assert_eq!(W::get_active_variables_map(&none_active).pairs().len(), 0);

    let unknown = EnvironmentsConfig { environments: vec![env("dev", vec![var("a", "1", true)])], active_environment_id: Some("qa".to_string()) };
    assert!(unknown.get_active_environment().is_none());
    assert_eq!(W::get_active_variables_map(&unknown).get("a"), None);
}

fn rfc3339_shaped(s: &str) -> bool {
    let c: Vec<char> = s.chars().collect();
    let n = c.len();
    let digit = |x: char| x.is_ascii_digit();
    let offset = n >= 6
        && (c[n - 6] == '+' || c[n - 6] == '-')
        && digit(c[n - 5]) && digit(c[n - 4]) && c[n - 3] == ':' && digit(c[n - 2]) && digit(c[n - 1]);
    let time = match c.iter().position(|&x| x == 'T') {
        Some(t) => t >= 6 && t + 9 <= n - 6 && c[t - 6] == '-' && c[t - 3] == '-' && c[t + 3] == ':' && c[t + 6] == ':',
        None => false,
    };
    offset && time
}

#[test]
fn timestamps_are_local_rfc3339() {
    assert!(rfc3339_shaped(&HistoryDomainService::generate_timestamp()));
    assert!(rfc3339_shaped(&ResponseDomainService::generate_timestamp()));
    let mut o = OrchestrationDomainService::create_orchestration_entity("t".to_string(), None);
    o.updated_at = "stale".to_string();
    OrchestrationDomainService::update_timestamp(&mut o);
    assert!(rfc3339_shaped(&o.updated_at));
}

#[test]
fn chat_prompt_names_every_tool() {
    let prompt = AiDomainService::get_workspace_chat_system_prompt();
    let tools = AiDomainService::get_workspace_tools();
    assert_eq!(tools.len(), 6);
    for t in &tools {
        assert!(prompt.contains(t.function.name.as_str()), "{}", t.function.name);
    }
}
