use fm_tester::scripts::{
    ScriptDomainService, ScriptExecutionDomainService, ScriptIndexEntry, ScriptInfo, ScriptKind, ScriptTargetType,
    SqliteScriptRepository,
};

#[test]
fn script_filenames() {
    assert_eq!(
        ScriptDomainService::generate_script_filename(ScriptTargetType::Workspace, Some("x"), ScriptKind::Pre),
        "workspace_pre.js"
    );
    assert_eq!(
        ScriptDomainService::generate_script_filename(ScriptTargetType::Environment, Some("env_1"), ScriptKind::Post),
        "environment_env_1_post.js"
    );
    assert_eq!(
        ScriptDomainService::generate_script_filename(ScriptTargetType::Api, None, ScriptKind::Pre),
        "api_unknown_pre.js"
    );
}

#[test]
fn filename_reads_back_its_metadata() {
    let f = ScriptDomainService::generate_script_filename(ScriptTargetType::Collection, Some("col_1_2"), ScriptKind::Post);
    let e = SqliteScriptRepository::entry_from_filename(&f).unwrap();
    assert_eq!(e.target_type, ScriptTargetType::Collection);
    assert_eq!(e.target_id.as_deref(), Some("col_1_2"));
    assert_eq!(e.script_kind, ScriptKind::Post);
    assert_eq!(e.file, f);
    let e = SqliteScriptRepository::entry_from_filename("workspace_pre.js").unwrap();
    assert_eq!(e.target_type, ScriptTargetType::Workspace);
    assert_eq!(e.target_id, None);
}

#[test]
fn filename_errors() {
    assert_eq!(
        SqliteScriptRepository::entry_from_filename("noseparator.js").unwrap_err(),
        "无法从文件名推断脚本元数据: noseparator.js"
    );
    assert_eq!(SqliteScriptRepository::entry_from_filename("foo_pre.js").unwrap_err(), "无效的 target_type: foo");
    assert_eq!(SqliteScriptRepository::entry_from_filename("api_x_mid.js").unwrap_err(), "无效的 script_kind: mid");
}

#[test]
fn stored_words_roundtrip_and_errors() {
    for t in [ScriptTargetType::Api, ScriptTargetType::Collection, ScriptTargetType::Workspace, ScriptTargetType::Environment] {
        assert_eq!(SqliteScriptRepository::str_to_target_type(SqliteScriptRepository::target_type_to_str(&t)), Some(t));
    }
    for k in [ScriptKind::Pre, ScriptKind::Post] {
        assert_eq!(SqliteScriptRepository::str_to_kind(SqliteScriptRepository::kind_to_str(&k)), Some(k));
    }
    assert_eq!(
        SqliteScriptRepository::raw_to_entry("x".into(), None, "pre".into(), "f".into()).unwrap_err(),
        "无效的脚本目标类型: x"
    );
    assert_eq!(
        SqliteScriptRepository::raw_to_entry("api".into(), None, "y".into(), "f".into()).unwrap_err(),
        "无效的脚本类型: y"
    );
}

#[test]
fn ids_and_content_keys() {
    let e = ScriptIndexEntry {
        target_type: ScriptTargetType::Api,
        target_id: Some("a1".to_string()),
        script_kind: ScriptKind::Pre,
        file: "api_a1_pre.js".to_string(),
    };
    assert_eq!(SqliteScriptRepository::content_key(&e), "api_a1_pre");
    assert_eq!(SqliteScriptRepository::generate_id(&e), "script_api_a1_pre");
    let w = ScriptIndexEntry { target_id: None, target_type: ScriptTargetType::Workspace, ..e };
    assert_eq!(SqliteScriptRepository::generate_id(&w), "script_workspace_pre");
}

#[test]
fn chain_order_and_sources() {
    let mk = |s: &str| ScriptInfo { content: s.to_string(), source: s.to_string() };
    let pre = ScriptExecutionDomainService::order_script_chain(vec![mk("w"), mk("e"), mk("a")], ScriptKind::Pre);
    assert_eq!(pre.iter().map(|s| s.source.as_str()).collect::<Vec<_>>(), vec!["w", "e", "a"]);
    let post = ScriptExecutionDomainService::order_script_chain(vec![mk("w"), mk("e"), mk("a")], ScriptKind::Post);
    assert_eq!(post.iter().map(|s| s.source.as_str()).collect::<Vec<_>>(), vec!["a", "e", "w"]);
    assert!(ScriptExecutionDomainService::is_empty_script(" \n\t"));
    assert!(!ScriptExecutionDomainService::is_empty_script(" x "));
    assert_eq!(
        ScriptExecutionDomainService::generate_source_identifier(ScriptTargetType::Collection, Some("c1"), Some("Users")),
        "collection:Users"
    );
    assert_eq!(
        ScriptExecutionDomainService::generate_source_identifier(ScriptTargetType::Collection, Some("c1"), None),
        "collection:c1"
    );
    assert_eq!(
        ScriptExecutionDomainService::generate_source_identifier(ScriptTargetType::Collection, None, None),
        "collection:unknown"
    );
    assert_eq!(
        ScriptExecutionDomainService::generate_source_identifier(ScriptTargetType::Environment, None, None),
        "environment"
    );
}
