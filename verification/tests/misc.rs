use fm_tester::backup::{backup_dir, backup_file_name, backup_message, backup_stamp, delete_message, list_backup_files, remote_branch_names, sanitize_filename, sort_newest_first, GitBackupFile};
use fm_tester::data_dir::{get_config_env_path, get_config_path, get_key_path, get_logs_dir, get_workspace_db_path, get_workspace_dir, join};
use fm_tester::logging::{log_level_from_config, parse_level, LogLevel};
use fm_tester::ws::{build_url_with_params, outgoing_frame, react_to_message, ws_header_pairs, WsHeader, WsIncoming, WsOutgoing, WsParam};

#[test]
fn safe_names_and_backup_files() {
    assert_eq!(sanitize_filename("a/b:c*?"), "a_b_c__");
    assert_eq!(sanitize_filename("  My WS.. "), "My WS");
    assert_eq!(sanitize_filename("..."), "workspace");
    assert_eq!(sanitize_filename("a ."), "a ");
    assert_eq!(backup_dir("x/y"), "workspaces/x_y");
    let f = backup_file_name("My WS", "20240102_030405");
    assert_eq!(f, "My WS_20240102_030405.json");
    assert_eq!(backup_stamp(&f), "20240102_030405");
    assert_eq!(backup_stamp("x_2024010_030405.json"), "");
    assert_eq!(backup_stamp("x_20240102_030405.jsonx"), "");
    assert_eq!(backup_message("W", "t"), "backup: W (t)");
}

#[test]
fn backups_newest_first_keeping_ties() {
    let mk = |n: &str, t: &str| GitBackupFile { workspace_name: n.into(), file_name: n.into(), timestamp: t.into(), size: 1 };
    let v = sort_newest_first(vec![mk("a", "1"), mk("b", "3"), mk("c", "2"), mk("d", "3"), mk("e", "")]);
    assert_eq!(v.iter().map(|f| f.workspace_name.as_str()).collect::<Vec<_>>(), vec!["b", "d", "c", "a", "e"]);
}

#[test]
fn data_paths() {
    assert_eq!(get_workspace_dir("/app/data", "ws_1"), "/app/data/ws_1");
    assert_eq!(get_workspace_db_path("/app/data/", "ws_1"), "/app/data/ws_1/data.db");
    assert_eq!(get_config_path("/d"), "/d/config.json");
    assert_eq!(get_config_env_path("/c"), "/c/config.env");
    assert_eq!(get_logs_dir("/d"), "/d/logs");
    assert_eq!(get_key_path("/d"), "/d/.encryption_key");
    assert_eq!(join("/d", "/abs"), "/abs");
    assert_eq!(join("", "x"), "x");
}

#[test]
fn log_levels() {
    assert_eq!(log_level_from_config("# comment\nLOG_LEVEL=info\n"), "info");
    assert_eq!(log_level_from_config("  log_level = DEBUG \r\nLOG_LEVEL=warn"), "debug");
    assert_eq!(log_level_from_config("LOG_LEVEL=\nOTHER=1"), "info");
    assert_eq!(log_level_from_config(""), "info");
    assert_eq!(parse_level("warn"), LogLevel::Warn);
    assert_eq!(parse_level("verbose"), LogLevel::Info);
    assert_eq!(parse_level("TRACE"), LogLevel::Info);
}

#[test]
fn websocket_urls_headers_and_frames() {
    let p = |k: &str, v: &str, e: bool| WsParam { key: k.into(), value: v.into(), enabled: e };
    assert_eq!(build_url_with_params("ws://h/s", vec![]).unwrap(), "ws://h/s");
    assert_eq!(build_url_with_params("ws://h/s", vec![p("a", "1", false)]).unwrap(), "ws://h/s");
    assert_eq!(build_url_with_params("ws://h/s", vec![p("a", "x y", true), p("b", "2", true)]).unwrap(), "ws://h/s?a=x%20y&b=2");
    assert_eq!(build_url_with_params("ws://h/s?t=1", vec![p("a", "1", true)]).unwrap(), "ws://h/s?t=1&a=1");
    let h = |k: &str, e: bool| WsHeader { key: k.into(), value: "v".into(), enabled: e };
    let hs = ws_header_pairs(&vec![h("A", true), h(" ", true), h("B", false)]);
    assert_eq!(hs, vec![("A".to_string(), "v".to_string())]);
    let r = react_to_message(WsIncoming::Binary(vec![1, 2, 3]));
    assert_eq!(r.message, Some(("AQID".to_string(), "binary".to_string())));
    let r = react_to_message(WsIncoming::Ping(4));
    assert_eq!(r.message.unwrap().0, "收到 Ping: 4 bytes");
    let r = react_to_message(WsIncoming::Close(Some((1000, "bye".into()))));
    assert_eq!(r.message.unwrap().0, "连接已关闭: bye (code: 1000)");
    assert!(r.disconnected && r.stop);
    let r = react_to_message(WsIncoming::Error("reset".into()));
    assert_eq!(r.error.as_deref(), Some("消息接收错误: reset"));
    assert!(r.stop && r.message.is_none());
    assert!(matches!(outgoing_frame("AQID", "binary").unwrap(), WsOutgoing::Binary(b) if b == vec![1, 2, 3]));
    assert!(outgoing_frame("*", "binary").unwrap_err().starts_with("Base64 解码失败: "));
    assert!(matches!(outgoing_frame("hi", "text").unwrap(), WsOutgoing::Text(t) if t == "hi"));
}

#[test]
fn backup_listing_from_the_tree() {
    let dirs = vec![
        ("A".to_string(), vec![("A_20240101_000000.json".to_string(), 10), ("notes.txt".to_string(), 3)]),
        ("B".to_string(), vec![("B_20240301_120000.json".to_string(), 20), ("old.json".to_string(), 5)]),
    ];
    let files = list_backup_files(&dirs);
    let names: Vec<&str> = files.iter().map(|f| f.file_name.as_str()).collect();
    assert_eq!(names, vec!["B_20240301_120000.json", "A_20240101_000000.json", "old.json"]);
    assert_eq!(files[0].timestamp, "20240301_120000");
    assert_eq!(files[0].workspace_name, "B");
    assert_eq!(files[0].size, 20);
    assert_eq!(files[2].timestamp, "");
    assert_eq!(delete_message("A", "f.json"), "delete: A/f.json");
}

#[test]
fn remote_branches() {
    let refs: Vec<String> = ["refs/heads/main", "refs/tags/v1", "HEAD", "refs/heads/refs/heads/x", "refs/heads/dev"]
        .iter()
        .map(|s| s.to_string())
        .collect();
    assert_eq!(remote_branch_names(&refs), vec!["main", "x", "dev"]);
}
