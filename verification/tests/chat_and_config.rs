use fm_tester::app_config::daily_wait_ms;
use fm_tester::app_config::{backup_loop_step, AutoBackupScheduler, BackupLoopAction};
use fm_tester::app_config::{auto_backup_targets, mark_backed_up, wait_step_ms, AppConfig, AppConfigDomainService as A, Workspace};
use fm_tester::chat::{ChatDomainService, ChatMessage, ChatSession};

fn msg(role: &str, content: &str) -> ChatMessage {
    ChatMessage { role: role.to_string(), content: content.to_string(), reasoning: None, timestamp: None }
}

#[test]
fn fallback_title_rules() {
    let t = ChatDomainService::extract_fallback_title(&[msg("assistant", "hi"), msg("user", "  How do I log in?\r\nmore")]);
    assert_eq!(t.as_deref(), Some("How do I log in?"));
    let long = "a".repeat(31);
    let t = ChatDomainService::extract_fallback_title(&[msg("user", &long)]).unwrap();
    assert_eq!(t, format!("{}…", "a".repeat(30)));
    let exact = "b".repeat(30);
    assert_eq!(ChatDomainService::extract_fallback_title(&[msg("user", &exact)]).unwrap(), exact);
    assert_eq!(ChatDomainService::extract_fallback_title(&[msg("user", "   ")]), None);
    assert_eq!(ChatDomainService::extract_fallback_title(&[msg("system", "x")]), None);
    let wide = "接口".repeat(20);
    assert_eq!(ChatDomainService::extract_fallback_title(&[msg("user", &wide)]).unwrap().chars().count(), 31);
}

#[test]
fn session_index_entry() {
    let s = ChatSession {
        id: "c1".to_string(),
        created_at: "t".to_string(),
        messages: vec![msg("user", "a"), msg("assistant", "b")],
        title: Some("T".to_string()),
    };
    let e = ChatDomainService::session_to_index_entry(&s);
    assert_eq!((e.id.as_str(), e.message_count, e.title.as_deref()), ("c1", 2, Some("T")));
}

fn ws(id: &str, name: &str) -> Workspace {
    Workspace {
        id: id.to_string(),
        name: name.to_string(),
        description: String::new(),
        created_at: String::new(),
        last_opened: String::new(),
        last_api_id: None,
        last_backup_at: None,
    }
}

#[test]
fn workspace_rules() {
    let cfg = AppConfig { workspaces: vec![ws("ws_1", "Main")] };
    assert_eq!(A::check_name_duplicate(&cfg, "Main").unwrap_err(), "工作区名称 'Main' 已存在");
    assert!(A::check_name_duplicate(&cfg, "Other").is_ok());
    assert!(A::validate_switch(&cfg, "ws_1").is_ok());
    assert_eq!(A::validate_switch(&cfg, "ws_2").unwrap_err(), "工作区不存在");
    assert_eq!(A::validate_delete(&cfg, "ws_2").unwrap_err(), "工作区不存在");
    let w = A::create_workspace_entity("N".to_string(), "D".to_string());
    assert!(w.id.starts_with("ws_"));
    assert_eq!(w.created_at, w.last_opened);
    assert_eq!(w.created_at.len(), 19);
}

#[test]
fn automatic_backups() {
    let mut config = AppConfig { workspaces: vec![ws("w1", "One"), ws("w2", "Two"), ws("w3", "Three")] };
    let selected = vec!["w3".to_string(), "gone".to_string(), "w1".to_string()];
    assert_eq!(
        auto_backup_targets(&config, &selected),
        vec![("w1".to_string(), "One".to_string()), ("w3".to_string(), "Three".to_string())]
    );
    assert!(auto_backup_targets(&config, &vec![]).is_empty());
    mark_backed_up(&mut config, "w2", "2024-01-01 10:00:00".to_string());
    assert_eq!(config.workspaces[1].last_backup_at.as_deref(), Some("2024-01-01 10:00:00"));
    assert!(config.workspaces[0].last_backup_at.is_none());
    mark_backed_up(&mut config, "nope", "x".to_string());
    assert_eq!(config.workspaces.len(), 3);
    assert_eq!((wait_step_ms(5), wait_step_ms(60_000), wait_step_ms(3_600_000)), (5, 60_000, 60_000));
}

#[test]
fn auto_backup_task_and_loop() {
    let mut s = AutoBackupScheduler::new();
    assert!(!s.start(false, true));
    assert!(!s.stop());
    assert!(!s.start(true, false));
    assert!(s.start(true, true));
    assert!(s.stop());
    assert!(!s.stop());

    assert_eq!(backup_loop_step(true, Some(5)), BackupLoopAction::Stop);
    assert_eq!(backup_loop_step(false, None), BackupLoopAction::RetryLater);
    assert_eq!(backup_loop_step(false, Some(0)), BackupLoopAction::Backup);
    assert_eq!(backup_loop_step(false, Some(1_500)), BackupLoopAction::Sleep(1_500));
    assert_eq!(backup_loop_step(false, Some(3_600_000)), BackupLoopAction::Sleep(60_000));
}

#[test]
fn daily_backup_wait() {
    assert_eq!(daily_wait_ms(1_000, None), None);
    assert_eq!(daily_wait_ms(1_000, Some(5_000)), Some(4_000));
    assert_eq!(daily_wait_ms(5_000, Some(5_000)), Some(86_400_000));
    assert_eq!(daily_wait_ms(10_000, Some(4_000)), Some(86_394_000));
}
