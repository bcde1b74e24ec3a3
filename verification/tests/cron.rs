use fm_tester::cron::{parse_cron_expression, plan_schedule_start, scheduled_task_step};
use fm_tester::orchestration::{OrchestrationDomainService as O, OrchestrationSchedule, ScheduleAction};

// 2024-01-01T00:00:00Z, a Monday.
const NEW_YEAR_MS: i64 = 1_704_067_200_000;

fn scheduled(enabled: bool, cron: &str) -> fm_tester::orchestration::Orchestration {
    let mut o = O::create_orchestration_entity("nightly".to_string(), None);
    o.schedule = Some(OrchestrationSchedule { enabled, cron_expression: cron.to_string(), next_run_at: None });
    o
}

#[test]
fn quartz_patterns_are_read() {
    assert!(parse_cron_expression("0 0 12 * * ?").is_ok());
    match parse_cron_expression("   ") {
        Err(e) => assert_eq!(e, "Cron 表达式解析失败 (Quartz 格式): CronPattern cannot be an empty string."),
        Ok(_) => panic!("a blank pattern was accepted"),
    }
    // Quartz patterns need the seconds field.
    match parse_cron_expression("0 12 * * *") {
        Err(e) => assert!(e.starts_with("Cron 表达式解析失败 (Quartz 格式): ")),
        Ok(_) => panic!("a pattern without seconds was accepted"),
    }
}

#[test]
fn next_runs_of_patterns() {
    let noon = parse_cron_expression("0 0 12 * * ?").ok().unwrap();
    assert_eq!(noon.next_after(NEW_YEAR_MS), Some(NEW_YEAR_MS + 12 * 3_600_000));
    // Not inclusive: from noon itself the next run is the next day's noon.
    assert_eq!(noon.next_after(NEW_YEAR_MS + 12 * 3_600_000), Some(NEW_YEAR_MS + 36 * 3_600_000));
    // Weekdays count from Sunday = 1, so 2 is Monday.
    let monday = parse_cron_expression("0 0 9 ? * 2").ok().unwrap();
    assert_eq!(monday.next_after(NEW_YEAR_MS), Some(NEW_YEAR_MS + 9 * 3_600_000));
}

#[test]
fn starting_a_schedule() {
    let o = O::create_orchestration_entity("plain".to_string(), None);
    assert_eq!(plan_schedule_start(&o, NEW_YEAR_MS).err(), Some("编排未配置定时任务".to_string()));
    assert_eq!(plan_schedule_start(&scheduled(false, "0 0 12 * * ?"), NEW_YEAR_MS).err(), Some("定时任务未启用".to_string()));
    assert!(plan_schedule_start(&scheduled(true, "nonsense"), NEW_YEAR_MS).is_err());
    let start = plan_schedule_start(&scheduled(true, "0 30 8 * * ?"), NEW_YEAR_MS).ok().unwrap();
    assert_eq!(start.next_run_ms, Some(NEW_YEAR_MS + 8 * 3_600_000 + 30 * 60_000));
    assert_eq!(start.next_run_at, Some("2024-01-01 08:30:00".to_string()));
}

#[test]
fn turns_of_a_scheduled_task() {
    let noon = parse_cron_expression("0 0 12 * * ?").ok().unwrap();
    assert_eq!(scheduled_task_step(&noon, true, NEW_YEAR_MS), ScheduleAction::Stop);
    assert_eq!(scheduled_task_step(&noon, false, NEW_YEAR_MS), ScheduleAction::Wait(12 * 3_600_000));
    assert_eq!(scheduled_task_step(&noon, false, NEW_YEAR_MS + 11 * 3_600_000 + 500), ScheduleAction::Wait(3_600_000 - 500));
}
