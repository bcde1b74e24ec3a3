use fm_tester::orchestration::{
    check_schedule, next_schedule_action, orchestrations_to_restore, set_next_run_at, Orchestration,
    OrchestrationDomainService as O, OrchestrationRun, OrchestrationSchedule, ScheduleAction, StepRunResult,
};

fn step(id: &str) -> fm_tester::orchestration::OrchestrationStep {
    let mut s = O::create_step_entity("api1".to_string(), None, true, 0, 1, 100, "stop".to_string());
    s.id = id.to_string();
    s
}

fn orch() -> Orchestration {
    let mut o = O::create_orchestration_entity("flow".to_string(), None);
    O::add_step(&mut o, step("s1"));
    O::add_step(&mut o, step("s2"));
    O::add_step(&mut o, step("s3"));
    o
}

fn ids(o: &Orchestration) -> Vec<String> {
    o.steps.iter().map(|s| s.id.clone()).collect()
}

#[test]
fn reorder_and_missing_step() {
    let mut o = orch();
    O::reorder_steps(&mut o, &["s3".to_string(), "s1".to_string()]).unwrap();
    assert_eq!(ids(&o), vec!["s3", "s1"]);
    let mut o = orch();
    let err = O::reorder_steps(&mut o, &["s2".to_string(), "nope".to_string()]).unwrap_err();
    assert_eq!(err, "步骤 nope 不存在");
    assert_eq!(ids(&o), vec!["s1", "s2", "s3"]);
}

#[test]
fn remove_and_find_and_update() {
    let mut o = orch();
    O::remove_step(&mut o, "s2");
    assert_eq!(ids(&o), vec!["s1", "s3"]);
    let s = O::find_step(&mut o, "s3").unwrap();
    O::update_step(s, Some("named".to_string()), Some(false), Some(5), None, None, Some("continue".to_string()));
    assert_eq!(o.steps[1].name.as_deref(), Some("named"));
    assert!(!o.steps[1].enabled);
    assert_eq!(o.steps[1].wait_before, 5);
    assert_eq!(o.steps[1].retry_count, 1);
    assert_eq!(o.steps[1].on_failure, "continue");
    assert!(O::find_step(&mut o, "s2").is_none());
}

#[test]
fn entities_ids_and_index() {
    let o = orch();
    assert!(o.id.starts_with("orch_"));
    assert_eq!(o.created_at, o.updated_at);
    let e = O::create_index_entry(&o);
    assert_eq!(e.step_count, 3);
    assert_eq!(e.name, "flow");
    assert!(O::generate_step_id().starts_with("step_"));
    assert!(O::generate_run_id().starts_with("run_"));
    assert_eq!(O::validate_name(" ").unwrap_err(), "编排名称不能为空");
    assert!(O::validate_name("ok").is_ok());
}

#[test]
fn run_statistics_and_results() {
    let mut run: OrchestrationRun = O::create_run_entity("orch_1");
    assert_eq!(run.status, "running");
    assert_eq!(run.end_time, "");
    for st in ["success", "failed", "skipped", "success", "other"] {
        O::update_run_statistics(&mut run, &StepRunResult { step_id: "x".to_string(), status: st.to_string() });
    }
    assert_eq!((run.success_count, run.failed_count, run.skipped_count), (2, 1, 1));
    O::add_or_update_step_result(&mut run, StepRunResult { step_id: "a".to_string(), status: "failed".to_string() });
    O::add_or_update_step_result(&mut run, StepRunResult { step_id: "b".to_string(), status: "success".to_string() });
    O::add_or_update_step_result(&mut run, StepRunResult { step_id: "a".to_string(), status: "success".to_string() });
    assert_eq!(run.steps.len(), 2);
    assert_eq!(run.steps[0].status, "success");
    O::complete_run(&mut run, "completed".to_string(), "t1".to_string(), 42);
    assert_eq!((run.status.as_str(), run.end_time.as_str(), run.total_time), ("completed", "t1", 42));
}

#[test]
fn reorder_by_current_order_keeps_steps() {
    let mut o = orch();
    let current = ids(&o);
    O::reorder_steps(&mut o, &current).unwrap();
    assert_eq!(ids(&o), vec!["s1", "s2", "s3"]);
}

#[test]
fn remove_undoes_add() {
    let mut o = orch();
    O::add_step(&mut o, step("s4"));
    O::remove_step(&mut o, "s4");
    assert_eq!(ids(&o), vec!["s1", "s2", "s3"]);
}

#[test]
fn recording_a_result_twice_is_recording_it_once() {
    let mut run: OrchestrationRun = O::create_run_entity("orch_1");
    O::add_or_update_step_result(&mut run, StepRunResult { step_id: "a".to_string(), status: "failed".to_string() });
    O::add_or_update_step_result(&mut run, StepRunResult { step_id: "b".to_string(), status: "success".to_string() });
    O::add_or_update_step_result(&mut run, StepRunResult { step_id: "b".to_string(), status: "success".to_string() });
    assert_eq!(run.steps.len(), 2);
    assert_eq!(run.steps[1].step_id, "b");
    assert_eq!(run.steps[1].status, "success");
}

#[test]
fn scheduling_decisions() {
    assert_eq!(next_schedule_action(true, Some(5)), ScheduleAction::Stop);
    assert_eq!(next_schedule_action(false, None), ScheduleAction::Stop);
    assert_eq!(next_schedule_action(false, Some(0)), ScheduleAction::Retry);
    assert_eq!(next_schedule_action(false, Some(-3)), ScheduleAction::Retry);
    assert_eq!(next_schedule_action(false, Some(1500)), ScheduleAction::Wait(1500));
    let mut o = orch();
    assert_eq!(check_schedule(&o).unwrap_err(), "编排未配置定时任务");
    set_next_run_at(&mut o, "2024-01-01 00:00:00".to_string());
    assert!(o.schedule.is_none());
    o.schedule = Some(OrchestrationSchedule { enabled: false, cron_expression: "0 * * * * ?".to_string(), next_run_at: None });
    assert_eq!(check_schedule(&o).unwrap_err(), "定时任务未启用");
    let mut p = orch();
    p.id = "orch_b".to_string();
    p.schedule = Some(OrchestrationSchedule { enabled: true, cron_expression: "0 * * * * ?".to_string(), next_run_at: None });
    assert!(check_schedule(&p).is_ok());
    set_next_run_at(&mut p, "2024-01-01 00:00:00".to_string());
    assert_eq!(p.schedule.as_ref().unwrap().next_run_at.as_deref(), Some("2024-01-01 00:00:00"));
    assert_eq!(orchestrations_to_restore(&vec![o, p]), vec!["orch_b".to_string()]);
}

#[test]
fn running_schedules() {
    let mut s = fm_tester::orchestration::SchedulerService::new();
    assert!(s.get_running_tasks().is_empty());
    s.register("a".to_string(), 1);
    s.register("b".to_string(), 2);
    assert!(s.is_live("a", 1));
    s.register("a".to_string(), 3);
    assert!(!s.is_live("a", 1));
    assert!(s.is_live("a", 3));
    assert!(s.is_live("b", 2));
    let mut r = s.get_running_tasks();
    r.sort();
    assert_eq!(r, vec!["a".to_string(), "b".to_string()]);
    assert!(s.stop_task("a"));
    assert!(!s.is_live("a", 3));
    assert!(!s.stop_task("a"));
    assert!(s.is_live("b", 2));
    assert_eq!(s.get_running_tasks(), vec!["b".to_string()]);
}
