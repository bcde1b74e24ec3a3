//! Orchestrations: ordered steps that call saved requests, and the records
//! of their runs.

use vstd::prelude::*;
use crate::text::{all_ws, is_blank, to_string_of, str_eq};
use crate::ids::{generate_id, is_id_with_prefix, is_rfc3339_text, local_now_rfc3339};
use crate::script_vars::{map_of, names_distinct, lemma_map_of_dom, lemma_map_of_at, lemma_map_of_update, lemma_map_of_remove};

verus! {

/// One step of an orchestration: the request it calls and how.
#[derive(Debug)]
pub struct OrchestrationStep {
    pub id: String,
    pub api_id: String,
    pub name: Option<String>,
    pub enabled: bool,
    pub wait_before: u64,
    pub retry_count: u32,
    pub retry_delay: u64,
    pub on_failure: String,
}

impl Clone for OrchestrationStep {
    fn clone(&self) -> (res: Self)
        ensures
            res == *self,
    {
        OrchestrationStep {
            id: self.id.clone(),
            api_id: self.api_id.clone(),
            name: self.name.clone(),
            enabled: self.enabled,
            wait_before: self.wait_before,
            retry_count: self.retry_count,
            retry_delay: self.retry_delay,
            on_failure: self.on_failure.clone(),
        }
    }
}

/// When an orchestration runs by itself.
#[derive(Debug)]
pub struct OrchestrationSchedule {
    pub enabled: bool,
    pub cron_expression: String,
    /// When it runs next, as the scheduler last worked it out.
    pub next_run_at: Option<String>,
}

impl Clone for OrchestrationSchedule {
    fn clone(&self) -> (res: Self)
        ensures
            res == *self,
    {
        OrchestrationSchedule {
            enabled: self.enabled,
            cron_expression: self.cron_expression.clone(),
            next_run_at: match &self.next_run_at {
                Some(t) => Some(t.clone()),
                None => None,
            },
        }
    }
}

/// An orchestration.
#[derive(Debug)]
pub struct Orchestration {
    pub id: String,
    pub name: String,
    pub description: Option<String>,
    pub created_at: String,
    pub updated_at: String,
    pub steps: Vec<OrchestrationStep>,
    pub schedule: Option<OrchestrationSchedule>,
}

/// The list entry of an orchestration.
#[derive(Debug)]
pub struct OrchestrationIndexEntry {
    pub id: String,
    pub name: String,
    pub description: Option<String>,
    pub step_count: usize,
    pub created_at: String,
    pub updated_at: String,
}

/// The outcome of one step in a run.
#[derive(Debug)]
pub struct StepRunResult {
    pub step_id: String,
    pub status: String,
}

/// The record of one run of an orchestration.
#[derive(Debug)]
pub struct OrchestrationRun {
    pub id: String,
    pub orchestration_id: String,
    pub status: String,
    pub start_time: String,
    pub end_time: String,
    pub total_time: u64,
    pub success_count: usize,
    pub failed_count: usize,
    pub skipped_count: usize,
    pub steps: Vec<StepRunResult>,
}

/// Index of the first step whose id is `id`.
pub open spec fn step_index_from(steps: Seq<OrchestrationStep>, id: Seq<char>, i: int) -> Option<int>
    decreases steps.len() - i,
{
    if i < 0 || i >= steps.len() {
        None
    } else if steps[i].id@ == id {
        Some(i)
    } else {
        step_index_from(steps, id, i + 1)
    }
}

pub open spec fn step_index(steps: Seq<OrchestrationStep>, id: Seq<char>) -> Option<int> {
    step_index_from(steps, id, 0)
}

proof fn lemma_step_index_range(steps: Seq<OrchestrationStep>, id: Seq<char>, i: int)
    requires
        0 <= i,
    ensures
        step_index_from(steps, id, i) matches Some(k) ==> i <= k < steps.len() && steps[k].id@ == id,
    decreases steps.len() - i,
{
    if i < steps.len() && steps[i].id@ != id {
        lemma_step_index_range(steps, id, i + 1);
    }
}

fn find_step_index(steps: &Vec<OrchestrationStep>, id: &str) -> (r: Option<usize>)
    ensures
        match r {
            Some(k) => step_index(steps@, id@) == Some(k as int) && k < steps@.len(),
            None => step_index(steps@, id@) is None,
        },
{
    let mut i: usize = 0;
    while i < steps.len()
        invariant
            i <= steps@.len(),
            step_index(steps@, id@) == step_index_from(steps@, id@, i as int),
        decreases steps@.len() - i,
    {
        if str_eq(steps[i].id.as_str(), id) {
            return Some(i);
        }
        i = i + 1;
    }
    None
}

/// The steps named by `ids`, in that order (the first step with each id),
/// or the first id that names no step.
pub open spec fn reorder_spec(steps: Seq<OrchestrationStep>, ids: Seq<String>) -> Result<Seq<OrchestrationStep>, Seq<char>>
    decreases ids.len(),
{
    if ids.len() == 0 {
        Ok(Seq::empty())
    } else {
        match reorder_spec(steps, ids.drop_last()) {
            Err(e) => Err(e),
            Ok(prefix) => match step_index(steps, ids.last()@) {
                Some(k) => Ok(prefix.push(steps[k])),
                None => Err(ids.last()@),
            },
        }
    }
}

/// Index of the first result recorded for step `id`.
pub open spec fn result_index_from(steps: Seq<StepRunResult>, id: Seq<char>, i: int) -> Option<int>
    decreases steps.len() - i,
{
    if i < 0 || i >= steps.len() {
        None
    } else if steps[i].step_id@ == id {
        Some(i)
    } else {
        result_index_from(steps, id, i + 1)
    }
}

/// The results after recording `r`: it replaces the first result of the
/// same step, or is appended when the step has none yet.
pub open spec fn record_result(steps: Seq<StepRunResult>, r: StepRunResult) -> Seq<StepRunResult> {
    match result_index_from(steps, r.step_id@, 0) {
        Some(k) => steps.update(k, r),
        None => steps.push(r),
    }
}

/// The ids of the steps, in order.
pub open spec fn step_ids(steps: Seq<OrchestrationStep>) -> Seq<String> {
    steps.map_values(|s: OrchestrationStep| s.id)
}

/// No two steps share an id.
pub open spec fn ids_distinct(steps: Seq<OrchestrationStep>) -> bool {
    forall|i: int, j: int| 0 <= i < j < steps.len() ==> #[trigger] steps[i].id@ != #[trigger] steps[j].id@
}

/// Rules and factories for orchestrations and their runs.
pub struct OrchestrationDomainService;

impl OrchestrationDomainService {
    /// A fresh orchestration id (`orch_...`).
    pub fn generate_orchestration_id() -> (r: String)
        ensures
            is_id_with_prefix(r@, "orch"@),
    {
        generate_id("orch")
    }

    /// A fresh step id (`step_...`).
    pub fn generate_step_id() -> (r: String)
        ensures
            is_id_with_prefix(r@, "step"@),
    {
        generate_id("step")
    }

    /// A fresh run id (`run_...`).
    pub fn generate_run_id() -> (r: String)
        ensures
            is_id_with_prefix(r@, "run"@),
    {
        generate_id("run")
    }

    /// A new orchestration without steps or schedule, created and updated now.
    pub fn create_orchestration_entity(name: String, description: Option<String>) -> (o: Orchestration)
        ensures
            is_id_with_prefix(o.id@, "orch"@),
            o.name == name,
            o.description == description,
            o.created_at == o.updated_at,
            is_rfc3339_text(o.created_at@),
            o.steps@.len() == 0,
            o.schedule is None,
    {
        let now = local_now_rfc3339();
        Orchestration {
            id: Self::generate_orchestration_id(),
            name,
            description,
            created_at: now.clone(),
            updated_at: now,
            steps: Vec::new(),
            schedule: None,
        }
    }

    /// The list entry of an orchestration.
    pub fn create_index_entry(orchestration: &Orchestration) -> (e: OrchestrationIndexEntry)
        ensures
            e.id == orchestration.id,
            e.name == orchestration.name,
            e.description == orchestration.description,
            e.step_count == orchestration.steps@.len(),
            e.created_at == orchestration.created_at,
            e.updated_at == orchestration.updated_at,
    {
        OrchestrationIndexEntry {
            id: orchestration.id.clone(),
            name: orchestration.name.clone(),
            description: orchestration.description.clone(),
            step_count: orchestration.steps.len(),
            created_at: orchestration.created_at.clone(),
            updated_at: orchestration.updated_at.clone(),
        }
    }

    /// A new step with a fresh id.
    pub fn create_step_entity(
        api_id: String,
        name: Option<String>,
        enabled: bool,
        wait_before: u64,
        retry_count: u32,
        retry_delay: u64,
        on_failure: String,
    ) -> (s: OrchestrationStep)
        ensures
            is_id_with_prefix(s.id@, "step"@),
            s.api_id == api_id,
            s.name == name,
            s.enabled == enabled,
            s.wait_before == wait_before,
            s.retry_count == retry_count,
            s.retry_delay == retry_delay,
            s.on_failure == on_failure,
    {
        OrchestrationStep {
            id: Self::generate_step_id(),
            api_id,
            name,
            enabled,
            wait_before,
            retry_count,
            retry_delay,
            on_failure,
        }
    }

    /// Stamps the orchestration as updated now (a local RFC 3339 time);
    /// nothing else changes.
    pub fn update_timestamp(orchestration: &mut Orchestration)
        ensures
            is_rfc3339_text(final(orchestration).updated_at@),
            final(orchestration).id == old(orchestration).id,
            final(orchestration).name == old(orchestration).name,
            final(orchestration).description == old(orchestration).description,
            final(orchestration).created_at == old(orchestration).created_at,
            final(orchestration).steps@ == old(orchestration).steps@,
            final(orchestration).schedule == old(orchestration).schedule,
    {
        orchestration.updated_at = local_now_rfc3339();
    }

    /// An orchestration name must not be blank.
    pub fn validate_name(name: &str) -> (r: Result<(), String>)
        ensures
            all_ws(name@) <==> r is Err,
            r matches Err(e) ==> e@ == "编排名称不能为空"@,
    {
        if is_blank(name) {
            return Err(to_string_of("编排名称不能为空"));
        }
        Ok(())
    }

    /// A new run record: `running`, started now, no end time, no results.
    pub fn create_run_entity(orchestration_id: &str) -> (r: OrchestrationRun)
        ensures
            is_id_with_prefix(r.id@, "run"@),
            r.orchestration_id@ == orchestration_id@,
            r.status@ == "running"@,
            r.end_time@ == ""@,
            r.total_time == 0,
            r.success_count == 0,
            r.failed_count == 0,
            r.skipped_count == 0,
            r.steps@.len() == 0,
            is_rfc3339_text(r.start_time@),
    {
        let now = local_now_rfc3339();
        OrchestrationRun {
            id: Self::generate_run_id(),
            orchestration_id: to_string_of(orchestration_id),
            status: to_string_of("running"),
            start_time: now,
            end_time: to_string_of(""),
            total_time: 0,
            success_count: 0,
            failed_count: 0,
            skipped_count: 0,
            steps: Vec::new(),
        }
    }

    /// Counts a step result: `success`, `failed` or `skipped` adds one to
    /// its counter; any other status counts nowhere.
    pub fn update_run_statistics(run: &mut OrchestrationRun, step_result: &StepRunResult)
        requires
            step_result.status@ == "success"@ ==> old(run).success_count < usize::MAX,
            step_result.status@ == "failed"@ ==> old(run).failed_count < usize::MAX,
            step_result.status@ == "skipped"@ ==> old(run).skipped_count < usize::MAX,
        ensures
            final(run).success_count == old(run).success_count + (if step_result.status@ == "success"@ { 1int } else { 0 }),
            final(run).failed_count == old(run).failed_count + (if step_result.status@ == "failed"@ { 1int } else { 0 }),
            final(run).skipped_count == old(run).skipped_count + (if step_result.status@ == "skipped"@ { 1int } else { 0 }),
            final(run).id == old(run).id,
            final(run).orchestration_id == old(run).orchestration_id,
            final(run).status == old(run).status,
            final(run).start_time == old(run).start_time,
            final(run).end_time == old(run).end_time,
            final(run).total_time == old(run).total_time,
            final(run).steps@ == old(run).steps@,
    {
        proof {
            reveal_strlit("success");
            reveal_strlit("failed");
            reveal_strlit("skipped");
            assert("success"@.len() != "failed"@.len());
            assert("skipped"@.len() != "failed"@.len());
            assert("success"@[1] != "skipped"@[1]);
        }
        let st = step_result.status.as_str();
        if str_eq(st, "success") {
            run.success_count = run.success_count + 1;
        } else if str_eq(st, "failed") {
            run.failed_count = run.failed_count + 1;
        } else if str_eq(st, "skipped") {
            run.skipped_count = run.skipped_count + 1;
        }
    }

    /// Closes a run with its final status, end time and total time.
    pub fn complete_run(run: &mut OrchestrationRun, status: String, end_time: String, total_time: u64)
        ensures
            final(run).status == status,
            final(run).end_time == end_time,
            final(run).total_time == total_time,
            final(run).id == old(run).id,
            final(run).orchestration_id == old(run).orchestration_id,
            final(run).start_time == old(run).start_time,
            final(run).success_count == old(run).success_count,
            final(run).failed_count == old(run).failed_count,
            final(run).skipped_count == old(run).skipped_count,
            final(run).steps@ == old(run).steps@,
    {
        run.status = status;
        run.end_time = end_time;
        run.total_time = total_time;
    }

    /// The first step with id `step_id`, to change in place.
    pub fn find_step<'a>(orchestration: &'a mut Orchestration, step_id: &str) -> (r: Option<&'a mut OrchestrationStep>)
        ensures
            match step_index(old(orchestration).steps@, step_id@) {
                None => r is None && *final(orchestration) == *old(orchestration),
                Some(k) => r is Some && *r->Some_0 == old(orchestration).steps@[k]
                    && final(orchestration).steps@ == old(orchestration).steps@.update(k, *final(r->Some_0))
                    && final(orchestration).id == old(orchestration).id
                    && final(orchestration).name == old(orchestration).name
                    && final(orchestration).description == old(orchestration).description
                    && final(orchestration).created_at == old(orchestration).created_at
                    && final(orchestration).updated_at == old(orchestration).updated_at
                    && final(orchestration).schedule == old(orchestration).schedule,
            },
    {
        match find_step_index(&orchestration.steps, step_id) {
            None => None,
            Some(k) => Some(&mut orchestration.steps[k]),
        }
    }

    /// Puts the steps in the order of `step_ids` (keeping only those). When
    /// an id names no step, nothing changes and the error names it.
    pub fn reorder_steps(orchestration: &mut Orchestration, step_ids: &[String]) -> (r: Result<(), String>)
        ensures
            match reorder_spec(old(orchestration).steps@, step_ids@) {
                Ok(s) => r is Ok && final(orchestration).steps@ == s,
                Err(id) => r is Err && r->Err_0@ == "步骤 "@ + id + " 不存在"@
                    && final(orchestration).steps@ == old(orchestration).steps@,
            },
            final(orchestration).id == old(orchestration).id,
            final(orchestration).name == old(orchestration).name,
            final(orchestration).description == old(orchestration).description,
            final(orchestration).created_at == old(orchestration).created_at,
            final(orchestration).updated_at == old(orchestration).updated_at,
            final(orchestration).schedule == old(orchestration).schedule,
    {
        let mut reordered: Vec<OrchestrationStep> = Vec::new();
        let mut i: usize = 0;
        while i < step_ids.len()
            invariant
                i <= step_ids@.len(),
                reorder_spec(orchestration.steps@, step_ids@.take(i as int)) == Ok::<Seq<OrchestrationStep>, Seq<char>>(reordered@),
            decreases step_ids@.len() - i,
        {
            assert(step_ids@.take(i + 1).drop_last() =~= step_ids@.take(i as int));
            assert(step_ids@.take(i + 1).last() == step_ids@[i as int]);
            match find_step_index(&orchestration.steps, step_ids[i].as_str()) {
                None => {
                    proof {
                        lemma_reorder_err_extends(orchestration.steps@, step_ids@, i as int + 1);
                    }
                    return Err(crate::text::concat3("步骤 ", step_ids[i].as_str(), " 不存在"));
                },
                Some(k) => {
                    reordered.push(orchestration.steps[k].clone());
                },
            }
            i = i + 1;
        }
        assert(step_ids@.take(step_ids@.len() as int) =~= step_ids@);
        orchestration.steps = reordered;
        Ok(())
    }

    /// Appends a step.
    pub fn add_step(orchestration: &mut Orchestration, step: OrchestrationStep)
        ensures
            final(orchestration).steps@ == old(orchestration).steps@.push(step),
            final(orchestration).id == old(orchestration).id,
            final(orchestration).name == old(orchestration).name,
            final(orchestration).description == old(orchestration).description,
            final(orchestration).created_at == old(orchestration).created_at,
            final(orchestration).updated_at == old(orchestration).updated_at,
            final(orchestration).schedule == old(orchestration).schedule,
    {
        orchestration.steps.push(step);
    }

    /// Removes every step with id `step_id`, keeping the others in order.
    pub fn remove_step(orchestration: &mut Orchestration, step_id: &str)
        ensures
            final(orchestration).steps@ == old(orchestration).steps@.filter(|s: OrchestrationStep| s.id@ != step_id@),
            final(orchestration).id == old(orchestration).id,
            final(orchestration).name == old(orchestration).name,
            final(orchestration).description == old(orchestration).description,
            final(orchestration).created_at == old(orchestration).created_at,
            final(orchestration).updated_at == old(orchestration).updated_at,
            final(orchestration).schedule == old(orchestration).schedule,
    {
        let ghost pred = |s: OrchestrationStep| s.id@ != step_id@;
        let mut kept: Vec<OrchestrationStep> = Vec::new();
        let mut i: usize = 0;
        assert(orchestration.steps@.take(0).filter(pred) =~= Seq::<OrchestrationStep>::empty()) by {
            reveal_with_fuel(Seq::<_>::filter, 1);
        }
        while i < orchestration.steps.len()
            invariant
                i <= orchestration.steps@.len(),
                pred == (|s: OrchestrationStep| s.id@ != step_id@),
                kept@ == orchestration.steps@.take(i as int).filter(pred),
            decreases orchestration.steps@.len() - i,
        {
            let ghost steps = orchestration.steps@;
            assert(steps.take(i + 1).drop_last() =~= steps.take(i as int));
            assert(steps.take(i + 1).filter(pred) == (if pred(steps[i as int]) {
                steps.take(i as int).filter(pred).push(steps[i as int])
            } else {
                steps.take(i as int).filter(pred)
            })) by {
                reveal_with_fuel(Seq::<_>::filter, 1);
            }
            if !str_eq(orchestration.steps[i].id.as_str(), step_id) {
                kept.push(orchestration.steps[i].clone());
            }
            i = i + 1;
        }
        assert(orchestration.steps@.take(orchestration.steps@.len() as int) =~= orchestration.steps@);
        orchestration.steps = kept;
    }

    /// Overwrites each attribute of the step that is given.
    pub fn update_step(
        step: &mut OrchestrationStep,
        name: Option<String>,
        enabled: Option<bool>,
        wait_before: Option<u64>,
        retry_count: Option<u32>,
        retry_delay: Option<u64>,
        on_failure: Option<String>,
    )
        ensures
            final(step).id == old(step).id,
            final(step).api_id == old(step).api_id,
            final(step).name == (if name is Some { name } else { old(step).name }),
            final(step).enabled == (match enabled { Some(e) => e, None => old(step).enabled }),
            final(step).wait_before == (match wait_before { Some(w) => w, None => old(step).wait_before }),
            final(step).retry_count == (match retry_count { Some(c) => c, None => old(step).retry_count }),
            final(step).retry_delay == (match retry_delay { Some(d) => d, None => old(step).retry_delay }),
            final(step).on_failure == (match on_failure { Some(f) => f, None => old(step).on_failure }),
    {
        if let Some(n) = name {
            step.name = Some(n);
        }
        if let Some(e) = enabled {
            step.enabled = e;
        }
        if let Some(w) = wait_before {
            step.wait_before = w;
        }
        if let Some(c) = retry_count {
            step.retry_count = c;
        }
        if let Some(d) = retry_delay {
            step.retry_delay = d;
        }
        if let Some(f) = on_failure {
            step.on_failure = f;
        }
    }

    /// Records a step result: it replaces the first result of the same step,
    /// or is appended when the step has none yet.
    pub fn add_or_update_step_result(run: &mut OrchestrationRun, step_result: StepRunResult)
        ensures
            final(run).steps@ == record_result(old(run).steps@, step_result),
            final(run).id == old(run).id,
            final(run).orchestration_id == old(run).orchestration_id,
            final(run).status == old(run).status,
            final(run).start_time == old(run).start_time,
            final(run).end_time == old(run).end_time,
            final(run).total_time == old(run).total_time,
            final(run).success_count == old(run).success_count,
            final(run).failed_count == old(run).failed_count,
            final(run).skipped_count == old(run).skipped_count,
    {
        match find_result_index(&run.steps, step_result.step_id.as_str()) {
            Some(k) => {
                run.steps.set(k, step_result);
            },
            None => {
                run.steps.push(step_result);
            },
        }
    }
}

fn find_result_index(steps: &Vec<StepRunResult>, id: &str) -> (r: Option<usize>)
    ensures
        match r {
            Some(k) => result_index_from(steps@, id@, 0) == Some(k as int) && k < steps@.len(),
            None => result_index_from(steps@, id@, 0) is None,
        },
{
    let mut i: usize = 0;
    while i < steps.len()
        invariant
            i <= steps@.len(),
            result_index_from(steps@, id@, 0) == result_index_from(steps@, id@, i as int),
        decreases steps@.len() - i,
    {
        if str_eq(steps[i].step_id.as_str(), id) {
            return Some(i);
        }
        i = i + 1;
    }
    None
}

proof fn lemma_reorder_err_extends(steps: Seq<OrchestrationStep>, ids: Seq<String>, n: int)
    requires
        0 < n <= ids.len(),
        reorder_spec(steps, ids.take(n - 1)) is Ok,
        step_index(steps, ids[n - 1]@) is None,
    ensures
        reorder_spec(steps, ids) == Err::<Seq<OrchestrationStep>, Seq<char>>(ids[n - 1]@),
    decreases ids.len() - n,
{
    assert(ids.take(n).drop_last() =~= ids.take(n - 1));
    if n == ids.len() {
        assert(ids.take(n) =~= ids);
    } else {
        lemma_reorder_err_prefix(steps, ids, n);
    }
}

/// Once the reordering has failed on a prefix, it fails the same way on
/// every longer prefix.
proof fn lemma_reorder_err_prefix(steps: Seq<OrchestrationStep>, ids: Seq<String>, n: int)
    requires
        0 < n <= ids.len(),
        reorder_spec(steps, ids.take(n)) is Err,
    ensures
        reorder_spec(steps, ids) == reorder_spec(steps, ids.take(n)),
    decreases ids.len() - n,
{
    if n < ids.len() {
        assert(ids.take(n + 1).drop_last() =~= ids.take(n));
        lemma_reorder_err_prefix(steps, ids, n + 1);
    } else {
        assert(ids.take(n) =~= ids);
    }
}

// ---------------------------------------------------------------- laws

proof fn lemma_step_index_at(steps: Seq<OrchestrationStep>, k: int, i: int)
    requires
        0 <= i <= k < steps.len(),
        ids_distinct(steps),
    ensures
        step_index_from(steps, steps[k].id@, i) == Some(k),
    decreases k - i,
{
    if i < k {
        assert(steps[i].id@ != steps[k].id@);
        lemma_step_index_at(steps, k, i + 1);
    }
}

/// Reordering the steps by their own ids, when no two share one, leaves
/// them as they are.
pub proof fn lemma_reorder_current_order(steps: Seq<OrchestrationStep>)
    requires
        ids_distinct(steps),
    ensures
        reorder_spec(steps, step_ids(steps)) == Ok::<Seq<OrchestrationStep>, Seq<char>>(steps),
{
    let ids = step_ids(steps);
    assert forall|n: int| 0 <= n <= steps.len() implies #[trigger] reorder_spec(steps, ids.take(n))
        == Ok::<Seq<OrchestrationStep>, Seq<char>>(steps.take(n)) by {
        lemma_reorder_prefix(steps, n);
    }
    assert(ids.take(steps.len() as int) =~= ids);
    assert(steps.take(steps.len() as int) =~= steps);
    assert(reorder_spec(steps, ids.take(steps.len() as int)) == Ok::<Seq<OrchestrationStep>, Seq<char>>(steps.take(steps.len() as int)));
}

proof fn lemma_reorder_prefix(steps: Seq<OrchestrationStep>, n: int)
    requires
        ids_distinct(steps),
        0 <= n <= steps.len(),
    ensures
        reorder_spec(steps, step_ids(steps).take(n)) == Ok::<Seq<OrchestrationStep>, Seq<char>>(steps.take(n)),
    decreases n,
{
    let ids = step_ids(steps);
    if n == 0 {
        assert(ids.take(0) =~= Seq::<String>::empty());
        assert(steps.take(0) =~= Seq::<OrchestrationStep>::empty());
    } else {
        lemma_reorder_prefix(steps, n - 1);
        assert(ids.take(n).drop_last() =~= ids.take(n - 1));
        assert(ids.take(n).last() == steps[n - 1].id);
        lemma_step_index_at(steps, n - 1, 0);
        assert(steps.take(n - 1).push(steps[n - 1]) =~= steps.take(n));
    }
}

/// Removing a step that was just added, under an id no other step had,
/// gives back the steps from before.
pub proof fn lemma_remove_undoes_add(steps: Seq<OrchestrationStep>, step: OrchestrationStep)
    requires
        forall|i: int| 0 <= i < steps.len() ==> #[trigger] steps[i].id@ != step.id@,
    ensures
        steps.push(step).filter(|s: OrchestrationStep| s.id@ != step.id@) == steps,
{
    let pred = |s: OrchestrationStep| s.id@ != step.id@;
    assert(steps.push(step).drop_last() =~= steps);
    assert(steps.push(step).filter(pred) == steps.filter(pred)) by {
        reveal_with_fuel(Seq::<_>::filter, 1);
    }
    crate::collection_tree::lemma_filter_all(steps, pred);
}

proof fn lemma_result_index(steps: Seq<StepRunResult>, id: Seq<char>, i: int)
    requires
        0 <= i,
    ensures
        match result_index_from(steps, id, i) {
            Some(k) => i <= k < steps.len() && steps[k].step_id@ == id
                && forall|j: int| i <= j < k ==> #[trigger] steps[j].step_id@ != id,
            None => forall|j: int| i <= j < steps.len() ==> #[trigger] steps[j].step_id@ != id,
        },
    decreases steps.len() - i,
{
    if i < steps.len() && steps[i].step_id@ != id {
        lemma_result_index(steps, id, i + 1);
    }
}

proof fn lemma_result_index_unique(steps: Seq<StepRunResult>, id: Seq<char>, k: int, i: int)
    requires
        0 <= i <= k < steps.len(),
        steps[k].step_id@ == id,
        forall|j: int| 0 <= j < k ==> #[trigger] steps[j].step_id@ != id,
    ensures
        result_index_from(steps, id, i) == Some(k),
    decreases k - i,
{
    if i < k {
        lemma_result_index_unique(steps, id, k, i + 1);
    }
}

/// After a result is recorded, it is the one found for its step; recording
/// the same result again changes nothing.
pub proof fn lemma_record_result_idempotent(steps: Seq<StepRunResult>, r: StepRunResult)
    ensures
        ({
            let once = record_result(steps, r);
            &&& result_index_from(once, r.step_id@, 0) matches Some(k) && once[k] == r
            &&& record_result(once, r) == once
        }),
{
    let id = r.step_id@;
    lemma_result_index(steps, id, 0);
    let once = record_result(steps, r);
    match result_index_from(steps, id, 0) {
        Some(k) => {
            assert forall|j: int| 0 <= j < k implies #[trigger] once[j].step_id@ != id by {
                assert(once[j] == steps[j]);
            }
            lemma_result_index_unique(once, id, k, 0);
            assert(once.update(k, r) =~= once);
        },
        None => {
            let k = steps.len() as int;
            assert forall|j: int| 0 <= j < k implies #[trigger] once[j].step_id@ != id by {
                assert(once[j] == steps[j]);
            }
            lemma_result_index_unique(once, id, k, 0);
            assert(once.update(k, r) =~= once);
        },
    }
}

// ---------------------------------------------------------------- scheduling

/// What the scheduler of an orchestration does next.
#[derive(Debug, PartialEq, Eq, Structural)]
pub enum ScheduleAction {
    /// The task ends.
    Stop,
    /// The next run is due already: pause 100 ms and work it out again.
    Retry,
    /// Sleep this many milliseconds, then run.
    Wait(u64),
}

/// The scheduler's next move: stop when told to or when no next run can be
/// worked out; otherwise wait for the next run, or retry when it is not in
/// the future.
pub fn next_schedule_action(stopped: bool, next_in_ms: Option<i64>) -> (r: ScheduleAction)
    ensures
        r == (if stopped {
            ScheduleAction::Stop
        } else {
            match next_in_ms {
                None => ScheduleAction::Stop,
                Some(w) => if w <= 0 { ScheduleAction::Retry } else { ScheduleAction::Wait(w as u64) },
            }
        }),
{
    if stopped {
        return ScheduleAction::Stop;
    }
    match next_in_ms {
        None => ScheduleAction::Stop,
        Some(w) => if w <= 0 {
            ScheduleAction::Retry
        } else {
            ScheduleAction::Wait(w as u64)
        },
    }
}

/// Whether an orchestration can be scheduled: it needs a schedule, and the
/// schedule must be enabled.
pub fn check_schedule(orchestration: &Orchestration) -> (r: Result<(), String>)
    ensures
        match orchestration.schedule {
            None => r matches Err(e) && e@ == "编排未配置定时任务"@,
            Some(s) => if !s.enabled { r matches Err(e) && e@ == "定时任务未启用"@ } else { r is Ok },
        },
{
    match &orchestration.schedule {
        None => Err(to_string_of("编排未配置定时任务")),
        Some(s) => if !s.enabled {
            Err(to_string_of("定时任务未启用"))
        } else {
            Ok(())
        },
    }
}

/// Records the next run of a scheduled orchestration; one without a
/// schedule is left as it is.
pub fn set_next_run_at(orchestration: &mut Orchestration, next_run_at: String)
    ensures
        match old(orchestration).schedule {
            None => final(orchestration).schedule is None,
            Some(s) => final(orchestration).schedule == Some(OrchestrationSchedule { next_run_at: Some(next_run_at), ..s }),
        },
        final(orchestration).id == old(orchestration).id && final(orchestration).name == old(orchestration).name,
        final(orchestration).steps == old(orchestration).steps,
        final(orchestration).created_at == old(orchestration).created_at,
        final(orchestration).updated_at == old(orchestration).updated_at,
        final(orchestration).description == old(orchestration).description,
{
    let updated = match &orchestration.schedule {
        None => None,
        Some(s) => Some(OrchestrationSchedule {
            enabled: s.enabled,
            cron_expression: s.cron_expression.clone(),
            next_run_at: Some(next_run_at),
        }),
    };
    orchestration.schedule = updated;
}

/// The orchestrations whose schedules are restored when a workspace opens:
/// those with an enabled schedule, by id, in order.
pub open spec fn scheduled_ids(os: Seq<Orchestration>) -> Seq<Seq<char>>
    decreases os.len(),
{
    if os.len() == 0 {
        Seq::empty()
    } else if os.last().schedule matches Some(s) && s.enabled {
        scheduled_ids(os.drop_last()).push(os.last().id@)
    } else {
        scheduled_ids(os.drop_last())
    }
}

/// The ids of the orchestrations to schedule again.
pub fn orchestrations_to_restore(os: &Vec<Orchestration>) -> (r: Vec<String>)
    ensures
        crate::text::string_views(r@) == scheduled_ids(os@),
{
    let mut out: Vec<String> = Vec::new();
    for i in 0..os.len()
        invariant
            crate::text::string_views(out@) == scheduled_ids(os@.take(i as int)),
    {
        assert(os@.take(i + 1).drop_last() =~= os@.take(i as int));
        assert(os@.take(i + 1).last() == os@[i as int]);
        let enabled = match &os[i].schedule {
            Some(s) => s.enabled,
            None => false,
        };
        if enabled {
            let ghost before = crate::text::string_views(out@);
            out.push(os[i].id.clone());
            assert(crate::text::string_views(out@) =~= before.push(os@[i as int].id@));
        }
    }
    assert(os@.take(os@.len() as int) =~= os@);
    out
}

/// The running schedules: each orchestration id once, with the token of the
/// task that runs it.
pub struct SchedulerService {
    tasks: Vec<(String, u64)>,
}

pub open spec fn task_texts(s: Seq<(String, u64)>) -> Seq<(Seq<char>, u64)> {
    s.map_values(|p: (String, u64)| (p.0@, p.1))
}

pub open spec fn ids_once(s: Seq<Seq<char>>) -> bool {
    forall|i: int, j: int| 0 <= i < j < s.len() ==> #[trigger] s[i] != #[trigger] s[j]
}

/// Whether the task with `token` still runs the schedule of `id`: its stop
/// signal has not been raised.
pub open spec fn task_is_live(tasks: Map<Seq<char>, u64>, id: Seq<char>, token: u64) -> bool {
    tasks.dom().contains(id) && tasks[id] == token
}

fn clone_tasks(v: &Vec<(String, u64)>) -> (r: Vec<(String, u64)>)
    ensures
        r@ == v@,
{
    let mut r: Vec<(String, u64)> = Vec::new();
    for i in 0..v.len()
        invariant
            r@ == v@.take(i as int),
    {
        r.push((v[i].0.clone(), v[i].1));
        assert(r@ =~= v@.take(i + 1));
    }
    assert(v@.take(v@.len() as int) =~= v@);
    r
}

impl SchedulerService {
    /// The running schedules: each id with its task's token.
    pub closed spec fn tasks(&self) -> Map<Seq<char>, u64> {
        map_of(task_texts(self.tasks@))
    }

    /// The ids of the running schedules.
    pub open spec fn running(&self) -> Set<Seq<char>> {
        self.tasks().dom()
    }

    #[verifier::type_invariant]
    closed spec fn each_once(&self) -> bool {
        names_distinct(task_texts(self.tasks@))
    }

    /// No schedule runs.
    pub fn new() -> (r: Self)
        ensures
            r.tasks() == Map::<Seq<char>, u64>::empty(),
    {
        let r = SchedulerService { tasks: Vec::new() };
        assert(task_texts(r.tasks@) =~= Seq::<(Seq<char>, u64)>::empty());
        r
    }

    fn position(&self, id: &str) -> (r: Option<usize>)
        ensures
            match r {
                Some(i) => i < self.tasks@.len() && self.tasks@[i as int].0@ == id@,
                None => forall|i: int| 0 <= i < self.tasks@.len() ==> #[trigger] self.tasks@[i].0@ != id@,
            },
    {
        let mut i: usize = 0;
        while i < self.tasks.len()
            invariant
                i <= self.tasks@.len(),
                forall|j: int| 0 <= j < i ==> #[trigger] self.tasks@[j].0@ != id@,
            decreases self.tasks@.len() - i,
        {
            if str_eq(self.tasks[i].0.as_str(), id) {
                return Some(i);
            }
            i = i + 1;
        }
        None
    }

    /// No entry names `id`, so no schedule of `id` runs.
    proof fn lemma_absent(&self, id: Seq<char>)
        requires
            names_distinct(task_texts(self.tasks@)),
            forall|i: int| 0 <= i < self.tasks@.len() ==> #[trigger] self.tasks@[i].0@ != id,
        ensures
            !self.tasks().dom().contains(id),
    {
        let s = task_texts(self.tasks@);
        lemma_map_of_dom(s, id);
        if self.tasks().dom().contains(id) {
            let j = choose|j: int| 0 <= j < s.len() && #[trigger] s[j].0 == id;
            assert(self.tasks@[j].0@ == id);
        }
    }

    /// `stop_task`: the schedule of `orchestration_id` no longer runs (the
    /// stop signal of its task is raised); tells whether it was running.
    pub fn stop_task(&mut self, orchestration_id: &str) -> (was_running: bool)
        ensures
            final(self).tasks() == old(self).tasks().remove(orchestration_id@),
            was_running == old(self).running().contains(orchestration_id@),
    {
        proof {
            use_type_invariant(&*self);
        }
        let ghost s = task_texts(self.tasks@);
        match self.position(orchestration_id) {
            Some(i) => {
                let mut tasks = clone_tasks(&self.tasks);
                tasks.remove(i);
                proof {
                    lemma_map_of_remove(s, i as int);
                    lemma_map_of_at(s, i as int);
                    assert(task_texts(tasks@) =~= s.remove(i as int));
                }
                self.tasks = tasks;
                true
            },
            None => {
                proof {
                    self.lemma_absent(orchestration_id@);
                    assert(self.tasks().remove(orchestration_id@) =~= self.tasks());
                }
                false
            },
        }
    }

    /// Registers the task with `token` as running the schedule of
    /// `orchestration_id`, in place of any task that ran it.
    pub fn register(&mut self, orchestration_id: String, token: u64)
        ensures
            final(self).tasks() == old(self).tasks().insert(orchestration_id@, token),
    {
        proof {
            use_type_invariant(&*self);
        }
        let ghost s = task_texts(self.tasks@);
        let mut tasks = clone_tasks(&self.tasks);
        match self.position(orchestration_id.as_str()) {
            Some(i) => {
                tasks.set(i, (orchestration_id, token));
                proof {
                    lemma_map_of_update(s, i as int, token);
                    assert(task_texts(tasks@) =~= s.update(i as int, (s[i as int].0, token)));
                }
            },
            None => {
                let ghost id = orchestration_id@;
                tasks.push((orchestration_id, token));
                proof {
                    let t = task_texts(tasks@);
                    assert(t =~= s.push((id, token)));
                    assert(t.drop_last() =~= s);
                    assert forall|a: int, b: int| 0 <= a < b < t.len() implies #[trigger] t[a].0 != #[trigger] t[b].0 by {
                        if b == t.len() - 1 {
                            assert(self.tasks@[a].0@ != id);
                        } else {
                            assert(t[a] == s[a] && t[b] == s[b]);
                        }
                    }
                }
            },
        }
        self.tasks = tasks;
    }

    /// Whether the task with `token` still runs the schedule of `id`.
    pub fn is_live(&self, id: &str, token: u64) -> (r: bool)
        ensures
            r == task_is_live(self.tasks(), id@, token),
    {
        proof {
            use_type_invariant(self);
        }
        let ghost s = task_texts(self.tasks@);
        match self.position(id) {
            Some(i) => {
                proof {
                    lemma_map_of_at(s, i as int);
                }
                self.tasks[i].1 == token
            },
            None => {
                proof {
                    self.lemma_absent(id@);
                }
                false
            },
        }
    }

    /// `get_running_tasks`: the ids of the running schedules, each once.
    pub fn get_running_tasks(&self) -> (r: Vec<String>)
        ensures
            crate::text::string_views(r@).to_set() == self.running(),
            ids_once(crate::text::string_views(r@)),
    {
        proof {
            use_type_invariant(self);
        }
        let ghost s = task_texts(self.tasks@);
        let mut r: Vec<String> = Vec::new();
        for i in 0..self.tasks.len()
            invariant
                s == task_texts(self.tasks@),
                names_distinct(s),
                crate::text::string_views(r@) == s.take(i as int).map_values(|p: (Seq<char>, u64)| p.0),
        {
            let ghost before = crate::text::string_views(r@);
            r.push(self.tasks[i].0.clone());
            assert(crate::text::string_views(r@) =~= before.push(s[i as int].0));
            assert(s.take(i + 1).map_values(|p: (Seq<char>, u64)| p.0) =~= s.take(i as int).map_values(
                |p: (Seq<char>, u64)| p.0,
            ).push(s[i as int].0));
        }
        let ghost ids = crate::text::string_views(r@);
        assert(s.take(s.len() as int) =~= s);
        assert(ids.len() == s.len());
        assert forall|a: int, b: int| 0 <= a < b < ids.len() implies #[trigger] ids[a] != #[trigger] ids[b] by {
            assert(ids[a] == s[a].0 && ids[b] == s[b].0);
        }
        assert forall|x: Seq<char>| #[trigger] ids.to_set().contains(x) == self.running().contains(x) by {
            lemma_map_of_dom(s, x);
            if ids.to_set().contains(x) {
                let k = choose|k: int| 0 <= k < ids.len() && ids[k] == x;
                assert(s[k].0 == x);
            }
            if self.running().contains(x) {
                let k = choose|k: int| 0 <= k < s.len() && #[trigger] s[k].0 == x;
                assert(ids[k] == x);
            }
        }
        assert(ids.to_set() =~= self.running());
        r
    }
}

/// The life of a schedule's task: it runs once registered; it stops when
/// its schedule is stopped, or when another task is registered for the same
/// schedule; and registering or stopping another schedule leaves it alone.
pub proof fn lemma_task_liveness(tasks: Map<Seq<char>, u64>, id: Seq<char>, token: u64, other_id: Seq<char>, other_token: u64)
    ensures
        task_is_live(tasks.insert(id, token), id, token),
        !task_is_live(tasks.insert(id, token).remove(id), id, token),
        other_token != token ==> !task_is_live(tasks.insert(id, token).insert(id, other_token), id, token),
        other_id != id ==> task_is_live(tasks.insert(id, token).insert(other_id, other_token), id, token),
        other_id != id ==> task_is_live(tasks.insert(id, token).remove(other_id), id, token),
{
}

} // verus!
