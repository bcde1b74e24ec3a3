//! The cron patterns of scheduled orchestrations, in Quartz style (a
//! seconds field first, weekdays numbered 1-7), as croner reads them; and
//! what a schedule's task works out before it starts and at each turn.

use vstd::prelude::*;
use crate::text::{all_ws, concat2};
use crate::orchestration::{check_schedule, next_schedule_action, Orchestration, ScheduleAction};

verus! {

/// What croner's parser, set for Quartz patterns, makes of `pattern`:
/// accepted, or the text of its error.
pub uninterp spec fn quartz_parse_of(pattern: Seq<char>) -> Result<(), Seq<char>>;

/// The first instant strictly after `after_ms` (milliseconds since the
/// epoch, UTC) at which croner finds that the accepted `pattern` fires, if
/// it finds one.
pub uninterp spec fn quartz_next_of(pattern: Seq<char>, after_ms: i64) -> Option<i64>;

/// The UTC instant `ms` as chrono writes it with `%Y-%m-%d %H:%M:%S`, when
/// chrono can represent the instant.
pub uninterp spec fn utc_stamp_of(ms: i64) -> Option<Seq<char>>;

/// croner: `Cron::new(pattern)` with `with_alternative_weekdays` and
/// `with_seconds_required`, then `parse`. Claimed: the outcome is the named
/// one, and a pattern of nothing but whitespace is refused as empty (the
/// first test of croner's `CronPattern::parse`).
#[verifier::external_body]
fn quartz_parse(pattern: &str) -> (r: Result<(), String>)
    ensures
        match r {
            Ok(u) => quartz_parse_of(pattern@) == Ok::<(), Seq<char>>(u) && !all_ws(pattern@),
            Err(e) => quartz_parse_of(pattern@) == Err::<(), Seq<char>>(e@) && (all_ws(pattern@) ==> e@
                == "CronPattern cannot be an empty string."@),
        },
{
    let mut c = croner::Cron::new(pattern);
    match c.with_alternative_weekdays().with_seconds_required().parse() {
        Ok(_) => Ok(()),
        Err(e) => Err(e.to_string()),
    }
}

/// croner: the pattern parsed as in `quartz_parse`, then
/// `find_next_occurrence` from the UTC instant `after_ms`, not inclusive;
/// the occurrence in milliseconds since the epoch. Claimed: the outcome is
/// the named one, and it lies after `after_ms` (the search starts a second
/// later and only moves forward).
#[verifier::external_body]
fn quartz_next(pattern: &str, after_ms: i64) -> (r: Option<i64>)
    requires
        quartz_parse_of(pattern@) is Ok,
    ensures
        r == quartz_next_of(pattern@, after_ms),
        r matches Some(n) ==> after_ms < n,
{
    let mut c = croner::Cron::new(pattern);
    let cron = c.with_alternative_weekdays().with_seconds_required().parse().ok()?;
    let start = chrono::DateTime::<chrono::Utc>::from_timestamp_millis(after_ms)?;
    cron.find_next_occurrence(&start, false).ok().map(|t| t.timestamp_millis())
}

/// chrono: `DateTime::<Utc>::from_timestamp_millis(ms)` written with
/// `format("%Y-%m-%d %H:%M:%S")`. Claimed: the outcome is the named one.
#[verifier::external_body]
fn utc_stamp(ms: i64) -> (r: Option<String>)
    ensures
        match r {
            Some(s) => utc_stamp_of(ms) == Some(s@),
            None => utc_stamp_of(ms) is None,
        },
{
    chrono::DateTime::<chrono::Utc>::from_timestamp_millis(ms).map(|t| t.format("%Y-%m-%d %H:%M:%S").to_string())
}

/// A cron pattern that croner accepts.
pub struct CronSchedule {
    pattern: String,
}

impl CronSchedule {
    #[verifier::type_invariant]
    closed spec fn accepted(&self) -> bool {
        quartz_parse_of(self.pattern@) is Ok
    }

    /// The pattern's text.
    pub closed spec fn pattern(&self) -> Seq<char> {
        self.pattern@
    }

    /// When the pattern fires next after `after_ms`, if croner finds a time.
    pub fn next_after(&self, after_ms: i64) -> (r: Option<i64>)
        ensures
            r == quartz_next_of(self.pattern(), after_ms),
            r matches Some(n) ==> after_ms < n,
    {
        proof {
            use_type_invariant(self);
        }
        quartz_next(self.pattern.as_str(), after_ms)
    }
}

/// The text of a refused pattern.
pub open spec fn cron_error_text(e: Seq<char>) -> Seq<char> {
    "Cron 表达式解析失败 (Quartz 格式): "@ + e
}

/// Reads a Quartz cron pattern.
pub fn parse_cron_expression(cron_expr: &str) -> (r: Result<CronSchedule, String>)
    ensures
        match quartz_parse_of(cron_expr@) {
            Ok(_) => r matches Ok(s) && s.pattern() == cron_expr@,
            Err(e) => r matches Err(t) && t@ == cron_error_text(e),
        },
        all_ws(cron_expr@) ==> (r matches Err(t) && t@ == cron_error_text("CronPattern cannot be an empty string."@)),
{
    match quartz_parse(cron_expr) {
        Ok(()) => Ok(CronSchedule { pattern: crate::text::to_string_of(cron_expr) }),
        Err(e) => Err(concat2("Cron 表达式解析失败 (Quartz 格式): ", e.as_str())),
    }
}

/// What starting a schedule works out before its task runs: the pattern,
/// when it fires next, and that time written as a UTC date and time.
pub struct ScheduleStart {
    pub schedule: CronSchedule,
    pub next_run_ms: Option<i64>,
    pub next_run_at: Option<String>,
}

/// The next run written out, when there is one and chrono can write it.
pub open spec fn next_run_text(next: Option<i64>) -> Option<Seq<char>> {
    match next {
        Some(n) => utc_stamp_of(n),
        None => None,
    }
}

/// `start_task`, up to the task itself: the orchestration needs an enabled
/// schedule whose pattern croner accepts; the next run is the first one
/// after `now_ms`.
pub fn plan_schedule_start(orchestration: &Orchestration, now_ms: i64) -> (r: Result<ScheduleStart, String>)
    ensures
        match orchestration.schedule {
            None => r matches Err(e) && e@ == "编排未配置定时任务"@,
            Some(s) => if !s.enabled {
                r matches Err(e) && e@ == "定时任务未启用"@
            } else {
                match quartz_parse_of(s.cron_expression@) {
                    Err(e) => r matches Err(t) && t@ == cron_error_text(e),
                    Ok(_) => r matches Ok(p) && p.schedule.pattern() == s.cron_expression@
                        && p.next_run_ms == quartz_next_of(s.cron_expression@, now_ms)
                        && match p.next_run_at {
                            Some(t) => next_run_text(p.next_run_ms) == Some(t@),
                            None => next_run_text(p.next_run_ms) is None,
                        },
                }
            },
        },
{
    match check_schedule(orchestration) {
        Err(e) => Err(e),
        Ok(()) => {
            let expr = match &orchestration.schedule {
                Some(s) => s.cron_expression.as_str(),
                None => {
                    return Err(crate::text::to_string_of("编排未配置定时任务"));
                },
            };
            let schedule = match parse_cron_expression(expr) {
                Ok(s) => s,
                Err(e) => {
                    return Err(e);
                },
            };
            let next_run_ms = schedule.next_after(now_ms);
            let next_run_at = match next_run_ms {
                Some(n) => utc_stamp(n),
                None => None,
            };
            Ok(ScheduleStart { schedule, next_run_ms, next_run_at })
        },
    }
}

/// How long to wait from `now_ms` until `next_ms`, when it is ahead; a wait
/// too long for an `i64` is cut to the largest one.
pub open spec fn wait_until(now_ms: i64, next_ms: i64) -> i64 {
    if next_ms - now_ms > i64::MAX {
        i64::MAX
    } else {
        (next_ms - now_ms) as i64
    }
}

/// One turn of a schedule's task at `now_ms`: stop when told to, or when
/// croner finds no next run; retry shortly when the next run is not ahead;
/// otherwise wait until it.
pub fn scheduled_task_step(schedule: &CronSchedule, stopped: bool, now_ms: i64) -> (r: ScheduleAction)
    ensures
        r == (if stopped {
            ScheduleAction::Stop
        } else {
            match quartz_next_of(schedule.pattern(), now_ms) {
                None => ScheduleAction::Stop,
                Some(n) => if n <= now_ms {
                    ScheduleAction::Retry
                } else {
                    ScheduleAction::Wait(wait_until(now_ms, n) as u64)
                },
            }
        }),
{
    if stopped {
        return next_schedule_action(true, None);
    }
    let wait: Option<i64> = match schedule.next_after(now_ms) {
        None => None,
        Some(n) => if n <= now_ms {
            Some(0)
        } else if now_ms < 0 && n > i64::MAX + now_ms {
            Some(i64::MAX)
        } else {
            Some(n - now_ms)
        },
    };
    next_schedule_action(false, wait)
}

} // verus!
