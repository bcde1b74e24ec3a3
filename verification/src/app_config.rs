//! Application configuration: the list of workspaces.

use vstd::prelude::*;
use crate::text::{str_eq, to_string_of, concat3};
use crate::ids::{generate_id, is_date_time_text, is_id_with_prefix, local_now_seconds};

verus! {

/// A workspace of the application.
#[derive(Debug)]
pub struct Workspace {
    pub id: String,
    pub name: String,
    pub description: String,
    pub created_at: String,
    pub last_opened: String,
    pub last_api_id: Option<String>,
    pub last_backup_at: Option<String>,
}

/// The configuration of the application.
#[derive(Debug)]
pub struct AppConfig {
    pub workspaces: Vec<Workspace>,
}

/// Whether some workspace is named `name`.
pub open spec fn has_workspace_named(ws: Seq<Workspace>, name: Seq<char>) -> bool {
    exists|i: int| 0 <= i < ws.len() && #[trigger] ws[i].name@ == name
}

/// Whether some workspace has id `id`.
pub open spec fn has_workspace_id(ws: Seq<Workspace>, id: Seq<char>) -> bool {
    exists|i: int| 0 <= i < ws.len() && #[trigger] ws[i].id@ == id
}

fn any_name(ws: &Vec<Workspace>, name: &str) -> (b: bool)
    ensures
        b == has_workspace_named(ws@, name@),
{
    for i in 0..ws.len()
        invariant
            forall|k: int| 0 <= k < i ==> ws@[k].name@ != name@,
    {
        if str_eq(ws[i].name.as_str(), name) {
            assert(ws@[i as int].name@ == name@);
            return true;
        }
    }
    false
}

fn any_id(ws: &Vec<Workspace>, id: &str) -> (b: bool)
    ensures
        b == has_workspace_id(ws@, id@),
{
    for i in 0..ws.len()
        invariant
            forall|k: int| 0 <= k < i ==> ws@[k].id@ != id@,
    {
        if str_eq(ws[i].id.as_str(), id) {
            assert(ws@[i as int].id@ == id@);
            return true;
        }
    }
    false
}

/// Rules for the workspaces of the configuration.
pub struct AppConfigDomainService;

impl AppConfigDomainService {
    /// A new workspace name must not be taken.
    pub fn check_name_duplicate(config: &AppConfig, name: &str) -> (r: Result<(), String>)
        ensures
            r is Err <==> has_workspace_named(config.workspaces@, name@),
            r matches Err(e) ==> e@ == "工作区名称 '"@ + name@ + "' 已存在"@,
    {
        if any_name(&config.workspaces, name) {
            return Err(concat3("工作区名称 '", name, "' 已存在"));
        }
        Ok(())
    }

    /// A fresh workspace id (`ws_...`).
    pub fn generate_workspace_id() -> (r: String)
        ensures
            is_id_with_prefix(r@, "ws"@),
    {
        generate_id("ws")
    }

    /// One can switch only to an existing workspace.
    pub fn validate_switch(config: &AppConfig, workspace_id: &str) -> (r: Result<(), String>)
        ensures
            r is Ok <==> has_workspace_id(config.workspaces@, workspace_id@),
            r matches Err(e) ==> e@ == "工作区不存在"@,
    {
        if !any_id(&config.workspaces, workspace_id) {
            return Err(to_string_of("工作区不存在"));
        }
        Ok(())
    }

    /// One can delete only an existing workspace.
    pub fn validate_delete(config: &AppConfig, workspace_id: &str) -> (r: Result<(), String>)
        ensures
            r is Ok <==> has_workspace_id(config.workspaces@, workspace_id@),
            r matches Err(e) ==> e@ == "工作区不存在"@,
    {
        if !any_id(&config.workspaces, workspace_id) {
            return Err(to_string_of("工作区不存在"));
        }
        Ok(())
    }

    /// A new workspace, created and opened now, with no last request and no
    /// backup yet.
    pub fn create_workspace_entity(name: String, description: String) -> (w: Workspace)
        ensures
            is_id_with_prefix(w.id@, "ws"@),
            w.name == name,
            w.description == description,
            w.created_at == w.last_opened,
            is_date_time_text(w.created_at@),
            w.last_api_id is None,
            w.last_backup_at is None,
    {
        let id = Self::generate_workspace_id();
        let now = local_now_seconds();
        Workspace {
            id,
            name,
            description,
            created_at: now.clone(),
            last_opened: now,
            last_api_id: None,
            last_backup_at: None,
        }
    }
}

// ---------------------------------------------------------------- backups

/// The index of the first workspace with id `id` from `i` on.
pub open spec fn workspace_pos(ws: Seq<Workspace>, id: Seq<char>, i: int) -> Option<int>
    decreases ws.len() - i,
{
    if i < 0 || i >= ws.len() {
        None
    } else if ws[i].id@ == id {
        Some(i)
    } else {
        workspace_pos(ws, id, i + 1)
    }
}

/// Records that workspace `workspace_id` was backed up at `now`: the first
/// workspace with that id takes the time; nothing changes when there is
/// none.
pub fn mark_backed_up(config: &mut AppConfig, workspace_id: &str, now: String)
    ensures
        final(config).workspaces@.len() == old(config).workspaces@.len(),
        match workspace_pos(old(config).workspaces@, workspace_id@, 0) {
            Some(k) => final(config).workspaces@ == old(config).workspaces@.update(
                k,
                Workspace { last_backup_at: Some(now), ..old(config).workspaces@[k] },
            ),
            None => final(config).workspaces@ == old(config).workspaces@,
        },
{
    match find_workspace(&config.workspaces, workspace_id) {
        Some(i) => {
            let w = Workspace {
                id: config.workspaces[i].id.clone(),
                name: config.workspaces[i].name.clone(),
                description: config.workspaces[i].description.clone(),
                created_at: config.workspaces[i].created_at.clone(),
                last_opened: config.workspaces[i].last_opened.clone(),
                last_api_id: match &config.workspaces[i].last_api_id {
                    Some(a) => Some(a.clone()),
                    None => None,
                },
                last_backup_at: Some(now),
            };
            config.workspaces.set(i, w);
        },
        None => {},
    }
}

fn find_workspace(ws: &Vec<Workspace>, id: &str) -> (r: Option<usize>)
    ensures
        match r {
            Some(k) => workspace_pos(ws@, id@, 0) == Some(k as int) && k < ws@.len(),
            None => workspace_pos(ws@, id@, 0) is None,
        },
{
    let mut i: usize = 0;
    while i < ws.len()
        invariant
            i <= ws@.len(),
            workspace_pos(ws@, id@, 0) == workspace_pos(ws@, id@, i as int),
        decreases ws@.len() - i,
    {
        if str_eq(ws[i].id.as_str(), id) {
            return Some(i);
        }
        i = i + 1;
    }
    None
}

/// The workspaces an automatic backup covers: those whose id is selected,
/// in the order of the configuration.
pub open spec fn backup_targets(ws: Seq<Workspace>, selected: Seq<String>) -> Seq<(Seq<char>, Seq<char>)>
    decreases ws.len(),
{
    if ws.len() == 0 {
        Seq::empty()
    } else if crate::text::string_views(selected).contains(ws.last().id@) {
        backup_targets(ws.drop_last(), selected).push((ws.last().id@, ws.last().name@))
    } else {
        backup_targets(ws.drop_last(), selected)
    }
}

fn is_selected(selected: &Vec<String>, id: &str) -> (r: bool)
    ensures
        r == crate::text::string_views(selected@).contains(id@),
{
    let ghost sv = crate::text::string_views(selected@);
    for i in 0..selected.len()
        invariant
            sv == crate::text::string_views(selected@),
            forall|k: int| 0 <= k < i ==> #[trigger] sv[k] != id@,
    {
        assert(sv[i as int] == selected@[i as int]@);
        if str_eq(selected[i].as_str(), id) {
            return true;
        }
    }
    false
}

/// The ids and names of the workspaces to back up automatically.
pub fn auto_backup_targets(config: &AppConfig, selected: &Vec<String>) -> (r: Vec<(String, String)>)
    ensures
        r@.map_values(|p: (String, String)| (p.0@, p.1@)) == backup_targets(config.workspaces@, selected@),
{
    let mut out: Vec<(String, String)> = Vec::new();
    for i in 0..config.workspaces.len()
        invariant
            out@.map_values(|p: (String, String)| (p.0@, p.1@)) == backup_targets(config.workspaces@.take(i as int), selected@),
    {
        let ghost ws = config.workspaces@;
        assert(ws.take(i + 1).drop_last() =~= ws.take(i as int));
        assert(ws.take(i + 1).last() == ws[i as int]);
        if is_selected(selected, config.workspaces[i].id.as_str()) {
            let ghost before = out@;
            out.push((config.workspaces[i].id.clone(), config.workspaces[i].name.clone()));
            assert(out@.map_values(|p: (String, String)| (p.0@, p.1@)) =~= before.map_values(
                |p: (String, String)| (p.0@, p.1@),
            ).push((ws[i as int].id@, ws[i as int].name@)));
        }
    }
    assert(config.workspaces@.take(config.workspaces@.len() as int) =~= config.workspaces@);
    out
}

/// The next stretch of a wait: at most one minute, so that a stop is seen
/// in time.
pub fn wait_step_ms(remaining: u64) -> (r: u64)
    ensures
        r == (if remaining < 60_000 { remaining } else { 60_000 }),
{
    if remaining < 60_000 {
        remaining
    } else {
        60_000
    }
}


/// The task that backs up the workspaces once a day: whether one runs with
/// a stop signal that has not been raised.
pub struct AutoBackupScheduler {
    running: bool,
}

impl AutoBackupScheduler {
    pub closed spec fn is_running(&self) -> bool {
        self.running
    }

    /// No task runs.
    pub fn new() -> (r: Self)
        ensures
            !r.is_running(),
    {
        AutoBackupScheduler { running: false }
    }

    /// `start`: the task under way is stopped first; a new one runs only
    /// when automatic backup is enabled and a repository is configured.
    /// Returns whether a task was started.
    pub fn start(&mut self, enabled: bool, configured: bool) -> (started: bool)
        ensures
            started == (enabled && configured),
            final(self).is_running() == started,
    {
        self.stop();
        if !enabled || !configured {
            return false;
        }
        self.running = true;
        true
    }

    /// `stop`: raises the stop signal of the task under way, if there is
    /// one, and says whether there was.
    pub fn stop(&mut self) -> (was_running: bool)
        ensures
            was_running == old(self).is_running(),
            !final(self).is_running(),
    {
        let was = self.running;
        self.running = false;
        was
    }
}

/// What the loop of the automatic backup does next.
#[derive(Debug, PartialEq, Eq, Structural)]
pub enum BackupLoopAction {
    /// The task ends.
    Stop,
    /// The backup time cannot be read: sleep an hour and read it again.
    RetryLater,
    /// Sleep this many milliseconds, then look again.
    Sleep(u64),
    /// The time has come: back up the selected workspaces.
    Backup,
}

/// One step of the loop: stop when told to; with no wait worked out (an
/// unreadable time), retry later; with time left, sleep at most a minute
/// of it; with none left, back up.
pub fn backup_loop_step(stopped: bool, remaining_ms: Option<u64>) -> (r: BackupLoopAction)
    ensures
        r == (if stopped {
            BackupLoopAction::Stop
        } else {
            match remaining_ms {
                None => BackupLoopAction::RetryLater,
                Some(w) => if w == 0 {
                    BackupLoopAction::Backup
                } else {
                    BackupLoopAction::Sleep(if w < 60_000 { w } else { 60_000 })
                },
            }
        }),
{
    if stopped {
        return BackupLoopAction::Stop;
    }
    match remaining_ms {
        None => BackupLoopAction::RetryLater,
        Some(w) => if w == 0 {
            BackupLoopAction::Backup
        } else {
            BackupLoopAction::Sleep(wait_step_ms(w))
        },
    }
}


/// One day in milliseconds.
pub const DAY_MS: i64 = 86_400_000;

/// The wait until the next daily backup: until today's backup time when it
/// is still ahead, otherwise until the same time a day later; never
/// negative.
pub open spec fn daily_wait_spec(now_ms: int, today_target_ms: int) -> int {
    let next = if today_target_ms > now_ms { today_target_ms } else { today_target_ms + DAY_MS };
    if next - now_ms > 0 { next - now_ms } else { 0 }
}

/// `next_wait_ms` once the clock and the time zone have been read:
/// `today_target_ms` is today's backup time (none when the time of the
/// setting cannot be read or does not exist today in the local zone).
pub fn daily_wait_ms(now_ms: i64, today_target_ms: Option<i64>) -> (r: Option<u64>)
    ensures
        match today_target_ms {
            None => r is None,
            Some(t) => r == Some(daily_wait_spec(now_ms as int, t as int) as u64),
        },
{
    match today_target_ms {
        None => None,
        Some(t) => {
            let next: i128 = if t > now_ms { t as i128 } else { t as i128 + DAY_MS as i128 };
            let wait: i128 = next - now_ms as i128;
            if wait > 0 {
                Some(wait as u64)
            } else {
                Some(0)
            }
        },
    }
}

} // verus!
