//! Service configuration: the settings the process starts with, and the
//! plan of background tasks derived from them.

use vstd::prelude::*;

use crate::backoff::{BackoffStrategy, TaskSettings};
use crate::oauth::OAuthBundle;

verus! {

/// The background task kinds the service can run. Most run unless
/// explicitly disabled; the ones marked extra run only when asked for.
#[derive(Debug, Clone, Copy, PartialEq, Eq, Structural)]
pub enum ActiveTasks {
    /// Poll the public lobby listing for new games. Extra.
    LookForOpenfrontLobbies,
    /// Watch tracked lobbies until each completes, then archive it.
    LookForFinishedLobbies,
    /// Fetch results for games waiting in the analysis queue.
    LookForNewGamesInAnalysisQueue,
    /// Reclassify analyses that have been running too long as stalled.
    LookForOldRunningGames,
    /// Expire old login sessions.
    LookForOldSessions,
    /// Refresh the game lists of tracked players.
    LookForTrackedPlayerGames,
    /// Import lobbies from the production service. Extra.
    PullLobbiesFromPROD,
}

/// The service's configuration, as parsed from its command line and
/// environment by the startup code.
#[derive(Debug, Clone)]
pub struct Config {
    pub port: u16,
    pub rust_log: String,
    pub database_url: String,
    pub useragent: Option<String>,
    pub cookie: Option<String>,
    pub openfront_lobby_url: String,
    pub openfront_api_url: String,
    pub frontend_folder: String,
    pub discord_client_id: Option<String>,
    pub discord_client_secret: Option<String>,
    pub discord_redirect_uri: String,
    pub disable_tasks: Vec<ActiveTasks>,
    pub extra_tasks: Vec<ActiveTasks>,
}

impl Config {
    /// The OAuth settings, when both credentials are present; login stays
    /// off otherwise.
    pub fn get_discord_oauth(&self) -> (r: Option<OAuthBundle>)
        ensures
            (r is Some) == (self.discord_client_id is Some && self.discord_client_secret is Some),
            r matches Some(b) ==> {
                &&& Some(b.client_id@) == (match self.discord_client_id {
                    Some(ref id) => Some(id@),
                    None => None,
                })
                &&& Some(b.client_secret@) == (match self.discord_client_secret {
                    Some(ref s) => Some(s@),
                    None => None,
                })
                &&& b.redirect_uri@ == self.discord_redirect_uri@
            },
    {
        match (&self.discord_client_id, &self.discord_client_secret) {
            (Some(client_id), Some(client_secret)) => Some(
                OAuthBundle {
                    client_id: client_id.clone(),
                    client_secret: client_secret.clone(),
                    redirect_uri: self.discord_redirect_uri.clone(),
                },
            ),
            _ => None,
        }
    }

    /// Whether a task kind runs under this configuration: extra tasks only
    /// when listed in `extra_tasks`, every other kind unless listed in
    /// `disable_tasks`.
    pub fn task_enabled(&self, task: ActiveTasks) -> (r: bool)
        ensures
            r == task_enabled_spec(self.disable_tasks@, self.extra_tasks@, task),
    {
        match task {
            ActiveTasks::LookForOpenfrontLobbies | ActiveTasks::PullLobbiesFromPROD => task_listed(
                &self.extra_tasks,
                task,
            ),
            _ => !task_listed(&self.disable_tasks, task),
        }
    }
}

/// Whether a task kind is one of the opt-in extras.
pub open spec fn is_extra_task(task: ActiveTasks) -> bool {
    task == ActiveTasks::LookForOpenfrontLobbies || task == ActiveTasks::PullLobbiesFromPROD
}

/// Which tasks a configuration runs.
pub open spec fn task_enabled_spec(
    disabled: Seq<ActiveTasks>,
    extra: Seq<ActiveTasks>,
    task: ActiveTasks,
) -> bool {
    if is_extra_task(task) {
        extra.contains(task)
    } else {
        !disabled.contains(task)
    }
}

fn task_listed(list: &Vec<ActiveTasks>, task: ActiveTasks) -> (r: bool)
    ensures
        r == list@.contains(task),
{
    let mut i: usize = 0;
    while i < list.len()
        invariant
            i <= list@.len(),
            forall|j: int| 0 <= j < i ==> list@[j] != task,
        decreases list@.len() - i,
    {
        if list[i] == task {
            return true;
        }
        i = i + 1;
    }
    false
}

/// The supervision settings each task kind runs with: its idle wait
/// between successful runs, over the default backoff policy. The lobby
/// poller sleeps through its own adaptive delay, so its idle wait is zero.
pub fn task_settings(task: ActiveTasks) -> (r: TaskSettings)
    ensures
        r.backoff_strategy == (BackoffStrategy::Linear {
            start_ms: 5000,
            increment_ms: 5000,
            max_stacks: 10,
        }),
        r.sleep_time_ms == task_idle_ms(task),
{
    TaskSettings {
        sleep_time_ms: match task {
            ActiveTasks::LookForOpenfrontLobbies => 0,
            ActiveTasks::LookForNewGamesInAnalysisQueue => 5_000,
            ActiveTasks::LookForFinishedLobbies => 300_000,
            ActiveTasks::LookForOldRunningGames => 300_000,
            ActiveTasks::LookForOldSessions => 300_000,
            ActiveTasks::LookForTrackedPlayerGames => 60_000,
            ActiveTasks::PullLobbiesFromPROD => 3_600_000,
        },
        backoff_strategy: BackoffStrategy::default(),
    }
}

/// The idle wait of each task kind, in milliseconds.
pub open spec fn task_idle_ms(task: ActiveTasks) -> u64 {
    match task {
        ActiveTasks::LookForOpenfrontLobbies => 0,
        ActiveTasks::LookForNewGamesInAnalysisQueue => 5_000,
        ActiveTasks::LookForFinishedLobbies => 300_000,
        ActiveTasks::LookForOldRunningGames => 300_000,
        ActiveTasks::LookForOldSessions => 300_000,
        ActiveTasks::LookForTrackedPlayerGames => 60_000,
        ActiveTasks::PullLobbiesFromPROD => 3_600_000,
    }
}

} // verus!
