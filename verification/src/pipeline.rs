//! The lifecycle pipeline's decision steps: lobby discovery with its
//! adaptive poll delay and rollover repair, the sweep of quiet lobbies, and
//! the analysis-queue drainer.
//!
//! Each step is a function from plain observations — the fetched lobby
//! list, a classified game result, the clock — and the store to the next
//! store state. The loops around them (fetching, sleeping, retrying) live
//! outside; they perform the I/O and hand the results in.

use vstd::prelude::*;

use crate::completion::{GameStatus, GameStatusV, PipelineError};
use crate::source::{Lobby, PublicLobbiesResponse};
use crate::store::{
    enqueue_spec, finalize_spec, mark_full_spec, set_status_spec, upsert_lobby_spec,
    auto_analyze_key, flag_value, AnalysisQueueStatus, StoreModel, StoreV,
};
use crate::teams::{str_eq, valid_teams};

verus! {

/// How long a lobby must have gone unobserved before the sweep treats it as
/// over, in seconds.
pub const QUIET_LOBBY_SECS: i64 = 900;

/// The delay before polling the open lobby again: the time to its scheduled
/// start, held between 3.5 and 15.5 seconds, tightened to one second per
/// missing player, and shifted half a second early. Polling speeds up as
/// the lobby nears capacity or its start, but never beyond rate-limit
/// friendliness.
pub open spec fn delay_spec(ms_until_start: u64, num_clients: i32, max_players: i32) -> int {
    let remaining = if max_players >= num_clients {
        max_players - num_clients
    } else {
        0
    };
    let capped = vstd::math::min(
        vstd::math::min(ms_until_start as int, 15500),
        remaining * 1000,
    );
    let floored = vstd::math::max(capped, 3500);
    floored - 500
}

/// Compute the next poll delay, in milliseconds. The result always lies
/// between 3 and 15 seconds, whatever the inputs.
pub fn next_poll_delay_ms(ms_until_start: u64, num_clients: i32, max_players: i32) -> (r: u64)
    ensures
        r == delay_spec(ms_until_start, num_clients, max_players),
        3000 <= r <= 15000,
{
    let remaining_wide: i64 = (max_players as i64) - (num_clients as i64);
    let remaining: u64 = if remaining_wide >= 0 {
        remaining_wide as u64
    } else {
        0
    };
    let mut d: u64 = ms_until_start;
    if d > 15500 {
        d = 15500;
    }
    let per_player_cap: u64 = remaining * 1000;
    if d > per_player_cap {
        d = per_player_cap;
    }
    if d < 3500 {
        d = 3500;
    }
    d - 500
}

/// The discovery loop's private cursor: the last lobby id it observed, and
/// whether the coming poll was expected to land after that lobby started.
pub struct DiscoveryCursor {
    pub last_game_id: String,
    pub expected_rollover: bool,
}

/// Mathematical image of a [`DiscoveryCursor`].
#[verifier::ext_equal]
pub struct CursorV {
    pub last_game_id: Seq<char>,
    pub expected_rollover: bool,
}

impl View for DiscoveryCursor {
    type V = CursorV;

    open spec fn view(&self) -> CursorV {
        CursorV { last_game_id: self.last_game_id@, expected_rollover: self.expected_rollover }
    }
}

impl DiscoveryCursor {
    /// The cursor before anything was observed. The rollover flag starts
    /// set, so the very first observation repairs nothing.
    pub fn new() -> (r: Self)
        ensures
            r@.last_game_id.len() == 0,
            r@.expected_rollover,
    {
        DiscoveryCursor { last_game_id: String::new(), expected_rollover: true }
    }

    /// Whether this observation means the previous lobby vanished before
    /// it was expected to start — the condition for the rollover repair.
    pub fn rollover_repair_needed(&self, observed_game_id: &str) -> (r: bool)
        ensures
            r == (observed_game_id@ != self@.last_game_id && !self@.expected_rollover),
    {
        !str_eq(observed_game_id, self.last_game_id.as_str()) && !self.expected_rollover
    }

    /// Record the observed lobby, and whether the chosen poll delay
    /// overshoots its scheduled start — in which case the next poll is
    /// expected to see a new lobby.
    pub fn record_observation(&mut self, game_id: &str, delay_ms: u64, ms_until_start: u64)
        ensures
            final(self)@.last_game_id == game_id@,
            final(self)@.expected_rollover == (delay_ms > ms_until_start),
    {
        self.last_game_id = game_id.to_owned();
        self.expected_rollover = delay_ms > ms_until_start;
    }
}

/// Record one observation of the current lobby: upsert its row and compute
/// the next poll delay.
pub fn insert_new_game(store: &mut StoreModel, lobby: &Lobby, now: i64) -> (delay: u64)
    requires
        old(store)@.wf(),
        valid_teams(lobby@.game_config),
    ensures
        final(store)@.wf(),
        final(store)@ == upsert_lobby_spec(old(store)@, lobby@, now),
        delay == delay_spec(lobby.ms_until_start, lobby.num_clients, lobby.game_config.max_players),
        3000 <= delay <= 15000,
{
    store.upsert_lobby(lobby, now);
    next_poll_delay_ms(lobby.ms_until_start, lobby.num_clients, lobby.game_config.max_players)
}

/// The store after discovery handled one fetched lobby list: if a new lobby
/// appeared before the previous one was expected to roll over, the previous
/// lobby is assumed to have filled and is repaired to capacity first; then
/// the current lobby's observation is upserted.
pub open spec fn discovery_spec(s: StoreV, cursor: CursorV, first: crate::source::LobbyV, now: i64) -> StoreV {
    let repaired = if first.game_id != cursor.last_game_id && !cursor.expected_rollover {
        mark_full_spec(s, cursor.last_game_id)
    } else {
        s
    };
    upsert_lobby_spec(repaired, first, now)
}

/// One iteration of the lobby discovery loop, given the fetched list of
/// open lobbies. The head of the list is the current lobby; an empty list
/// is the `NoLobbiesFound` failure and changes nothing.
///
/// The returned delay is how long to sleep before polling again; the cursor
/// carries what the next iteration needs to detect a rollover.
pub fn discovery_step(
    cursor: &mut DiscoveryCursor,
    store: &mut StoreModel,
    resp: &PublicLobbiesResponse,
    now: i64,
) -> (r: Result<u64, PipelineError>)
    requires
        old(store)@.wf(),
        resp.lobbies@.len() > 0 ==> valid_teams(resp.lobbies@[0]@.game_config),
    ensures
        final(store)@.wf(),
        resp.lobbies@.len() == 0 ==> r == Err::<u64, PipelineError>(PipelineError::NoLobbiesFound)
            && final(store)@ == old(store)@ && final(cursor)@ == old(cursor)@,
        resp.lobbies@.len() > 0 ==> {
            let first = resp.lobbies@[0]@;
            let delay = delay_spec(
                first.ms_until_start,
                first.num_clients,
                first.game_config.max_players,
            );
            &&& final(store)@ == discovery_spec(old(store)@, old(cursor)@, first, now)
            &&& r == Ok::<u64, PipelineError>(delay as u64)
            &&& 3000 <= delay <= 15000
            &&& final(cursor)@.last_game_id == first.game_id
            &&& final(cursor)@.expected_rollover == (delay > first.ms_until_start)
        },
{
    if resp.lobbies.len() == 0 {
        return Err(PipelineError::NoLobbiesFound);
    }
    let first = &resp.lobbies[0];

    if cursor.rollover_repair_needed(first.game_id.as_str()) {
        // The previous lobby vanished before it was expected to start: it
        // must have filled. Repair its player count before moving on.
        store.mark_lobby_full(cursor.last_game_id.as_str());
    }

    let delay = insert_new_game(store, first, now);

    cursor.record_observation(first.game_id.as_str(), delay, first.ms_until_start);
    proof {
        if resp.lobbies@[0]@.game_id == old(cursor)@.last_game_id || old(
            cursor,
        )@.expected_rollover {
            assert(final(store)@ == discovery_spec(
                old(store)@,
                old(cursor)@,
                resp.lobbies@[0]@,
                now,
            ));
        }
    }
    Ok(delay)
}

/// The store after the sweep finalized one quiet lobby: the game is
/// archived by the Finalization routine, and, when the auto-analysis flag
/// is on, a pending analysis request is created for it.
pub open spec fn sweep_spec(s: StoreV, status: GameStatusV, id: Seq<char>, now: i64) -> StoreV {
    let finalized = finalize_spec(s, status, id, now);
    if flag_value(s.config_flags, auto_analyze_key()) == Some("true"@) {
        enqueue_spec(finalized, id, None, now)
    } else {
        finalized
    }
}

/// Process one candidate of the lobby sweep, its terminal state already
/// classified: archive it, and queue it for analysis when the system is
/// configured to.
pub fn sweep_candidate(store: &mut StoreModel, game_id: &str, status: GameStatus, now: i64)
    requires
        old(store)@.wf(),
    ensures
        final(store)@.wf(),
        final(store)@ == sweep_spec(old(store)@, status@, game_id@, now),
{
    store.save_finished_game(status, game_id, now);
    if store.auto_analyze_enabled() {
        store.create_analysis_entry_if_absent(game_id, None, now);
    }
}

/// The store after the drainer processed one queue entry: a reported error
/// fails the entry, an unknown game marks it `NotFound`, a finished game
/// leaves the entry alone — the downstream analysis engine will claim it —
/// and in every case the Finalization routine archives what there is to
/// archive.
pub open spec fn drain_spec(s: StoreV, status: GameStatusV, id: Seq<char>, now: i64) -> StoreV {
    let advanced = match status {
        GameStatusV::Finished(_) => s,
        GameStatusV::Error(_) => set_status_spec(s, id, AnalysisQueueStatus::Failed, now),
        GameStatusV::NotFound => set_status_spec(s, id, AnalysisQueueStatus::NotFound, now),
    };
    finalize_spec(advanced, status, id, now)
}

/// The queue transition the drainer applies for a classification: a
/// reported error fails the entry, an unknown game marks it `NotFound`,
/// and a finished game leaves the entry for the analysis engine to claim.
pub fn drain_status_update(status: &GameStatus) -> (r: Option<AnalysisQueueStatus>)
    ensures
        r == (match status@ {
            GameStatusV::Finished(_) => None::<AnalysisQueueStatus>,
            GameStatusV::Error(_) => Some(AnalysisQueueStatus::Failed),
            GameStatusV::NotFound => Some(AnalysisQueueStatus::NotFound),
        }),
{
    match status {
        GameStatus::Finished(_) => None,
        GameStatus::Error(_) => Some(AnalysisQueueStatus::Failed),
        GameStatus::NotFound => Some(AnalysisQueueStatus::NotFound),
    }
}

/// Process one analysis-queue candidate, its terminal state already
/// classified.
pub fn drain_queue_candidate(store: &mut StoreModel, game_id: &str, status: GameStatus, now: i64)
    requires
        old(store)@.wf(),
    ensures
        final(store)@.wf(),
        final(store)@ == drain_spec(old(store)@, status@, game_id@, now),
{
    match drain_status_update(&status) {
        None => {},
        Some(s) => {
            store.set_analysis_status(game_id, s, now);
        },
    }
    store.save_finished_game(status, game_id, now);
}

} // verus!
