//! The persistence model: lobbies, finished games, the analysis queue and
//! configuration flags, with the operations the pipeline drives them
//! through.
//!
//! [`StoreModel`] is the in-memory implementation of the persistence
//! gateway. Every operation is specified as a function on the mathematical
//! store state [`StoreV`], so that the pipeline's behaviour — and properties
//! such as the idempotence of finalization — are stated and proved over one
//! model. A production deployment keeps the same relations in a relational
//! database and mirrors these operations statement by statement.

use vstd::prelude::*;

use crate::completion::{GameStatus, GameStatusV};
use crate::source::{Lobby, LobbyV};
use crate::teams::{player_teams_spec, valid_teams, GameConfig, GameConfigV, PlayerTeams};

verus! {

/// Status of one analysis-queue entry. The drainer only moves entries from
/// `Pending` to `Failed` or `NotFound`; a downstream analysis engine owns
/// `Pending → Running → Completed`, a staleness sweep moves quiet `Running`
/// entries to `Stalled`, and a user may cancel before completion.
#[derive(Debug, Clone, Copy, PartialEq, Eq, Structural)]
pub enum AnalysisQueueStatus {
    Pending,
    Running,
    Completed,
    NotFound,
    Failed,
    Stalled,
    Cancelled,
    CompletedAlready,
}

/// One lobby row, configuration included.
#[derive(Debug, Clone)]
pub struct LobbyDBEntry {
    pub game_id: String,
    pub teams: PlayerTeams,
    pub max_players: i32,
    pub game_map: String,
    pub approx_num_players: i32,
    pub first_seen_unix_sec: i64,
    pub last_seen_unix_sec: i64,
    pub completed: bool,
    /// The lobby configuration as first observed; the store keeps it whole.
    pub lobby_config: GameConfig,
    pub analysis_complete: bool,
}

/// One lobby row without its configuration, as list queries return it.
#[derive(Debug, Clone)]
pub struct LobbyDBEntryNoConfig {
    pub game_id: String,
    pub teams: PlayerTeams,
    pub max_players: i32,
    pub game_map: String,
    pub approx_num_players: i32,
    pub first_seen_unix_sec: i64,
    pub last_seen_unix_sec: i64,
    pub completed: bool,
    pub analysis_complete: bool,
}

/// Mathematical image of a [`LobbyDBEntry`].
#[verifier::ext_equal]
pub struct LobbyRowV {
    pub game_id: Seq<char>,
    pub teams: PlayerTeams,
    pub max_players: i32,
    pub game_map: Seq<char>,
    pub approx_num_players: i32,
    pub first_seen_unix_sec: i64,
    pub last_seen_unix_sec: i64,
    pub completed: bool,
    pub lobby_config: GameConfigV,
    pub analysis_complete: bool,
}

impl View for LobbyDBEntry {
    type V = LobbyRowV;

    open spec fn view(&self) -> LobbyRowV {
        LobbyRowV {
            game_id: self.game_id@,
            teams: self.teams,
            max_players: self.max_players,
            game_map: self.game_map@,
            approx_num_players: self.approx_num_players,
            first_seen_unix_sec: self.first_seen_unix_sec,
            last_seen_unix_sec: self.last_seen_unix_sec,
            completed: self.completed,
            lobby_config: self.lobby_config@,
            analysis_complete: self.analysis_complete,
        }
    }
}

/// Mathematical image of a [`LobbyDBEntryNoConfig`].
#[verifier::ext_equal]
pub struct LobbyNoConfigV {
    pub game_id: Seq<char>,
    pub teams: PlayerTeams,
    pub max_players: i32,
    pub game_map: Seq<char>,
    pub approx_num_players: i32,
    pub first_seen_unix_sec: i64,
    pub last_seen_unix_sec: i64,
    pub completed: bool,
    pub analysis_complete: bool,
}

impl View for LobbyDBEntryNoConfig {
    type V = LobbyNoConfigV;

    open spec fn view(&self) -> LobbyNoConfigV {
        LobbyNoConfigV {
            game_id: self.game_id@,
            teams: self.teams,
            max_players: self.max_players,
            game_map: self.game_map@,
            approx_num_players: self.approx_num_players,
            first_seen_unix_sec: self.first_seen_unix_sec,
            last_seen_unix_sec: self.last_seen_unix_sec,
            completed: self.completed,
            analysis_complete: self.analysis_complete,
        }
    }
}

/// A lobby row with the configuration dropped.
pub open spec fn drop_config(l: LobbyRowV) -> LobbyNoConfigV {
    LobbyNoConfigV {
        game_id: l.game_id,
        teams: l.teams,
        max_players: l.max_players,
        game_map: l.game_map,
        approx_num_players: l.approx_num_players,
        first_seen_unix_sec: l.first_seen_unix_sec,
        last_seen_unix_sec: l.last_seen_unix_sec,
        completed: l.completed,
        analysis_complete: l.analysis_complete,
    }
}

/// One archived game result.
#[derive(Debug, Clone)]
pub struct FinshedGameDBEntry {
    pub game_id: String,
    /// The result payload as the source sent it, or the error payload.
    pub result_json: String,
    /// True only for a structurally valid finished result.
    pub is_ok: bool,
    pub inserted_at_unix_sec: i64,
}

/// Mathematical image of a [`FinshedGameDBEntry`].
#[verifier::ext_equal]
pub struct FinishedRowV {
    pub game_id: Seq<char>,
    pub result_json: Seq<char>,
    pub is_ok: bool,
    pub inserted_at_unix_sec: i64,
}

impl View for FinshedGameDBEntry {
    type V = FinishedRowV;

    open spec fn view(&self) -> FinishedRowV {
        FinishedRowV {
            game_id: self.game_id@,
            result_json: self.result_json@,
            is_ok: self.is_ok,
            inserted_at_unix_sec: self.inserted_at_unix_sec,
        }
    }
}

/// One request for deeper analysis of a game.
#[derive(Debug, Clone)]
pub struct AnalysisQueueEntry {
    pub game_id: String,
    pub requesting_user_id: Option<String>,
    pub requested_unix_sec: i64,
    pub started_unix_sec: Option<i64>,
    pub status: AnalysisQueueStatus,
}

/// Mathematical image of an [`AnalysisQueueEntry`].
#[verifier::ext_equal]
pub struct QueueRowV {
    pub game_id: Seq<char>,
    pub requesting_user_id: Option<Seq<char>>,
    pub requested_unix_sec: i64,
    pub started_unix_sec: Option<i64>,
    pub status: AnalysisQueueStatus,
}

impl View for AnalysisQueueEntry {
    type V = QueueRowV;

    open spec fn view(&self) -> QueueRowV {
        QueueRowV {
            game_id: self.game_id@,
            requesting_user_id: match &self.requesting_user_id {
                None => None,
                Some(u) => Some(u@),
            },
            requested_unix_sec: self.requested_unix_sec,
            started_unix_sec: self.started_unix_sec,
            status: self.status,
        }
    }
}

/// One key/value configuration flag.
#[derive(Debug, Clone)]
pub struct ConfigFlag {
    pub key: String,
    pub value: String,
}

/// Mathematical image of a [`ConfigFlag`].
#[verifier::ext_equal]
pub struct FlagV {
    pub key: Seq<char>,
    pub value: Seq<char>,
}

impl View for ConfigFlag {
    type V = FlagV;

    open spec fn view(&self) -> FlagV {
        FlagV { key: self.key@, value: self.value@ }
    }
}

/// The whole store state: the three relations of the data model, plus
/// configuration flags, all keyed by game id respectively flag key.
#[verifier::ext_equal]
pub struct StoreV {
    pub lobbies: Seq<LobbyRowV>,
    pub finished_games: Seq<FinishedRowV>,
    pub analysis_queue: Seq<QueueRowV>,
    pub config_flags: Seq<FlagV>,
}

impl StoreV {
    /// Keys are unique within each relation.
    pub open spec fn wf(self) -> bool {
        &&& forall|i: int, j: int|
            0 <= i < j < self.lobbies.len() ==> (#[trigger] self.lobbies[i]).game_id != (
            #[trigger] self.lobbies[j]).game_id
        &&& forall|i: int, j: int|
            0 <= i < j < self.finished_games.len() ==> (#[trigger] self.finished_games[i]).game_id
                != (#[trigger] self.finished_games[j]).game_id
        &&& forall|i: int, j: int|
            0 <= i < j < self.analysis_queue.len() ==> (#[trigger] self.analysis_queue[i]).game_id
                != (#[trigger] self.analysis_queue[j]).game_id
        &&& forall|i: int, j: int|
            0 <= i < j < self.config_flags.len() ==> (#[trigger] self.config_flags[i]).key != (
            #[trigger] self.config_flags[j]).key
    }
}

/// Whether a lobby row with this id exists.
pub open spec fn has_lobby(lobbies: Seq<LobbyRowV>, id: Seq<char>) -> bool {
    exists|i: int| 0 <= i < lobbies.len() && (#[trigger] lobbies[i]).game_id == id
}

/// Whether a finished-game row with this id exists.
pub open spec fn has_finished(finished: Seq<FinishedRowV>, id: Seq<char>) -> bool {
    exists|i: int| 0 <= i < finished.len() && (#[trigger] finished[i]).game_id == id
}

/// Whether an analysis-queue entry with this id exists.
pub open spec fn has_queue_entry(queue: Seq<QueueRowV>, id: Seq<char>) -> bool {
    exists|i: int| 0 <= i < queue.len() && (#[trigger] queue[i]).game_id == id
}

/// Whether an analysis-queue entry with this id exists that is not
/// cancelled.
pub open spec fn has_active_queue_entry(queue: Seq<QueueRowV>, id: Seq<char>) -> bool {
    exists|i: int|
        0 <= i < queue.len() && (#[trigger] queue[i]).game_id == id && queue[i].status
            != AnalysisQueueStatus::Cancelled
}

/// How many finished-game rows carry this id.
pub open spec fn count_finished(finished: Seq<FinishedRowV>, id: Seq<char>) -> nat
    decreases finished.len(),
{
    if finished.len() == 0 {
        0
    } else {
        count_finished(finished.drop_last(), id) + if finished.last().game_id == id {
            1nat
        } else {
            0nat
        }
    }
}

/// The value of the first flag with this key, if any.
pub open spec fn flag_value(flags: Seq<FlagV>, key: Seq<char>) -> Option<Seq<char>>
    decreases flags.len(),
{
    if flags.len() == 0 {
        None
    } else if flags.first().key == key {
        Some(flags.first().value)
    } else {
        flag_value(flags.drop_first(), key)
    }
}

/// The first lobby row with this id, if any.
pub open spec fn lobby_lookup(lobbies: Seq<LobbyRowV>, id: Seq<char>) -> Option<LobbyRowV>
    decreases lobbies.len(),
{
    if lobbies.len() == 0 {
        None
    } else if lobbies.first().game_id == id {
        Some(lobbies.first())
    } else {
        lobby_lookup(lobbies.drop_first(), id)
    }
}

/// The first finished-game row with this id, if any.
pub open spec fn finished_lookup(finished: Seq<FinishedRowV>, id: Seq<char>) -> Option<
    FinishedRowV,
>
    decreases finished.len(),
{
    if finished.len() == 0 {
        None
    } else if finished.first().game_id == id {
        Some(finished.first())
    } else {
        finished_lookup(finished.drop_first(), id)
    }
}

/// The first queue entry with this id, if any.
pub open spec fn queue_lookup(queue: Seq<QueueRowV>, id: Seq<char>) -> Option<QueueRowV>
    decreases queue.len(),
{
    if queue.len() == 0 {
        None
    } else if queue.first().game_id == id {
        Some(queue.first())
    } else {
        queue_lookup(queue.drop_first(), id)
    }
}

/// A lobby row with `completed` set.
pub open spec fn row_completed(r: LobbyRowV) -> LobbyRowV {
    LobbyRowV { completed: true, ..r }
}

/// All lobby rows with this id marked completed.
pub open spec fn mark_completed_spec(lobbies: Seq<LobbyRowV>, id: Seq<char>) -> Seq<LobbyRowV> {
    lobbies.map_values(
        |r: LobbyRowV|
            if r.game_id == id {
                row_completed(r)
            } else {
                r
            },
    )
}

/// The Finalization routine on the store state: a `NotFound` classification
/// changes nothing; otherwise the parent lobby is marked completed and a
/// finished-game row is inserted — unless one already exists, in which case
/// the insert is skipped as a benign no-op.
pub open spec fn finalize_spec(s: StoreV, status: GameStatusV, id: Seq<char>, now: i64) -> StoreV {
    match status {
        GameStatusV::NotFound => s,
        GameStatusV::Finished(p) => finalize_with(s, p.raw_json, true, id, now),
        GameStatusV::Error(p) => finalize_with(s, p.raw_json, false, id, now),
    }
}

/// The committing half of finalization, shared by the two terminal
/// classifications.
pub open spec fn finalize_with(s: StoreV, raw: Seq<char>, is_ok: bool, id: Seq<char>, now: i64) -> StoreV {
    StoreV {
        lobbies: mark_completed_spec(s.lobbies, id),
        finished_games: if has_finished(s.finished_games, id) {
            s.finished_games
        } else {
            s.finished_games.push(
                FinishedRowV { game_id: id, result_json: raw, is_ok, inserted_at_unix_sec: now },
            )
        },
        ..s
    }
}

/// Finalizing a second time with the same status and id changes nothing
/// more: the lobby stays completed and no second finished-game row appears.
/// A fresh id ends with exactly one archived row.
pub proof fn lemma_finalization_idempotent(s: StoreV, status: GameStatusV, id: Seq<char>, now1: i64, now2: i64)
    ensures
        finalize_spec(finalize_spec(s, status, id, now1), status, id, now2) == finalize_spec(
            s,
            status,
            id,
            now1,
        ),
        !(status is NotFound) && !has_finished(s.finished_games, id) ==> count_finished(
            finalize_spec(s, status, id, now1).finished_games,
            id,
        ) == count_finished(s.finished_games, id) + 1,
        !(status is NotFound) ==> forall|i: int|
            0 <= i < finalize_spec(s, status, id, now1).lobbies.len() && (#[trigger] finalize_spec(
                s,
                status,
                id,
                now1,
            ).lobbies[i]).game_id == id ==> finalize_spec(s, status, id, now1).lobbies[i].completed,
{
    match status {
        GameStatusV::NotFound => {},
        GameStatusV::Finished(p) => {
            lemma_finalize_with_idempotent(s, p.raw_json, true, id, now1, now2);
        },
        GameStatusV::Error(p) => {
            lemma_finalize_with_idempotent(s, p.raw_json, false, id, now1, now2);
        },
    }
}

proof fn lemma_finalize_with_idempotent(s: StoreV, raw: Seq<char>, is_ok: bool, id: Seq<char>, now1: i64, now2: i64)
    ensures
        finalize_with(finalize_with(s, raw, is_ok, id, now1), raw, is_ok, id, now2)
            == finalize_with(s, raw, is_ok, id, now1),
        !has_finished(s.finished_games, id) ==> count_finished(
            finalize_with(s, raw, is_ok, id, now1).finished_games,
            id,
        ) == count_finished(s.finished_games, id) + 1,
{
    let once = finalize_with(s, raw, is_ok, id, now1);
    let twice = finalize_with(once, raw, is_ok, id, now2);
    // Marking completed twice is marking once.
    assert(mark_completed_spec(mark_completed_spec(s.lobbies, id), id) =~= mark_completed_spec(
        s.lobbies,
        id,
    ));
    // After the first call a finished row with this id exists, so the second
    // call inserts nothing.
    if has_finished(s.finished_games, id) {
        assert(has_finished(once.finished_games, id));
    } else {
        let pushed = s.finished_games.push(
            FinishedRowV { game_id: id, result_json: raw, is_ok, inserted_at_unix_sec: now1 },
        );
        assert(pushed[pushed.len() - 1].game_id == id);
        assert(has_finished(once.finished_games, id));
        lemma_count_finished_push(s.finished_games, id, raw, is_ok, now1);
    }
    assert(twice =~~= once);
}

proof fn lemma_count_finished_push(finished: Seq<FinishedRowV>, id: Seq<char>, raw: Seq<char>, is_ok: bool, now: i64)
    ensures
        count_finished(
            finished.push(
                FinishedRowV { game_id: id, result_json: raw, is_ok, inserted_at_unix_sec: now },
            ),
            id,
        ) == count_finished(finished, id) + 1,
{
    let row = FinishedRowV { game_id: id, result_json: raw, is_ok, inserted_at_unix_sec: now };
    let pushed = finished.push(row);
    assert(pushed.drop_last() =~= finished);
    assert(pushed.last() == row);
}

/// The store: the in-memory persistence gateway.
pub struct StoreModel {
    lobbies: Vec<LobbyDBEntry>,
    finished_games: Vec<FinshedGameDBEntry>,
    analysis_queue: Vec<AnalysisQueueEntry>,
    config_flags: Vec<ConfigFlag>,
}

impl View for StoreModel {
    type V = StoreV;

    closed spec fn view(&self) -> StoreV {
        StoreV {
            lobbies: self.lobbies@.map_values(|r: LobbyDBEntry| r@),
            finished_games: self.finished_games@.map_values(|r: FinshedGameDBEntry| r@),
            analysis_queue: self.analysis_queue@.map_values(|r: AnalysisQueueEntry| r@),
            config_flags: self.config_flags@.map_values(|r: ConfigFlag| r@),
        }
    }
}

impl LobbyDBEntry {
    /// A copy of this row, field by field.
    pub fn duplicate(&self) -> (r: Self)
        ensures
            r@ == self@,
    {
        let r = LobbyDBEntry {
            game_id: self.game_id.clone(),
            teams: self.teams,
            max_players: self.max_players,
            game_map: self.game_map.clone(),
            approx_num_players: self.approx_num_players,
            first_seen_unix_sec: self.first_seen_unix_sec,
            last_seen_unix_sec: self.last_seen_unix_sec,
            completed: self.completed,
            lobby_config: self.lobby_config.duplicate(),
            analysis_complete: self.analysis_complete,
        };
        proof {
            assert(r@ =~= self@);
        }
        r
    }

    /// This row without its configuration.
    pub fn to_no_config(&self) -> (r: LobbyDBEntryNoConfig)
        ensures
            r@ == drop_config(self@),
    {
        LobbyDBEntryNoConfig {
            game_id: self.game_id.clone(),
            teams: self.teams,
            max_players: self.max_players,
            game_map: self.game_map.clone(),
            approx_num_players: self.approx_num_players,
            first_seen_unix_sec: self.first_seen_unix_sec,
            last_seen_unix_sec: self.last_seen_unix_sec,
            completed: self.completed,
            analysis_complete: self.analysis_complete,
        }
    }

    /// The configuration this lobby was created with.
    pub fn lobby_config(&self) -> (r: GameConfig)
        ensures
            r@ == self@.lobby_config,
    {
        self.lobby_config.duplicate()
    }
}

impl LobbyDBEntryNoConfig {
    /// A copy of this row, field by field.
    pub fn duplicate(&self) -> (r: Self)
        ensures
            r@ == self@,
    {
        LobbyDBEntryNoConfig {
            game_id: self.game_id.clone(),
            teams: self.teams,
            max_players: self.max_players,
            game_map: self.game_map.clone(),
            approx_num_players: self.approx_num_players,
            first_seen_unix_sec: self.first_seen_unix_sec,
            last_seen_unix_sec: self.last_seen_unix_sec,
            completed: self.completed,
            analysis_complete: self.analysis_complete,
        }
    }
}

impl FinshedGameDBEntry {
    /// A copy of this row, field by field.
    pub fn duplicate(&self) -> (r: Self)
        ensures
            r@ == self@,
    {
        FinshedGameDBEntry {
            game_id: self.game_id.clone(),
            result_json: self.result_json.clone(),
            is_ok: self.is_ok,
            inserted_at_unix_sec: self.inserted_at_unix_sec,
        }
    }
}

impl AnalysisQueueEntry {
    /// A copy of this entry, field by field.
    pub fn duplicate(&self) -> (r: Self)
        ensures
            r@ == self@,
    {
        AnalysisQueueEntry {
            game_id: self.game_id.clone(),
            requesting_user_id: match &self.requesting_user_id {
                None => None,
                Some(u) => Some(u.clone()),
            },
            requested_unix_sec: self.requested_unix_sec,
            started_unix_sec: self.started_unix_sec,
            status: self.status,
        }
    }
}

impl StoreModel {
    /// An empty store.
    pub fn new() -> (r: Self)
        ensures
            r@.lobbies.len() == 0,
            r@.finished_games.len() == 0,
            r@.analysis_queue.len() == 0,
            r@.config_flags.len() == 0,
            r@.wf(),
    {
        let r = StoreModel {
            lobbies: Vec::new(),
            finished_games: Vec::new(),
            analysis_queue: Vec::new(),
            config_flags: Vec::new(),
        };
        proof {
            assert(r@.lobbies =~= Seq::<LobbyRowV>::empty());
            assert(r@.finished_games =~= Seq::<FinishedRowV>::empty());
            assert(r@.analysis_queue =~= Seq::<QueueRowV>::empty());
            assert(r@.config_flags =~= Seq::<FlagV>::empty());
        }
        r
    }

    /// Index of the first lobby row with this id.
    fn find_lobby_index(&self, game_id: &str) -> (r: Option<usize>)
        ensures
            match r {
                Some(i) => i < self@.lobbies.len() && self@.lobbies[i as int].game_id == game_id@
                    && forall|j: int|
                    0 <= j < i ==> (#[trigger] self@.lobbies[j]).game_id != game_id@,
                None => !has_lobby(self@.lobbies, game_id@),
            },
    {
        let n = self.lobbies.len();
        let mut i: usize = 0;
        while i < n
            invariant
                n == self.lobbies@.len(),
                i <= n,
                self@.lobbies == self.lobbies@.map_values(|r: LobbyDBEntry| r@),
                forall|j: int| 0 <= j < i ==> (#[trigger] self@.lobbies[j]).game_id != game_id@,
            decreases n - i,
        {
            if crate::teams::str_eq(self.lobbies[i].game_id.as_str(), game_id) {
                return Some(i);
            }
            i = i + 1;
        }
        None
    }

    /// Index of the first finished-game row with this id.
    fn find_finished_index(&self, game_id: &str) -> (r: Option<usize>)
        ensures
            match r {
                Some(i) => i < self@.finished_games.len() && self@.finished_games[i as int].game_id
                    == game_id@,
                None => !has_finished(self@.finished_games, game_id@),
            },
    {
        let n = self.finished_games.len();
        let mut i: usize = 0;
        while i < n
            invariant
                n == self.finished_games@.len(),
                i <= n,
                self@.finished_games == self.finished_games@.map_values(
                    |r: FinshedGameDBEntry| r@,
                ),
                forall|j: int|
                    0 <= j < i ==> (#[trigger] self@.finished_games[j]).game_id != game_id@,
            decreases n - i,
        {
            if crate::teams::str_eq(self.finished_games[i].game_id.as_str(), game_id) {
                return Some(i);
            }
            i = i + 1;
        }
        None
    }

    /// Index of the first queue entry with this id.
    fn find_queue_index(&self, game_id: &str) -> (r: Option<usize>)
        ensures
            match r {
                Some(i) => i < self@.analysis_queue.len() && self@.analysis_queue[i as int].game_id
                    == game_id@ && forall|j: int|
                    0 <= j < i ==> (#[trigger] self@.analysis_queue[j]).game_id != game_id@,
                None => !has_queue_entry(self@.analysis_queue, game_id@),
            },
    {
        let n = self.analysis_queue.len();
        let mut i: usize = 0;
        while i < n
            invariant
                n == self.analysis_queue@.len(),
                i <= n,
                self@.analysis_queue == self.analysis_queue@.map_values(
                    |r: AnalysisQueueEntry| r@,
                ),
                forall|j: int|
                    0 <= j < i ==> (#[trigger] self@.analysis_queue[j]).game_id != game_id@,
            decreases n - i,
        {
            if crate::teams::str_eq(self.analysis_queue[i].game_id.as_str(), game_id) {
                return Some(i);
            }
            i = i + 1;
        }
        None
    }

    /// The lobby row with this id, if any.
    pub fn lobby(&self, game_id: &str) -> (r: Option<LobbyDBEntry>)
        requires
            self@.wf(),
        ensures
            match r {
                Some(l) => lobby_lookup(self@.lobbies, game_id@) == Some(l@),
                None => lobby_lookup(self@.lobbies, game_id@) is None,
            },
    {
        match self.find_lobby_index(game_id) {
            None => {
                proof {
                    lemma_lobby_lookup_absent(self@.lobbies, game_id@);
                }
                None
            },
            Some(i) => {
                proof {
                    lemma_lobby_lookup_found(self@.lobbies, game_id@, i as int);
                }
                Some(self.lobbies[i].duplicate())
            },
        }
    }

    /// The archived result row for this game, if any.
    pub fn finished_game(&self, game_id: &str) -> (r: Option<FinshedGameDBEntry>)
        requires
            self@.wf(),
        ensures
            match r {
                Some(f) => finished_lookup(self@.finished_games, game_id@) == Some(f@),
                None => finished_lookup(self@.finished_games, game_id@) is None,
            },
            r is Some <==> has_finished(self@.finished_games, game_id@),
    {
        proof {
            lemma_finished_lookup_iff(self@.finished_games, game_id@);
        }
        match self.find_finished_index(game_id) {
            None => None,
            Some(i) => {
                proof {
                    lemma_finished_lookup_found(self@.finished_games, game_id@, i as int);
                }
                Some(self.finished_games[i].duplicate())
            },
        }
    }

    /// The analysis-queue entry for this game, if any.
    pub fn analysis_entry(&self, game_id: &str) -> (r: Option<AnalysisQueueEntry>)
        requires
            self@.wf(),
        ensures
            match r {
                Some(e) => queue_lookup(self@.analysis_queue, game_id@) == Some(e@),
                None => queue_lookup(self@.analysis_queue, game_id@) is None,
            },
    {
        match self.find_queue_index(game_id) {
            None => {
                proof {
                    lemma_queue_lookup_absent(self@.analysis_queue, game_id@);
                }
                None
            },
            Some(i) => {
                proof {
                    lemma_queue_lookup_found(self@.analysis_queue, game_id@, i as int);
                }
                Some(self.analysis_queue[i].duplicate())
            },
        }
    }

    /// Atomically archive a classified game: mark its lobby completed and
    /// insert the finished-game row, skipping the insert when a row already
    /// exists — a concurrent finalizer having won the race is a success
    /// condition, not a failure.
    ///
    /// A `NotFound` classification persists nothing.
    pub fn save_finished_game(&mut self, status: GameStatus, game_id: &str, now: i64)
        requires
            old(self)@.wf(),
        ensures
            final(self)@.wf(),
            final(self)@ == finalize_spec(old(self)@, status@, game_id@, now),
    {
        let (raw, is_ok): (String, bool) = match status {
            GameStatus::Finished(p) => (p.raw_json, true),
            GameStatus::Error(p) => (p.raw_json, false),
            GameStatus::NotFound => {
                return ;
            },
        };
        let ghost prev = self@;

        // Mark the parent lobby completed.
        match self.find_lobby_index(game_id) {
            None => {
                proof {
                    assert(mark_completed_spec(prev.lobbies, game_id@) =~= prev.lobbies);
                }
            },
            Some(i) => {
                let mut row = self.lobbies.remove(i);
                row.completed = true;
                self.lobbies.insert(i, row);
                proof {
                    let updated = self.lobbies@.map_values(|r: LobbyDBEntry| r@);
                    assert forall|k: int|
                        0 <= k < updated.len() implies updated[k] == mark_completed_spec(
                        prev.lobbies,
                        game_id@,
                    )[k] by {
                        if k != i {
                            assert(prev.lobbies[k].game_id != game_id@);
                        }
                    }
                    assert(updated =~= mark_completed_spec(prev.lobbies, game_id@));
                }
            },
        }
        let ghost mid = self@;

        // Insert the archived row unless one exists.
        match self.find_finished_index(game_id) {
            Some(_) => {},
            None => {
                self.finished_games.push(
                    FinshedGameDBEntry {
                        game_id: game_id.to_owned(),
                        result_json: raw,
                        is_ok,
                        inserted_at_unix_sec: now,
                    },
                );
                proof {
                    assert(self@.finished_games =~= mid.finished_games.push(
                        FinishedRowV {
                            game_id: game_id@,
                            result_json: raw@,
                            is_ok,
                            inserted_at_unix_sec: now,
                        },
                    ));
                }
            },
        }

        proof {
            assert(self@ =~~= finalize_spec(prev, status@, game_id@, now));
            lemma_mark_completed_wf(prev, game_id@);
            assert(self@.wf());
        }
    }
}

/// How long a `Running` analysis may sit untouched before the staleness
/// sweep calls it stalled, in seconds.
pub const STALE_AFTER_SECS: i64 = 1800;

/// The key of the flag that turns automatic analysis of swept games on.
pub open spec fn auto_analyze_key() -> Seq<char> {
    "auto_analyze_games"@
}

/// The team mode recorded for a lobby; free-for-all when the config carries
/// none.
pub open spec fn teams_of_config(c: GameConfigV) -> PlayerTeams {
    match player_teams_spec(c) {
        Some(t) => t,
        None => PlayerTeams::Ffa,
    }
}

/// The row a first observation of a lobby creates.
pub open spec fn new_lobby_row(lobby: LobbyV, now: i64) -> LobbyRowV {
    LobbyRowV {
        game_id: lobby.game_id,
        teams: teams_of_config(lobby.game_config),
        max_players: lobby.game_config.max_players,
        game_map: lobby.game_config.game_map,
        approx_num_players: lobby.num_clients,
        first_seen_unix_sec: now,
        last_seen_unix_sec: now,
        completed: false,
        lobby_config: lobby.game_config,
        analysis_complete: false,
    }
}

/// Upserting a lobby observation: a first sight inserts a fresh row; a
/// repeat observation refreshes only the player count and the last-seen
/// time, everything else stays as created.
pub open spec fn upsert_lobby_spec(s: StoreV, lobby: LobbyV, now: i64) -> StoreV {
    if has_lobby(s.lobbies, lobby.game_id) {
        StoreV {
            lobbies: s.lobbies.map_values(
                |r: LobbyRowV|
                    if r.game_id == lobby.game_id {
                        LobbyRowV {
                            approx_num_players: lobby.num_clients,
                            last_seen_unix_sec: now,
                            ..r
                        }
                    } else {
                        r
                    },
            ),
            ..s
        }
    } else {
        StoreV { lobbies: s.lobbies.push(new_lobby_row(lobby, now)), ..s }
    }
}

/// Forcing a lobby's player count to its capacity: the rollover repair.
pub open spec fn mark_full_spec(s: StoreV, id: Seq<char>) -> StoreV {
    StoreV {
        lobbies: s.lobbies.map_values(
            |r: LobbyRowV|
                if r.game_id == id {
                    LobbyRowV { approx_num_players: r.max_players, ..r }
                } else {
                    r
                },
        ),
        ..s
    }
}

/// Creating an analysis request: a live entry for the game means nothing to
/// do; a cancelled one is revived as a fresh `Pending` request; otherwise a
/// new `Pending` entry appears.
pub open spec fn enqueue_spec(s: StoreV, id: Seq<char>, requester: Option<Seq<char>>, now: i64) -> StoreV {
    if has_active_queue_entry(s.analysis_queue, id) {
        s
    } else if has_queue_entry(s.analysis_queue, id) {
        StoreV {
            analysis_queue: s.analysis_queue.map_values(
                |e: QueueRowV|
                    if e.game_id == id {
                        QueueRowV {
                            game_id: e.game_id,
                            requesting_user_id: requester,
                            requested_unix_sec: now,
                            started_unix_sec: None,
                            status: AnalysisQueueStatus::Pending,
                        }
                    } else {
                        e
                    },
            ),
            ..s
        }
    } else {
        StoreV {
            analysis_queue: s.analysis_queue.push(
                QueueRowV {
                    game_id: id,
                    requesting_user_id: requester,
                    requested_unix_sec: now,
                    started_unix_sec: None,
                    status: AnalysisQueueStatus::Pending,
                },
            ),
            ..s
        }
    }
}

/// Setting the status of a game's queue entry; entering `Running` stamps
/// the start time.
pub open spec fn set_status_spec(s: StoreV, id: Seq<char>, status: AnalysisQueueStatus, now: i64) -> StoreV {
    StoreV {
        analysis_queue: s.analysis_queue.map_values(
            |e: QueueRowV|
                if e.game_id == id {
                    QueueRowV {
                        status,
                        started_unix_sec: if status is Running {
                            Some(now)
                        } else {
                            e.started_unix_sec
                        },
                        ..e
                    }
                } else {
                    e
                },
        ),
        ..s
    }
}

/// Cancelling a request: only the requester's own entry, and only before it
/// completed.
pub open spec fn cancel_spec(s: StoreV, id: Seq<char>, requester: Option<Seq<char>>) -> StoreV {
    StoreV {
        analysis_queue: s.analysis_queue.map_values(
            |e: QueueRowV|
                if e.game_id == id && e.requesting_user_id == requester && (e.status is Pending
                    || e.status is Running) {
                    QueueRowV { status: AnalysisQueueStatus::Cancelled, ..e }
                } else {
                    e
                },
        ),
        ..s
    }
}

/// Whether the staleness sweep at time `now` reclassifies this entry.
pub open spec fn is_stale_running(e: QueueRowV, now: i64) -> bool {
    e.status is Running && match e.started_unix_sec {
        Some(t) => t < now - STALE_AFTER_SECS,
        None => false,
    }
}

/// One entry after the staleness sweep looked at it.
pub open spec fn stale_step(e: QueueRowV, now: i64) -> QueueRowV {
    if is_stale_running(e, now) {
        QueueRowV { status: AnalysisQueueStatus::Stalled, ..e }
    } else {
        e
    }
}

/// The staleness sweep: every `Running` entry whose start lies more than
/// the threshold in the past becomes `Stalled`.
pub open spec fn mark_stale_spec(s: StoreV, now: i64) -> StoreV {
    StoreV { analysis_queue: s.analysis_queue.map_values(|e: QueueRowV| stale_step(e, now)), ..s }
}

/// Writing a configuration flag: an existing key is overwritten, a new one
/// appended.
pub open spec fn set_flag_spec(s: StoreV, key: Seq<char>, value: Seq<char>) -> StoreV {
    if exists|i: int| 0 <= i < s.config_flags.len() && (#[trigger] s.config_flags[i]).key == key {
        StoreV {
            config_flags: s.config_flags.map_values(
                |f: FlagV|
                    if f.key == key {
                        FlagV { key: f.key, value }
                    } else {
                        f
                    },
            ),
            ..s
        }
    } else {
        StoreV { config_flags: s.config_flags.push(FlagV { key, value }), ..s }
    }
}

/// Whether this lobby row is a sweep candidate at time `now`: not yet
/// completed and quiet for longer than the threshold.
pub open spec fn is_quiet_incomplete(l: LobbyRowV, now: i64, quiet_secs: i64) -> bool {
    !l.completed && l.last_seen_unix_sec < now - quiet_secs
}

/// The ids of all sweep candidates, in store order.
pub open spec fn quiet_ids(lobbies: Seq<LobbyRowV>, now: i64, quiet_secs: i64) -> Seq<Seq<char>> {
    lobbies.filter(|l: LobbyRowV| is_quiet_incomplete(l, now, quiet_secs)).map_values(
        |l: LobbyRowV| l.game_id,
    )
}

/// Whether this queue entry is one the drainer may pick up: still pending,
/// and its game not archived yet.
pub open spec fn is_drain_candidate(s: StoreV, e: QueueRowV) -> bool {
    e.status is Pending && !has_finished(s.finished_games, e.game_id)
}

/// Option of a borrowed string, viewed.
pub open spec fn opt_str_view(o: Option<&str>) -> Option<Seq<char>> {
    match o {
        None => None,
        Some(s) => Some(s@),
    }
}

/// Whether a configuration value switches automatic analysis on: only the
/// literal "true" does.
pub fn flag_enables_auto_analysis(value: Option<&str>) -> (r: bool)
    ensures
        r == (opt_str_view(value) == Some("true"@)),
{
    match value {
        None => false,
        Some(v) => crate::teams::str_eq(v, "true"),
    }
}

impl StoreModel {
    /// Record one observation of an open lobby: insert on first sight, else
    /// refresh the player count and last-seen time.
    ///
    /// Observations arrive in clock order, so `now` is never behind the
    /// row's last-seen time.
    pub fn upsert_lobby(&mut self, lobby: &Lobby, now: i64)
        requires
            old(self)@.wf(),
            valid_teams(lobby@.game_config),
        ensures
            final(self)@.wf(),
            final(self)@ == upsert_lobby_spec(old(self)@, lobby@, now),
    {
        let ghost prev = self@;
        match self.find_lobby_index(lobby.game_id.as_str()) {
            Some(i) => {
                let mut row = self.lobbies.remove(i);
                row.approx_num_players = lobby.num_clients;
                row.last_seen_unix_sec = now;
                self.lobbies.insert(i, row);
                proof {
                    let updated = self.lobbies@.map_values(|r: LobbyDBEntry| r@);
                    let target = upsert_lobby_spec(prev, lobby@, now);
                    assert forall|k: int|
                        0 <= k < updated.len() implies updated[k] == target.lobbies[k] by {
                        if k != i {
                            assert(prev.lobbies[k].game_id != lobby@.game_id);
                        }
                    }
                    assert(updated =~= target.lobbies);
                    assert(self@ =~~= target);
                }
            },
            None => {
                let teams = lobby.game_config.player_teams();
                let row = LobbyDBEntry {
                    game_id: lobby.game_id.clone(),
                    teams,
                    max_players: lobby.game_config.max_players,
                    game_map: lobby.game_config.game_map.clone(),
                    approx_num_players: lobby.num_clients,
                    first_seen_unix_sec: now,
                    last_seen_unix_sec: now,
                    completed: false,
                    lobby_config: lobby.game_config.duplicate(),
                    analysis_complete: false,
                };
                self.lobbies.push(row);
                proof {
                    assert(self@.lobbies =~= prev.lobbies.push(new_lobby_row(lobby@, now)));
                    assert(self@ =~~= upsert_lobby_spec(prev, lobby@, now));
                    assert forall|i: int, j: int|
                        0 <= i < j < self@.lobbies.len() implies (
                        #[trigger] self@.lobbies[i]).game_id != (
                        #[trigger] self@.lobbies[j]).game_id by {
                        if j == self@.lobbies.len() - 1 {
                            assert(!has_lobby(prev.lobbies, lobby@.game_id));
                            assert(prev.lobbies[i].game_id != lobby@.game_id);
                        }
                    }
                }
            },
        }
    }

    /// The rollover repair: a lobby that vanished before it was expected to
    /// is assumed to have filled, so its player count becomes its capacity.
    pub fn mark_lobby_full(&mut self, game_id: &str)
        requires
            old(self)@.wf(),
        ensures
            final(self)@.wf(),
            final(self)@ == mark_full_spec(old(self)@, game_id@),
    {
        let ghost prev = self@;
        match self.find_lobby_index(game_id) {
            None => {
                proof {
                    assert(mark_full_spec(prev, game_id@).lobbies =~= prev.lobbies);
                    assert(self@ =~~= mark_full_spec(prev, game_id@));
                }
            },
            Some(i) => {
                let mut row = self.lobbies.remove(i);
                row.approx_num_players = row.max_players;
                self.lobbies.insert(i, row);
                proof {
                    let updated = self.lobbies@.map_values(|r: LobbyDBEntry| r@);
                    let target = mark_full_spec(prev, game_id@);
                    assert forall|k: int|
                        0 <= k < updated.len() implies updated[k] == target.lobbies[k] by {
                        if k != i {
                            assert(prev.lobbies[k].game_id != game_id@);
                        }
                    }
                    assert(updated =~= target.lobbies);
                    assert(self@ =~~= target);
                }
            },
        }
    }

    /// Create a `Pending` analysis request for a game unless a live one
    /// already exists; a cancelled one is revived.
    pub fn create_analysis_entry_if_absent(&mut self, game_id: &str, requesting_user_id: Option<&str>, now: i64)
        requires
            old(self)@.wf(),
        ensures
            final(self)@.wf(),
            final(self)@ == enqueue_spec(
                old(self)@,
                game_id@,
                opt_str_view(requesting_user_id),
                now,
            ),
    {
        let ghost prev = self@;
        let ghost requester = opt_str_view(requesting_user_id);
        match self.find_queue_index(game_id) {
            Some(i) => {
                let is_cancelled = self.analysis_queue[i].status == AnalysisQueueStatus::Cancelled;
                proof {
                    // Under well-formedness the entry at `i` is the only one
                    // with this id, so it decides whether a live entry
                    // exists.
                    assert forall|j: int|
                        0 <= j < prev.analysis_queue.len() && (
                        #[trigger] prev.analysis_queue[j]).game_id == game_id@ implies j == i by {}
                }
                if is_cancelled {
                    let _ = self.analysis_queue.remove(i);
                    let entry = AnalysisQueueEntry {
                        game_id: game_id.to_owned(),
                        requesting_user_id: match requesting_user_id {
                            None => None,
                            Some(u) => Some(u.to_owned()),
                        },
                        requested_unix_sec: now,
                        started_unix_sec: None,
                        status: AnalysisQueueStatus::Pending,
                    };
                    self.analysis_queue.insert(i, entry);
                    proof {
                        let updated = self.analysis_queue@.map_values(|r: AnalysisQueueEntry| r@);
                        let target = enqueue_spec(prev, game_id@, requester, now);
                        assert(!has_active_queue_entry(prev.analysis_queue, game_id@));
                        assert forall|k: int|
                            0 <= k < updated.len() implies updated[k] == target.analysis_queue[k] by {
                            if k != i {
                                assert(prev.analysis_queue[k].game_id != game_id@);
                            }
                        }
                        assert(updated =~= target.analysis_queue);
                        assert(self@ =~~= target);
                    }
                } else {
                    proof {
                        assert(has_active_queue_entry(prev.analysis_queue, game_id@));
                    }
                }
            },
            None => {
                let entry = AnalysisQueueEntry {
                    game_id: game_id.to_owned(),
                    requesting_user_id: match requesting_user_id {
                        None => None,
                        Some(u) => Some(u.to_owned()),
                    },
                    requested_unix_sec: now,
                    started_unix_sec: None,
                    status: AnalysisQueueStatus::Pending,
                };
                self.analysis_queue.push(entry);
                proof {
                    let pushed = QueueRowV {
                        game_id: game_id@,
                        requesting_user_id: requester,
                        requested_unix_sec: now,
                        started_unix_sec: None,
                        status: AnalysisQueueStatus::Pending,
                    };
                    assert(self@.analysis_queue =~= prev.analysis_queue.push(pushed));
                    assert(self@ =~~= enqueue_spec(prev, game_id@, requester, now));
                    assert forall|i: int, j: int|
                        0 <= i < j < self@.analysis_queue.len() implies (
                        #[trigger] self@.analysis_queue[i]).game_id != (
                        #[trigger] self@.analysis_queue[j]).game_id by {
                        if j == self@.analysis_queue.len() - 1 {
                            assert(prev.analysis_queue[i].game_id != game_id@);
                        }
                    }
                }
            },
        }
    }

    /// Set the status of a game's queue entry; entering `Running` stamps
    /// the start time.
    pub fn set_analysis_status(&mut self, game_id: &str, status: AnalysisQueueStatus, now: i64)
        requires
            old(self)@.wf(),
        ensures
            final(self)@.wf(),
            final(self)@ == set_status_spec(old(self)@, game_id@, status, now),
    {
        let ghost prev = self@;
        match self.find_queue_index(game_id) {
            None => {
                proof {
                    assert(set_status_spec(prev, game_id@, status, now).analysis_queue
                        =~= prev.analysis_queue);
                    assert(self@ =~~= set_status_spec(prev, game_id@, status, now));
                }
            },
            Some(i) => {
                let mut entry = self.analysis_queue.remove(i);
                entry.status = status;
                if status == AnalysisQueueStatus::Running {
                    entry.started_unix_sec = Some(now);
                }
                self.analysis_queue.insert(i, entry);
                proof {
                    let updated = self.analysis_queue@.map_values(|r: AnalysisQueueEntry| r@);
                    let target = set_status_spec(prev, game_id@, status, now);
                    assert forall|k: int|
                        0 <= k < updated.len() implies updated[k] == target.analysis_queue[k] by {
                        if k != i {
                            assert(prev.analysis_queue[k].game_id != game_id@);
                        }
                    }
                    assert(updated =~= target.analysis_queue);
                    assert(self@ =~~= target);
                }
            },
        }
    }

    /// Cancel a user's analysis request, if it has not completed.
    pub fn cancel_analysis(&mut self, game_id: &str, requesting_user_id: Option<&str>)
        requires
            old(self)@.wf(),
        ensures
            final(self)@.wf(),
            final(self)@ == cancel_spec(old(self)@, game_id@, opt_str_view(requesting_user_id)),
    {
        let ghost prev = self@;
        let ghost requester = opt_str_view(requesting_user_id);
        match self.find_queue_index(game_id) {
            None => {
                proof {
                    assert(cancel_spec(prev, game_id@, requester).analysis_queue
                        =~= prev.analysis_queue);
                    assert(self@ =~~= cancel_spec(prev, game_id@, requester));
                }
            },
            Some(i) => {
                let requester_matches = match (
                    &self.analysis_queue[i].requesting_user_id,
                    requesting_user_id,
                ) {
                    (None, None) => true,
                    (Some(a), Some(b)) => crate::teams::str_eq(a.as_str(), b),
                    _ => false,
                };
                let cancellable = self.analysis_queue[i].status == AnalysisQueueStatus::Pending
                    || self.analysis_queue[i].status == AnalysisQueueStatus::Running;
                if requester_matches && cancellable {
                    let mut entry = self.analysis_queue.remove(i);
                    entry.status = AnalysisQueueStatus::Cancelled;
                    self.analysis_queue.insert(i, entry);
                }
                proof {
                    let updated = self.analysis_queue@.map_values(|r: AnalysisQueueEntry| r@);
                    let target = cancel_spec(prev, game_id@, requester);
                    assert forall|k: int|
                        0 <= k < updated.len() implies updated[k] == target.analysis_queue[k] by {
                        if k != i {
                            assert(prev.analysis_queue[k].game_id != game_id@);
                        }
                    }
                    assert(updated =~= target.analysis_queue);
                    assert(self@ =~~= target);
                }
            },
        }
    }

    /// The staleness sweep: reclassify every `Running` entry that started
    /// more than the threshold ago as `Stalled`.
    pub fn mark_stale_running(&mut self, now: i64)
        requires
            old(self)@.wf(),
        ensures
            final(self)@.wf(),
            final(self)@ == mark_stale_spec(old(self)@, now),
    {
        let ghost prev = self@;
        let n = self.analysis_queue.len();
        let mut i: usize = 0;
        while i < n
            invariant
                i <= n,
                n == self.analysis_queue@.len(),
                prev.analysis_queue.len() == n,
                prev.wf(),
                self@.analysis_queue == self.analysis_queue@.map_values(
                    |r: AnalysisQueueEntry| r@,
                ),
                self@.lobbies == prev.lobbies,
                self@.finished_games == prev.finished_games,
                self@.config_flags == prev.config_flags,
                forall|k: int|
                    0 <= k < i ==> self@.analysis_queue[k] == stale_step(
                        #[trigger] prev.analysis_queue[k],
                        now,
                    ),
                forall|k: int|
                    i <= k < n ==> self@.analysis_queue[k] == #[trigger] prev.analysis_queue[k],
            decreases n - i,
        {
            let ghost cur = self@.analysis_queue;
            let is_running = self.analysis_queue[i].status == AnalysisQueueStatus::Running;
            let started_long_ago = match self.analysis_queue[i].started_unix_sec {
                Some(t) => (t as i128) < (now as i128) - (STALE_AFTER_SECS as i128),
                None => false,
            };
            let ghost cur_rows = self.analysis_queue@;
            if is_running && started_long_ago {
                let mut entry = self.analysis_queue.remove(i);
                entry.status = AnalysisQueueStatus::Stalled;
                self.analysis_queue.insert(i, entry);
                proof {
                    assert(self.analysis_queue@ =~= cur_rows.update(i as int, entry));
                    assert(is_stale_running(prev.analysis_queue[i as int], now));
                    assert(entry@ =~= stale_step(prev.analysis_queue[i as int], now));
                    let updated = self.analysis_queue@.map_values(|r: AnalysisQueueEntry| r@);
                    assert forall|k: int| 0 <= k < n implies updated[k] == (if k == i {
                        stale_step(prev.analysis_queue[i as int], now)
                    } else {
                        cur[k]
                    }) by {
                        assert(updated[k] == self.analysis_queue@[k]@);
                        if k != i {
                            assert(self.analysis_queue@[k] == cur_rows[k]);
                        }
                    }
                }
            } else {
                proof {
                    assert(!is_stale_running(prev.analysis_queue[i as int], now));
                    assert(stale_step(prev.analysis_queue[i as int], now) == prev.analysis_queue[
                        i as int
                    ]);
                }
            }
            i = i + 1;
        }
        proof {
            let target = mark_stale_spec(prev, now);
            assert(self@.analysis_queue =~= target.analysis_queue);
            assert(self@ =~~= target);
            assert forall|a: int, b: int|
                0 <= a < b < self@.analysis_queue.len() implies (
                #[trigger] self@.analysis_queue[a]).game_id != (
                #[trigger] self@.analysis_queue[b]).game_id by {
                assert(self@.analysis_queue[a] == stale_step(prev.analysis_queue[a], now));
                assert(self@.analysis_queue[b] == stale_step(prev.analysis_queue[b], now));
            }
        }
    }

    /// Write a configuration flag.
    pub fn set_config_flag(&mut self, key: &str, value: &str)
        requires
            old(self)@.wf(),
        ensures
            final(self)@.wf(),
            final(self)@ == set_flag_spec(old(self)@, key@, value@),
    {
        let ghost prev = self@;
        let n = self.config_flags.len();
        let mut i: usize = 0;
        while i < n
            invariant
                i <= n,
                n == self.config_flags@.len(),
                self@ == prev,
                prev == old(self)@,
                prev.wf(),
                forall|j: int| 0 <= j < i ==> (#[trigger] prev.config_flags[j]).key != key@,
            decreases n - i,
        {
            if crate::teams::str_eq(self.config_flags[i].key.as_str(), key) {
                let _ = self.config_flags.remove(i);
                self.config_flags.insert(i, ConfigFlag { key: key.to_owned(), value: value.to_owned() });
                proof {
                    let updated = self.config_flags@.map_values(|r: ConfigFlag| r@);
                    let target = set_flag_spec(prev, key@, value@);
                    assert(prev.config_flags[i as int].key == key@);
                    assert forall|k: int|
                        0 <= k < updated.len() implies updated[k] == target.config_flags[k] by {
                        if k != i {
                            // Well-formedness: no second flag carries this key.
                            assert(prev.config_flags[i as int].key == key@);
                            assert(prev.config_flags[k] == prev.config_flags[k]);
                            assert(prev.config_flags[k].key != key@);
                        }
                    }
                    assert(updated =~= target.config_flags);
                    assert(self@ =~~= target);
                    assert forall|a: int, b: int|
                        0 <= a < b < self@.config_flags.len() implies (
                        #[trigger] self@.config_flags[a]).key != (
                        #[trigger] self@.config_flags[b]).key by {
                        assert(self@.config_flags[a].key == prev.config_flags[a].key);
                        assert(self@.config_flags[b].key == prev.config_flags[b].key);
                    }
                }
                return ;
            }
            i = i + 1;
        }
        self.config_flags.push(ConfigFlag { key: key.to_owned(), value: value.to_owned() });
        proof {
            assert(!(exists|j: int|
                0 <= j < prev.config_flags.len() && (#[trigger] prev.config_flags[j]).key == key@));
            assert(self@.config_flags =~= prev.config_flags.push(FlagV { key: key@, value: value@ }));
            assert(self@ =~~= set_flag_spec(prev, key@, value@));
            assert forall|a: int, b: int|
                0 <= a < b < self@.config_flags.len() implies (
                #[trigger] self@.config_flags[a]).key != (#[trigger] self@.config_flags[b]).key by {
                if b == self@.config_flags.len() - 1 {
                    assert(prev.config_flags[a].key != key@);
                }
            }
        }
    }

    /// The value of a configuration flag, if set.
    pub fn read_config_flag(&self, key: &str) -> (r: Option<String>)
        ensures
            match r {
                None => flag_value(self@.config_flags, key@) is None,
                Some(v) => flag_value(self@.config_flags, key@) == Some(v@),
            },
    {
        let n = self.config_flags.len();
        let mut i: usize = 0;
        while i < n
            invariant
                i <= n,
                n == self.config_flags@.len(),
                self@.config_flags == self.config_flags@.map_values(|r: ConfigFlag| r@),
                forall|j: int| 0 <= j < i ==> (#[trigger] self@.config_flags[j]).key != key@,
            decreases n - i,
        {
            if crate::teams::str_eq(self.config_flags[i].key.as_str(), key) {
                proof {
                    lemma_flag_value_found(self@.config_flags, key@, i as int);
                }
                return Some(self.config_flags[i].value.clone());
            }
            i = i + 1;
        }
        proof {
            lemma_flag_value_absent(self@.config_flags, key@);
        }
        None
    }

    /// Whether swept games are automatically queued for analysis.
    pub fn auto_analyze_enabled(&self) -> (r: bool)
        ensures
            r == (flag_value(self@.config_flags, auto_analyze_key()) == Some("true"@)),
    {
        match self.read_config_flag("auto_analyze_games") {
            None => flag_enables_auto_analysis(None),
            Some(v) => flag_enables_auto_analysis(Some(v.as_str())),
        }
    }

    /// The ids of lobbies that are not completed and have been quiet for
    /// longer than `quiet_secs` before `now`, in store order.
    pub fn find_quiet_incomplete_lobbies(&self, now: i64, quiet_secs: i64) -> (r: Vec<String>)
        ensures
            r.deep_view() == quiet_ids(self@.lobbies, now, quiet_secs),
    {
        let mut out: Vec<String> = Vec::new();
        let n = self.lobbies.len();
        let mut i: usize = 0;
        proof {
            assert(self@.lobbies.take(0) =~= Seq::<LobbyRowV>::empty());
            assert(out.deep_view() =~= quiet_ids(self@.lobbies.take(0), now, quiet_secs));
        }
        while i < n
            invariant
                i <= n,
                n == self.lobbies@.len(),
                self@.lobbies == self.lobbies@.map_values(|r: LobbyDBEntry| r@),
                out.deep_view() == quiet_ids(self@.lobbies.take(i as int), now, quiet_secs),
            decreases n - i,
        {
            let ghost before = out.deep_view();
            let row = &self.lobbies[i];
            if !row.completed && (row.last_seen_unix_sec as i128) < (now as i128) - (
            quiet_secs as i128) {
                out.push(row.game_id.clone());
            }
            proof {
                lemma_quiet_ids_push(
                    self@.lobbies.take(i as int),
                    self@.lobbies[i as int],
                    now,
                    quiet_secs,
                );
                assert(self@.lobbies.take(i + 1) =~= self@.lobbies.take(i as int).push(
                    self@.lobbies[i as int],
                ));
                if is_quiet_incomplete(self@.lobbies[i as int], now, quiet_secs) {
                    assert(out.deep_view() =~= before.push(self@.lobbies[i as int].game_id));
                }
            }
            i = i + 1;
        }
        proof {
            assert(self@.lobbies.take(n as int) =~= self@.lobbies);
        }
        out
    }

    /// The oldest pending analysis request whose game has no archived
    /// result yet — the next piece of work for the queue drainer. Entries
    /// for already-archived games are never selected.
    pub fn find_next_pending_analysis_without_result(&self) -> (r: Option<AnalysisQueueEntry>)
        requires
            self@.wf(),
        ensures
            match r {
                None => forall|i: int|
                    0 <= i < self@.analysis_queue.len() ==> !is_drain_candidate(
                        self@,
                        #[trigger] self@.analysis_queue[i],
                    ),
                Some(e) => {
                    &&& exists|i: int|
                        0 <= i < self@.analysis_queue.len() && #[trigger] self@.analysis_queue[i]
                            == e@
                    &&& is_drain_candidate(self@, e@)
                    &&& forall|j: int|
                        0 <= j < self@.analysis_queue.len() && is_drain_candidate(
                            self@,
                            #[trigger] self@.analysis_queue[j],
                        ) ==> e@.requested_unix_sec <= self@.analysis_queue[j].requested_unix_sec
                },
            },
    {
        let n = self.analysis_queue.len();
        let mut best: Option<usize> = None;
        let mut i: usize = 0;
        while i < n
            invariant
                i <= n,
                n == self.analysis_queue@.len(),
                self@.analysis_queue == self.analysis_queue@.map_values(
                    |r: AnalysisQueueEntry| r@,
                ),
                match best {
                    None => forall|j: int|
                        0 <= j < i ==> !is_drain_candidate(self@, #[trigger] self@.analysis_queue[j]),
                    Some(b) => b < i && is_drain_candidate(self@, self@.analysis_queue[b as int])
                        && forall|j: int|
                        0 <= j < i && is_drain_candidate(self@, #[trigger] self@.analysis_queue[j])
                            ==> self@.analysis_queue[b as int].requested_unix_sec
                            <= self@.analysis_queue[j].requested_unix_sec,
                },
            decreases n - i,
        {
            let pending = self.analysis_queue[i].status == AnalysisQueueStatus::Pending;
            if pending {
                let archived = self.find_finished_index(
                    self.analysis_queue[i].game_id.as_str(),
                ).is_some();
                if !archived {
                    best = match best {
                        None => Some(i),
                        Some(b) => {
                            if self.analysis_queue[i].requested_unix_sec
                                < self.analysis_queue[b].requested_unix_sec {
                                Some(i)
                            } else {
                                Some(b)
                            }
                        },
                    };
                }
            }
            i = i + 1;
        }
        match best {
            None => None,
            Some(b) => Some(self.analysis_queue[b].duplicate()),
        }
    }
}

proof fn lemma_flag_value_found(flags: Seq<FlagV>, key: Seq<char>, i: int)
    requires
        0 <= i < flags.len(),
        flags[i].key == key,
        forall|j: int| 0 <= j < i ==> (#[trigger] flags[j]).key != key,
    ensures
        flag_value(flags, key) == Some(flags[i].value),
    decreases i,
{
    if i > 0 {
        assert(flags[0].key != key);
        assert forall|j: int| 0 <= j < i - 1 implies (#[trigger] flags.drop_first()[j]).key
            != key by {
            assert(flags.drop_first()[j] == flags[j + 1]);
        }
        assert(flags.drop_first()[i - 1] == flags[i]);
        lemma_flag_value_found(flags.drop_first(), key, i - 1);
    }
}

proof fn lemma_flag_value_absent(flags: Seq<FlagV>, key: Seq<char>)
    requires
        forall|j: int| 0 <= j < flags.len() ==> (#[trigger] flags[j]).key != key,
    ensures
        flag_value(flags, key) is None,
    decreases flags.len(),
{
    if flags.len() > 0 {
        assert forall|j: int| 0 <= j < flags.drop_first().len() implies (
        #[trigger] flags.drop_first()[j]).key != key by {
            assert(flags.drop_first()[j] == flags[j + 1]);
        }
        lemma_flag_value_absent(flags.drop_first(), key);
    }
}

/// Appending one row extends the sweep-candidate listing by that row's id
/// exactly when the row qualifies.
proof fn lemma_quiet_ids_push(s: Seq<LobbyRowV>, x: LobbyRowV, now: i64, quiet_secs: i64)
    ensures
        quiet_ids(s.push(x), now, quiet_secs) == if is_quiet_incomplete(x, now, quiet_secs) {
            quiet_ids(s, now, quiet_secs).push(x.game_id)
        } else {
            quiet_ids(s, now, quiet_secs)
        },
{
    let pred = |l: LobbyRowV| is_quiet_incomplete(l, now, quiet_secs);
    let pushed = s.push(x);
    assert(pushed.drop_last() =~= s);
    assert(pushed.last() == x);
    reveal_with_fuel(Seq::filter, 2);
    if pred(x) {
        assert(pushed.filter(pred) == s.filter(pred).push(x));
        assert(pushed.filter(pred).map_values(|l: LobbyRowV| l.game_id) =~= s.filter(
            pred,
        ).map_values(|l: LobbyRowV| l.game_id).push(x.game_id));
    } else {
        assert(pushed.filter(pred) == s.filter(pred));
    }
}

proof fn lemma_mark_completed_wf(s: StoreV, id: Seq<char>)
    requires
        s.wf(),
    ensures
        forall|i: int|
            0 <= i < s.lobbies.len() ==> (#[trigger] mark_completed_spec(s.lobbies, id)[i]).game_id
                == s.lobbies[i].game_id,
{
    let marked = mark_completed_spec(s.lobbies, id);
    assert forall|i: int| 0 <= i < s.lobbies.len() implies (#[trigger] marked[i]).game_id
        == s.lobbies[i].game_id by {
        assert(marked[i] == if s.lobbies[i].game_id == id {
            row_completed(s.lobbies[i])
        } else {
            s.lobbies[i]
        });
    }
}

proof fn lemma_lobby_lookup_absent(lobbies: Seq<LobbyRowV>, id: Seq<char>)
    requires
        !has_lobby(lobbies, id),
    ensures
        lobby_lookup(lobbies, id) is None,
    decreases lobbies.len(),
{
    if lobbies.len() > 0 {
        assert(lobbies[0].game_id != id);
        assert forall|i: int|
            0 <= i < lobbies.drop_first().len() implies (#[trigger] lobbies.drop_first()[i]).game_id
            != id by {
            assert(lobbies.drop_first()[i] == lobbies[i + 1]);
        }
        lemma_lobby_lookup_absent(lobbies.drop_first(), id);
    }
}

proof fn lemma_lobby_lookup_found(lobbies: Seq<LobbyRowV>, id: Seq<char>, i: int)
    requires
        0 <= i < lobbies.len(),
        lobbies[i].game_id == id,
        forall|j: int| 0 <= j < i ==> (#[trigger] lobbies[j]).game_id != id,
    ensures
        lobby_lookup(lobbies, id) == Some(lobbies[i]),
    decreases i,
{
    if i > 0 {
        assert(lobbies[0].game_id != id);
        assert forall|j: int| 0 <= j < i - 1 implies (#[trigger] lobbies.drop_first()[j]).game_id
            != id by {
            assert(lobbies.drop_first()[j] == lobbies[j + 1]);
        }
        assert(lobbies.drop_first()[i - 1] == lobbies[i]);
        lemma_lobby_lookup_found(lobbies.drop_first(), id, i - 1);
    }
}

proof fn lemma_finished_lookup_found(finished: Seq<FinishedRowV>, id: Seq<char>, i: int)
    requires
        0 <= i < finished.len(),
        finished[i].game_id == id,
        forall|j: int| 0 <= j < i ==> (#[trigger] finished[j]).game_id != id,
    ensures
        finished_lookup(finished, id) == Some(finished[i]),
    decreases i,
{
    if i > 0 {
        assert(finished[0].game_id != id);
        assert forall|j: int| 0 <= j < i - 1 implies (#[trigger] finished.drop_first()[j]).game_id
            != id by {
            assert(finished.drop_first()[j] == finished[j + 1]);
        }
        assert(finished.drop_first()[i - 1] == finished[i]);
        lemma_finished_lookup_found(finished.drop_first(), id, i - 1);
    }
}

/// A finished row exists exactly when the lookup finds one.
pub proof fn lemma_finished_lookup_iff(finished: Seq<FinishedRowV>, id: Seq<char>)
    ensures
        has_finished(finished, id) <==> finished_lookup(finished, id) is Some,
    decreases finished.len(),
{
    if finished.len() > 0 {
        lemma_finished_lookup_iff(finished.drop_first(), id);
        assert forall|i: int|
            0 <= i < finished.drop_first().len() implies #[trigger] finished.drop_first()[i]
            == finished[i + 1] by {}
        if has_finished(finished, id) && finished[0].game_id != id {
            let w = choose|i: int| 0 <= i < finished.len() && (#[trigger] finished[i]).game_id == id;
            assert(finished.drop_first()[w - 1].game_id == id);
        }
        if has_finished(finished.drop_first(), id) {
            let w = choose|i: int|
                0 <= i < finished.drop_first().len() && (#[trigger] finished.drop_first()[i]).game_id
                    == id;
            assert(finished[w + 1].game_id == id);
        }
    }
}

proof fn lemma_queue_lookup_absent(queue: Seq<QueueRowV>, id: Seq<char>)
    requires
        !has_queue_entry(queue, id),
    ensures
        queue_lookup(queue, id) is None,
    decreases queue.len(),
{
    if queue.len() > 0 {
        assert(queue[0].game_id != id);
        assert forall|i: int|
            0 <= i < queue.drop_first().len() implies (#[trigger] queue.drop_first()[i]).game_id
            != id by {
            assert(queue.drop_first()[i] == queue[i + 1]);
        }
        lemma_queue_lookup_absent(queue.drop_first(), id);
    }
}

proof fn lemma_queue_lookup_found(queue: Seq<QueueRowV>, id: Seq<char>, i: int)
    requires
        0 <= i < queue.len(),
        queue[i].game_id == id,
        forall|j: int| 0 <= j < i ==> (#[trigger] queue[j]).game_id != id,
    ensures
        queue_lookup(queue, id) == Some(queue[i]),
    decreases i,
{
    if i > 0 {
        assert(queue[0].game_id != id);
        assert forall|j: int| 0 <= j < i - 1 implies (#[trigger] queue.drop_first()[j]).game_id
            != id by {
            assert(queue.drop_first()[j] == queue[j + 1]);
        }
        assert(queue.drop_first()[i - 1] == queue[i]);
        lemma_queue_lookup_found(queue.drop_first(), id, i - 1);
    }
}

/// The filters of a lobby listing request; unset fields do not constrain.
#[derive(Debug, Clone)]
pub struct LobbyFilter {
    pub completed: Option<bool>,
    pub has_analysis: Option<bool>,
    pub game_map: Option<String>,
    pub after: Option<i64>,
    pub before: Option<i64>,
}

/// Mathematical image of a [`LobbyFilter`].
#[verifier::ext_equal]
pub struct LobbyFilterV {
    pub completed: Option<bool>,
    pub has_analysis: Option<bool>,
    pub game_map: Option<Seq<char>>,
    pub after: Option<i64>,
    pub before: Option<i64>,
}

impl View for LobbyFilter {
    type V = LobbyFilterV;

    open spec fn view(&self) -> LobbyFilterV {
        LobbyFilterV {
            completed: self.completed,
            has_analysis: self.has_analysis,
            game_map: match &self.game_map {
                None => None,
                Some(m) => Some(m@),
            },
            after: self.after,
            before: self.before,
        }
    }
}

/// Whether a lobby row passes a listing filter: each set field must hold
/// of the row — its completion state, whether an analysis exists, its map,
/// and the first-seen/last-seen time window.
pub open spec fn matches_filter(l: LobbyRowV, f: LobbyFilterV) -> bool {
    &&& match f.completed {
        None => true,
        Some(c) => l.completed == c,
    }
    &&& match f.has_analysis {
        None => true,
        Some(h) => l.analysis_complete == h,
    }
    &&& match f.game_map {
        None => true,
        Some(m) => l.game_map == m,
    }
    &&& match f.after {
        None => true,
        Some(a) => l.first_seen_unix_sec > a,
    }
    &&& match f.before {
        None => true,
        Some(b) => l.last_seen_unix_sec < b,
    }
}

/// The rows a listing filter selects, in store order, without their
/// configurations.
pub open spec fn matching_rows(lobbies: Seq<LobbyRowV>, f: LobbyFilterV) -> Seq<LobbyNoConfigV> {
    lobbies.filter(|l: LobbyRowV| matches_filter(l, f)).map_values(|l: LobbyRowV| drop_config(l))
}

/// Newest first by last-seen time.
pub open spec fn sorted_by_last_seen_desc(s: Seq<LobbyNoConfigV>) -> bool {
    forall|i: int, j: int|
        0 <= i < j < s.len() ==> (#[trigger] s[i]).last_seen_unix_sec >= (
        #[trigger] s[j]).last_seen_unix_sec
}

proof fn lemma_matching_rows_push(lobbies: Seq<LobbyRowV>, x: LobbyRowV, f: LobbyFilterV)
    ensures
        matching_rows(lobbies.push(x), f) == if matches_filter(x, f) {
            matching_rows(lobbies, f).push(drop_config(x))
        } else {
            matching_rows(lobbies, f)
        },
{
    let pred = |l: LobbyRowV| matches_filter(l, f);
    let pushed = lobbies.push(x);
    assert(pushed.drop_last() =~= lobbies);
    assert(pushed.last() == x);
    reveal_with_fuel(Seq::filter, 2);
    if pred(x) {
        assert(pushed.filter(pred) == lobbies.filter(pred).push(x));
        assert(pushed.filter(pred).map_values(|l: LobbyRowV| drop_config(l)) =~= lobbies.filter(
            pred,
        ).map_values(|l: LobbyRowV| drop_config(l)).push(drop_config(x)));
    } else {
        assert(pushed.filter(pred) == lobbies.filter(pred));
    }
}

impl StoreModel {
    fn collect_matching(&self, filter: &LobbyFilter) -> (r: Vec<LobbyDBEntryNoConfig>)
        ensures
            r@.map_values(|l: LobbyDBEntryNoConfig| l@) == matching_rows(self@.lobbies, filter@),
    {
        let mut out: Vec<LobbyDBEntryNoConfig> = Vec::new();
        let n = self.lobbies.len();
        let mut i: usize = 0;
        proof {
            assert(self@.lobbies.take(0) =~= Seq::<LobbyRowV>::empty());
            reveal_with_fuel(Seq::filter, 1);
            assert(out@.map_values(|l: LobbyDBEntryNoConfig| l@) =~= matching_rows(
                self@.lobbies.take(0),
                filter@,
            ));
        }
        while i < n
            invariant
                i <= n,
                n == self.lobbies@.len(),
                self@.lobbies == self.lobbies@.map_values(|r: LobbyDBEntry| r@),
                out@.map_values(|l: LobbyDBEntryNoConfig| l@) == matching_rows(
                    self@.lobbies.take(i as int),
                    filter@,
                ),
            decreases n - i,
        {
            let row = &self.lobbies[i];
            let ghost before = out@;
            let passes_completed = match filter.completed {
                None => true,
                Some(c) => row.completed == c,
            };
            let passes_analysis = match filter.has_analysis {
                None => true,
                Some(h) => row.analysis_complete == h,
            };
            let passes_map = match &filter.game_map {
                None => true,
                Some(m) => crate::teams::str_eq(row.game_map.as_str(), m.as_str()),
            };
            let passes_after = match filter.after {
                None => true,
                Some(a) => row.first_seen_unix_sec > a,
            };
            let passes_before = match filter.before {
                None => true,
                Some(b) => row.last_seen_unix_sec < b,
            };
            if passes_completed && passes_analysis && passes_map && passes_after
                && passes_before {
                out.push(row.to_no_config());
            }
            proof {
                lemma_matching_rows_push(
                    self@.lobbies.take(i as int),
                    self@.lobbies[i as int],
                    filter@,
                );
                assert(self@.lobbies.take(i + 1) =~= self@.lobbies.take(i as int).push(
                    self@.lobbies[i as int],
                ));
                if matches_filter(self@.lobbies[i as int], filter@) {
                    assert(out@.map_values(|l: LobbyDBEntryNoConfig| l@) =~= before.map_values(
                        |l: LobbyDBEntryNoConfig| l@,
                    ).push(drop_config(self@.lobbies[i as int])));
                }
            }
            i = i + 1;
        }
        proof {
            assert(self@.lobbies.take(n as int) =~= self@.lobbies);
        }
        out
    }

    /// The lobby listing: the rows a filter selects, newest first by
    /// last-seen time, at most one hundred of them.
    pub fn filter_lobbies(&self, filter: &LobbyFilter) -> (r: Vec<LobbyDBEntryNoConfig>)
        ensures
            sorted_by_last_seen_desc(r@.map_values(|l: LobbyDBEntryNoConfig| l@)),
            r@.len() == vstd::math::min(100, matching_rows(self@.lobbies, filter@).len() as int),
            forall|i: int|
                0 <= i < r@.len() ==> matching_rows(self@.lobbies, filter@).contains(
                    (#[trigger] r@[i])@,
                ),
            matching_rows(self@.lobbies, filter@).len() <= 100 ==> r@.map_values(
                |l: LobbyDBEntryNoConfig| l@,
            ).to_multiset() == matching_rows(self@.lobbies, filter@).to_multiset(),
            forall|m: LobbyNoConfigV|
                matching_rows(self@.lobbies, filter@).contains(m) ==> r@.map_values(
                    |l: LobbyDBEntryNoConfig| l@,
                ).contains(m) || (r@.len() == 100 && m.last_seen_unix_sec <= r@.map_values(
                    |l: LobbyDBEntryNoConfig| l@,
                )[99].last_seen_unix_sec),
    {
        broadcast use vstd::seq_lib::group_to_multiset_ensures;

        let matching = self.collect_matching(filter);
        let ghost target = matching_rows(self@.lobbies, filter@);

        // Insertion sort, newest first.
        let mut sorted: Vec<LobbyDBEntryNoConfig> = Vec::new();
        let mut k: usize = 0;
        proof {
            assert(matching@.take(0) =~= Seq::<LobbyDBEntryNoConfig>::empty());
            assert(sorted@ =~= Seq::<LobbyDBEntryNoConfig>::empty());
            assert(Seq::<LobbyDBEntryNoConfig>::empty().map_values(
                |l: LobbyDBEntryNoConfig| l@,
            ) =~= Seq::<LobbyNoConfigV>::empty());
            assert(matching@.take(0).map_values(|l: LobbyDBEntryNoConfig| l@) =~= Seq::<
                LobbyNoConfigV,
            >::empty());
        }
        while k < matching.len()
            invariant
                k <= matching@.len(),
                sorted@.len() == k,
                sorted_by_last_seen_desc(sorted@.map_values(|l: LobbyDBEntryNoConfig| l@)),
                sorted@.map_values(|l: LobbyDBEntryNoConfig| l@).to_multiset() == matching@.take(
                    k as int,
                ).map_values(|l: LobbyDBEntryNoConfig| l@).to_multiset(),
            decreases matching@.len() - k,
        {
            broadcast use vstd::seq_lib::group_to_multiset_ensures;

            let x = matching[k].duplicate();
            let ghost xv = x@;
            let ghost svals = sorted@.map_values(|l: LobbyDBEntryNoConfig| l@);

            // Find the first position with a strictly older last-seen time.
            let mut pos: usize = 0;
            while pos < sorted.len() && sorted[pos].last_seen_unix_sec >= x.last_seen_unix_sec
                invariant
                    pos <= sorted@.len(),
                    xv == x@,
                    forall|j: int|
                        0 <= j < pos ==> (#[trigger] sorted@[j])@.last_seen_unix_sec
                            >= xv.last_seen_unix_sec,
                decreases sorted@.len() - pos,
            {
                pos = pos + 1;
            }
            let ghost before = sorted@;
            proof {
                assert(pos == before.len() || before[pos as int]@.last_seen_unix_sec
                    < xv.last_seen_unix_sec);
            }
            sorted.insert(pos, x);
            proof {
                let after = sorted@;
                let avals = after.map_values(|l: LobbyDBEntryNoConfig| l@);
                assert(after =~= before.take(pos as int).push(x) + before.skip(pos as int));
                // Sortedness: everything before `pos` is at least as new,
                // everything from `pos` on is strictly older.
                assert forall|a: int, b: int|
                    0 <= a < b < avals.len() implies (#[trigger] avals[a]).last_seen_unix_sec >= (
                    #[trigger] avals[b]).last_seen_unix_sec by {
                    assert(avals[a] == after[a]@);
                    assert(avals[b] == after[b]@);
                    if a < pos {
                        assert(after[a] == before[a]);
                        assert(after[a]@ == svals[a]);
                    } else if a > pos {
                        assert(after[a] == before[a - 1]);
                        assert(after[a]@ == svals[a - 1]);
                    } else {
                        assert(after[a] == x);
                    }
                    if b < pos {
                        assert(after[b] == before[b]);
                        assert(after[b]@ == svals[b]);
                    } else if b > pos {
                        assert(after[b] == before[b - 1]);
                        assert(after[b]@ == svals[b - 1]);
                    } else {
                        assert(after[b] == x);
                    }
                    if a < pos && b == pos {
                        assert(svals[a].last_seen_unix_sec >= xv.last_seen_unix_sec);
                    }
                    if a == pos && b > pos {
                        assert(before[pos as int]@.last_seen_unix_sec < xv.last_seen_unix_sec);
                        if b - 1 > pos {
                            assert(svals[pos as int].last_seen_unix_sec
                                >= svals[b - 1].last_seen_unix_sec);
                        }
                    }
                    if a < pos && b > pos {
                        assert(svals[a].last_seen_unix_sec >= xv.last_seen_unix_sec);
                        if b - 1 > a {
                            assert(svals[a].last_seen_unix_sec >= svals[b - 1].last_seen_unix_sec);
                        }
                    }
                }
                // Multiset: the insert adds exactly `x`.
                vstd::seq_lib::lemma_multiset_commutative(
                    before.take(pos as int).push(x),
                    before.skip(pos as int),
                );
                vstd::seq_lib::lemma_multiset_commutative(
                    before.take(pos as int),
                    before.skip(pos as int),
                );
                assert(before.take(pos as int) + before.skip(pos as int) =~= before);
                assert(after.to_multiset() =~= before.to_multiset().insert(x));
                assert(avals =~= before.take(pos as int).map_values(
                    |l: LobbyDBEntryNoConfig| l@,
                ).push(xv) + before.skip(pos as int).map_values(|l: LobbyDBEntryNoConfig| l@));
                vstd::seq_lib::lemma_multiset_commutative(
                    before.take(pos as int).map_values(|l: LobbyDBEntryNoConfig| l@).push(xv),
                    before.skip(pos as int).map_values(|l: LobbyDBEntryNoConfig| l@),
                );
                vstd::seq_lib::lemma_multiset_commutative(
                    before.take(pos as int).map_values(|l: LobbyDBEntryNoConfig| l@),
                    before.skip(pos as int).map_values(|l: LobbyDBEntryNoConfig| l@),
                );
                assert(before.take(pos as int).map_values(|l: LobbyDBEntryNoConfig| l@)
                    + before.skip(pos as int).map_values(|l: LobbyDBEntryNoConfig| l@) =~= svals);
                assert(avals.to_multiset() =~= svals.to_multiset().insert(xv));
                // And the prefix of collected rows grew by exactly `x` too.
                assert(matching@.take(k + 1) =~= matching@.take(k as int).push(matching@[k as int]));
                assert(matching@.take(k + 1).map_values(|l: LobbyDBEntryNoConfig| l@)
                    =~= matching@.take(k as int).map_values(|l: LobbyDBEntryNoConfig| l@).push(xv));
            }
            k = k + 1;
        }
        proof {
            assert(matching@.take(matching@.len() as int) =~= matching@);
        }

        let ghost svals_all = sorted@.map_values(|l: LobbyDBEntryNoConfig| l@);
        proof {
            assert(matching@.map_values(|l: LobbyDBEntryNoConfig| l@).len() == target.len());
        }
        let mut out = sorted;
        if out.len() > 100 {
            out.truncate(100);
        }
        proof {
            broadcast use vstd::seq_lib::group_to_multiset_ensures;

            let ovals = out@.map_values(|l: LobbyDBEntryNoConfig| l@);
            let mvals = matching@.map_values(|l: LobbyDBEntryNoConfig| l@);
            assert(mvals == target);
            // Truncation keeps a prefix, so order and membership carry over.
            assert forall|a: int, b: int|
                0 <= a < b < ovals.len() implies (#[trigger] ovals[a]).last_seen_unix_sec >= (
                #[trigger] ovals[b]).last_seen_unix_sec by {
                assert(out@[a] == sorted@[a]);
                assert(out@[b] == sorted@[b]);
                assert(svals_all[a].last_seen_unix_sec >= svals_all[b].last_seen_unix_sec);
            }
            assert forall|i: int| 0 <= i < out@.len() implies target.contains(
                (#[trigger] out@[i])@,
            ) by {
                assert(out@[i] == sorted@[i]);
                assert(svals_all[i] == out@[i]@);
                assert(svals_all.contains(out@[i]@));
                assert(svals_all.to_multiset().count(out@[i]@) > 0);
                assert(target.to_multiset().count(out@[i]@) > 0);
                assert(target.contains(out@[i]@));
            }
            if target.len() <= 100 {
                assert(out@ == sorted@);
                assert(ovals =~= svals_all);
            }
            // A row left out by the cut is at least as old as everything
            // kept: it sits past position one hundred of the sorted run.
            assert forall|m: LobbyNoConfigV| target.contains(m) implies ovals.contains(m) || (
            ovals.len() == 100 && m.last_seen_unix_sec <= ovals[99].last_seen_unix_sec) by {
                assert(target.to_multiset().count(m) > 0);
                assert(svals_all.to_multiset().count(m) > 0);
                assert(svals_all.contains(m));
                let idx = choose|idx: int| 0 <= idx < svals_all.len() && svals_all[idx] == m;
                if idx < out@.len() {
                    assert(out@[idx] == sorted@[idx]);
                    assert(ovals[idx] == m);
                    assert(ovals.contains(m));
                } else {
                    assert(out@.len() == 100);
                    assert(out@[99] == sorted@[99]);
                    assert(ovals[99] == svals_all[99]);
                    assert(svals_all[99].last_seen_unix_sec >= svals_all[idx].last_seen_unix_sec);
                }
            }
        }
        out
    }
}

/// Three hours, in seconds: how far back the queue listing reaches for
/// settled entries.
pub const QUEUE_LISTING_WINDOW_SECS: i64 = 10800;

/// One analysis-queue entry as the read interface reports it.
#[derive(Debug, Clone)]
pub struct APIAnalysisQueueEntry {
    pub game_id: String,
    pub queued_for_sec: i64,
    pub status: AnalysisQueueStatus,
    pub started_at_unix_sec: Option<i64>,
}

/// Mathematical image of an [`APIAnalysisQueueEntry`].
#[verifier::ext_equal]
pub struct APIQueueEntryV {
    pub game_id: Seq<char>,
    pub queued_for_sec: i64,
    pub status: AnalysisQueueStatus,
    pub started_at_unix_sec: Option<i64>,
}

impl View for APIAnalysisQueueEntry {
    type V = APIQueueEntryV;

    open spec fn view(&self) -> APIQueueEntryV {
        APIQueueEntryV {
            game_id: self.game_id@,
            queued_for_sec: self.queued_for_sec,
            status: self.status,
            started_at_unix_sec: self.started_at_unix_sec,
        }
    }
}

/// An integer held to the sixty-four-bit signed range.
pub open spec fn clamp_to_i64(x: int) -> int {
    if x > i64::MAX {
        i64::MAX as int
    } else if x < i64::MIN {
        i64::MIN as int
    } else {
        x
    }
}

/// Whether the queue listing shows an entry at time `now`: unsettled
/// entries always, settled ones only while recent; completed and
/// cancelled ones never.
pub open spec fn listing_shows(e: QueueRowV, now: i64) -> bool {
    &&& (e.status is Pending || e.status is Running || e.status is NotFound || e.status is Failed
        || e.status is Stalled)
    &&& (e.requested_unix_sec > now - QUEUE_LISTING_WINDOW_SECS || e.status is Pending
        || e.status is Running)
}

/// The listing's image of one entry: how long it has waited rather than
/// when it was requested.
pub open spec fn api_entry_of(e: QueueRowV, now: i64) -> APIQueueEntryV {
    APIQueueEntryV {
        game_id: e.game_id,
        queued_for_sec: clamp_to_i64(now - e.requested_unix_sec) as i64,
        status: e.status,
        started_at_unix_sec: e.started_unix_sec,
    }
}

/// The listing at time `now`, in store order.
pub open spec fn recent_entries(queue: Seq<QueueRowV>, now: i64) -> Seq<APIQueueEntryV> {
    queue.filter(|e: QueueRowV| listing_shows(e, now)).map_values(
        |e: QueueRowV| api_entry_of(e, now),
    )
}

proof fn lemma_recent_entries_push(queue: Seq<QueueRowV>, x: QueueRowV, now: i64)
    ensures
        recent_entries(queue.push(x), now) == if listing_shows(x, now) {
            recent_entries(queue, now).push(api_entry_of(x, now))
        } else {
            recent_entries(queue, now)
        },
{
    let pred = |e: QueueRowV| listing_shows(e, now);
    let pushed = queue.push(x);
    assert(pushed.drop_last() =~= queue);
    assert(pushed.last() == x);
    reveal_with_fuel(Seq::filter, 2);
    if pred(x) {
        assert(pushed.filter(pred) == queue.filter(pred).push(x));
        assert(pushed.filter(pred).map_values(|e: QueueRowV| api_entry_of(e, now))
            =~= queue.filter(pred).map_values(|e: QueueRowV| api_entry_of(e, now)).push(
            api_entry_of(x, now),
        ));
    } else {
        assert(pushed.filter(pred) == queue.filter(pred));
    }
}

impl StoreModel {
    /// The analysis-queue listing: every unsettled entry, and every
    /// settled one from the recent window, with its waiting time.
    pub fn list_recent_analysis_entries(&self, now: i64) -> (r: Vec<APIAnalysisQueueEntry>)
        ensures
            r@.map_values(|e: APIAnalysisQueueEntry| e@) == recent_entries(
                self@.analysis_queue,
                now,
            ),
    {
        let mut out: Vec<APIAnalysisQueueEntry> = Vec::new();
        let n = self.analysis_queue.len();
        let mut i: usize = 0;
        proof {
            assert(self@.analysis_queue.take(0) =~= Seq::<QueueRowV>::empty());
            reveal_with_fuel(Seq::filter, 1);
            assert(out@.map_values(|e: APIAnalysisQueueEntry| e@) =~= recent_entries(
                self@.analysis_queue.take(0),
                now,
            ));
        }
        while i < n
            invariant
                i <= n,
                n == self.analysis_queue@.len(),
                self@.analysis_queue == self.analysis_queue@.map_values(
                    |r: AnalysisQueueEntry| r@,
                ),
                out@.map_values(|e: APIAnalysisQueueEntry| e@) == recent_entries(
                    self@.analysis_queue.take(i as int),
                    now,
                ),
            decreases n - i,
        {
            let entry = &self.analysis_queue[i];
            let ghost before = out@;
            let settled_ok = match entry.status {
                AnalysisQueueStatus::Pending | AnalysisQueueStatus::Running => true,
                AnalysisQueueStatus::NotFound | AnalysisQueueStatus::Failed
                    | AnalysisQueueStatus::Stalled => (entry.requested_unix_sec as i128) > (
                now as i128) - (QUEUE_LISTING_WINDOW_SECS as i128),
                _ => false,
            };
            if settled_ok {
                let waited_wide: i128 = (now as i128) - (entry.requested_unix_sec as i128);
                let waited: i64 = if waited_wide > i64::MAX as i128 {
                    i64::MAX
                } else if waited_wide < i64::MIN as i128 {
                    i64::MIN
                } else {
                    waited_wide as i64
                };
                let api = APIAnalysisQueueEntry {
                    game_id: entry.game_id.clone(),
                    queued_for_sec: waited,
                    status: entry.status,
                    started_at_unix_sec: entry.started_unix_sec,
                };
                proof {
                    assert(api@ =~= api_entry_of(self@.analysis_queue[i as int], now));
                }
                out.push(api);
            }
            proof {
                lemma_recent_entries_push(
                    self@.analysis_queue.take(i as int),
                    self@.analysis_queue[i as int],
                    now,
                );
                assert(self@.analysis_queue.take(i + 1) =~= self@.analysis_queue.take(
                    i as int,
                ).push(self@.analysis_queue[i as int]));
                if listing_shows(self@.analysis_queue[i as int], now) {
                    assert(out@.map_values(|e: APIAnalysisQueueEntry| e@) =~= before.map_values(
                        |e: APIAnalysisQueueEntry| e@,
                    ).push(api_entry_of(self@.analysis_queue[i as int], now)));
                }
            }
            i = i + 1;
        }
        proof {
            assert(self@.analysis_queue.take(n as int) =~= self@.analysis_queue);
        }
        out
    }
}

/// The lobby rows keep the data model's invariants under every transition
/// that touches them: a row's id never changes, rows are never dropped,
/// and `completed` moves from false to true only — upserting keeps it,
/// the rollover repair keeps it, and finalization only sets it.
pub proof fn lemma_lobby_row_invariants(s: StoreV, lobby: LobbyV, status: GameStatusV, id: Seq<char>, now: i64)
    ensures
        forall|i: int|
            0 <= i < s.lobbies.len() ==> {
                let t = #[trigger] upsert_lobby_spec(s, lobby, now).lobbies[i];
                t.game_id == s.lobbies[i].game_id && t.completed == s.lobbies[i].completed
                    && t.first_seen_unix_sec == s.lobbies[i].first_seen_unix_sec
            },
        forall|i: int|
            0 <= i < s.lobbies.len() ==> {
                let t = #[trigger] mark_full_spec(s, id).lobbies[i];
                t.game_id == s.lobbies[i].game_id && t.completed == s.lobbies[i].completed
            },
        finalize_spec(s, status, id, now).lobbies.len() == s.lobbies.len(),
        forall|i: int|
            0 <= i < s.lobbies.len() ==> {
                let t = #[trigger] finalize_spec(s, status, id, now).lobbies[i];
                t.game_id == s.lobbies[i].game_id && (s.lobbies[i].completed ==> t.completed)
            },
{
    assert forall|i: int| 0 <= i < s.lobbies.len() implies {
        let t = #[trigger] upsert_lobby_spec(s, lobby, now).lobbies[i];
        t.game_id == s.lobbies[i].game_id && t.completed == s.lobbies[i].completed
            && t.first_seen_unix_sec == s.lobbies[i].first_seen_unix_sec
    } by {
        if has_lobby(s.lobbies, lobby.game_id) {
            assert(upsert_lobby_spec(s, lobby, now).lobbies[i] == if s.lobbies[i].game_id
                == lobby.game_id {
                LobbyRowV {
                    approx_num_players: lobby.num_clients,
                    last_seen_unix_sec: now,
                    ..s.lobbies[i]
                }
            } else {
                s.lobbies[i]
            });
        } else {
            assert(upsert_lobby_spec(s, lobby, now).lobbies[i] == s.lobbies[i]);
        }
    }
    assert forall|i: int| 0 <= i < s.lobbies.len() implies {
        let t = #[trigger] mark_full_spec(s, id).lobbies[i];
        t.game_id == s.lobbies[i].game_id && t.completed == s.lobbies[i].completed
    } by {
        assert(mark_full_spec(s, id).lobbies[i] == if s.lobbies[i].game_id == id {
            LobbyRowV { approx_num_players: s.lobbies[i].max_players, ..s.lobbies[i] }
        } else {
            s.lobbies[i]
        });
    }
    assert forall|i: int| 0 <= i < s.lobbies.len() implies {
        let t = #[trigger] finalize_spec(s, status, id, now).lobbies[i];
        t.game_id == s.lobbies[i].game_id && (s.lobbies[i].completed ==> t.completed)
    } by {
        if !(status is NotFound) {
            assert(finalize_spec(s, status, id, now).lobbies[i] == if s.lobbies[i].game_id == id {
                row_completed(s.lobbies[i])
            } else {
                s.lobbies[i]
            });
        }
    }
}

} // verus!
