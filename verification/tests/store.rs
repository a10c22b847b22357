use openfront_core::completion::{ErrorField, GameStatus, ResultPayload};
use openfront_core::pipeline::{drain_queue_candidate, sweep_candidate};
use openfront_core::source::Lobby;
use openfront_core::store::{
    flag_enables_auto_analysis, AnalysisQueueStatus, LobbyFilter, StoreModel,
};
use openfront_core::teams::GameConfig;

fn plain_config(max_players: i32) -> GameConfig {
    GameConfig {
        game_map: "Europe".to_string(),
        game_type: "Public".to_string(),
        difficulty: "Medium".to_string(),
        disable_npcs: false,
        infinite_gold: false,
        infinite_troops: false,
        instant_build: false,
        game_mode: "FFA".to_string(),
        bots: 0,
        disabled_units: Vec::new(),
        max_players,
        player_teams: None,
    }
}

fn seed_lobby(store: &mut StoreModel, id: &str, seen_at: i64) {
    let l = Lobby {
        game_id: id.to_string(),
        num_clients: 5,
        game_config: plain_config(50),
        ms_until_start: 60_000,
    };
    store.upsert_lobby(&l, seen_at);
}

fn finished_payload(body: &str) -> GameStatus {
    GameStatus::Finished(ResultPayload {
        raw_json: body.to_string(),
        error_field: ErrorField::Absent,
        has_version_marker: true,
    })
}

#[test]
fn finalization_is_idempotent() {
    let mut store = StoreModel::new();
    seed_lobby(&mut store, "gameA", 1_000);

    store.save_finished_game(finished_payload("{\"a\":1}"), "gameA", 2_000);
    // A racing finalizer repeats the routine; nothing may double up.
    store.save_finished_game(finished_payload("{\"a\":2}"), "gameA", 2_001);

    let lobby = store.lobby("gameA").unwrap();
    assert!(lobby.completed);

    let row = store.finished_game("gameA").unwrap();
    assert!(row.is_ok);
    // The first write won; the second was a benign no-op.
    assert_eq!(row.result_json, "{\"a\":1}");
    assert_eq!(row.inserted_at_unix_sec, 2_000);
}

#[test]
fn not_found_persists_nothing() {
    let mut store = StoreModel::new();
    seed_lobby(&mut store, "gameA", 1_000);
    store.save_finished_game(GameStatus::NotFound, "gameA", 2_000);
    assert!(!store.lobby("gameA").unwrap().completed);
    assert!(store.finished_game("gameA").is_none());
}

#[test]
fn error_results_archive_with_is_ok_false() {
    let mut store = StoreModel::new();
    seed_lobby(&mut store, "gameA", 1_000);
    let status = GameStatus::Error(ResultPayload {
        raw_json: "{\"error\":\"boom\"}".to_string(),
        error_field: ErrorField::Text("boom".to_string()),
        has_version_marker: false,
    });
    store.save_finished_game(status, "gameA", 2_000);
    let row = store.finished_game("gameA").unwrap();
    assert!(!row.is_ok);
    assert!(store.lobby("gameA").unwrap().completed);
}

#[test]
fn queue_drain_skips_already_archived_games() {
    let mut store = StoreModel::new();
    seed_lobby(&mut store, "archived", 1_000);
    seed_lobby(&mut store, "fresh", 1_000);
    store.create_analysis_entry_if_absent("archived", None, 1_500);
    store.create_analysis_entry_if_absent("fresh", Some("u1"), 1_600);

    // The archived game already has its result row.
    store.save_finished_game(finished_payload("{}"), "archived", 1_700);

    // The drainer's candidate query must pass over it.
    let candidate = store.find_next_pending_analysis_without_result().unwrap();
    assert_eq!(candidate.game_id, "fresh");
    assert_eq!(candidate.requesting_user_id.as_deref(), Some("u1"));
}

#[test]
fn queue_drain_picks_the_oldest_pending_request() {
    let mut store = StoreModel::new();
    seed_lobby(&mut store, "late", 1_000);
    seed_lobby(&mut store, "early", 1_000);
    store.create_analysis_entry_if_absent("late", None, 5_000);
    store.create_analysis_entry_if_absent("early", None, 4_000);
    let candidate = store.find_next_pending_analysis_without_result().unwrap();
    assert_eq!(candidate.game_id, "early");
}

#[test]
fn drain_advances_entries_by_classification() {
    let mut store = StoreModel::new();
    seed_lobby(&mut store, "errored", 1_000);
    seed_lobby(&mut store, "vanished", 1_000);
    seed_lobby(&mut store, "done", 1_000);
    store.create_analysis_entry_if_absent("errored", None, 1_500);
    store.create_analysis_entry_if_absent("vanished", None, 1_500);
    store.create_analysis_entry_if_absent("done", None, 1_500);

    let error_status = GameStatus::Error(ResultPayload {
        raw_json: "{\"error\":\"x\"}".to_string(),
        error_field: ErrorField::Text("x".to_string()),
        has_version_marker: false,
    });
    drain_queue_candidate(&mut store, "errored", error_status, 2_000);
    assert_eq!(
        store.analysis_entry("errored").unwrap().status,
        AnalysisQueueStatus::Failed
    );
    // The error payload is still archived for diagnostics.
    assert!(store.finished_game("errored").is_some());

    drain_queue_candidate(&mut store, "vanished", GameStatus::NotFound, 2_000);
    assert_eq!(
        store.analysis_entry("vanished").unwrap().status,
        AnalysisQueueStatus::NotFound
    );
    assert!(store.finished_game("vanished").is_none());

    // A finished game leaves the entry pending for the analysis engine.
    drain_queue_candidate(&mut store, "done", finished_payload("{}"), 2_000);
    assert_eq!(
        store.analysis_entry("done").unwrap().status,
        AnalysisQueueStatus::Pending
    );
    assert!(store.finished_game("done").is_some());
}

#[test]
fn sweep_enqueues_analysis_only_when_configured() {
    let mut store = StoreModel::new();
    seed_lobby(&mut store, "gameA", 1_000);
    sweep_candidate(&mut store, "gameA", finished_payload("{}"), 2_000);
    assert!(store.analysis_entry("gameA").is_none());

    let mut store = StoreModel::new();
    seed_lobby(&mut store, "gameB", 1_000);
    store.set_config_flag("auto_analyze_games", "true");
    assert!(store.auto_analyze_enabled());
    sweep_candidate(&mut store, "gameB", finished_payload("{}"), 2_000);
    let entry = store.analysis_entry("gameB").unwrap();
    assert_eq!(entry.status, AnalysisQueueStatus::Pending);
    assert_eq!(entry.requesting_user_id, None);
}

#[test]
fn quiet_lobby_query_applies_the_threshold() {
    let mut store = StoreModel::new();
    seed_lobby(&mut store, "old", 1_000);
    seed_lobby(&mut store, "recent", 9_500);
    seed_lobby(&mut store, "completed", 1_000);
    store.save_finished_game(finished_payload("{}"), "completed", 1_500);

    // At time 10.000 with a 900-second threshold, only rows last seen
    // before 9.100 and not completed qualify.
    let quiet = store.find_quiet_incomplete_lobbies(10_000, 900);
    assert_eq!(quiet, vec!["old".to_string()]);
}

#[test]
fn stale_running_entries_become_stalled() {
    let mut store = StoreModel::new();
    seed_lobby(&mut store, "slow", 1_000);
    seed_lobby(&mut store, "quick", 1_000);
    store.create_analysis_entry_if_absent("slow", None, 1_000);
    store.create_analysis_entry_if_absent("quick", None, 1_000);
    store.set_analysis_status("slow", AnalysisQueueStatus::Running, 1_000);
    store.set_analysis_status("quick", AnalysisQueueStatus::Running, 5_000);

    // Thirty minutes after the slow start plus a second.
    store.mark_stale_running(2_801);
    assert_eq!(
        store.analysis_entry("slow").unwrap().status,
        AnalysisQueueStatus::Stalled
    );
    assert_eq!(
        store.analysis_entry("quick").unwrap().status,
        AnalysisQueueStatus::Running
    );
}

#[test]
fn cancel_requires_the_matching_requester_and_a_live_entry() {
    let mut store = StoreModel::new();
    store.create_analysis_entry_if_absent("gameA", Some("alice"), 1_000);

    // Someone else cannot cancel it.
    store.cancel_analysis("gameA", Some("bob"));
    assert_eq!(
        store.analysis_entry("gameA").unwrap().status,
        AnalysisQueueStatus::Pending
    );

    // The requester can.
    store.cancel_analysis("gameA", Some("alice"));
    assert_eq!(
        store.analysis_entry("gameA").unwrap().status,
        AnalysisQueueStatus::Cancelled
    );

    // A completed analysis stays completed.
    store.create_analysis_entry_if_absent("gameB", Some("alice"), 1_000);
    store.set_analysis_status("gameB", AnalysisQueueStatus::Completed, 2_000);
    store.cancel_analysis("gameB", Some("alice"));
    assert_eq!(
        store.analysis_entry("gameB").unwrap().status,
        AnalysisQueueStatus::Completed
    );
}

#[test]
fn requests_are_idempotent_and_revive_cancelled_entries() {
    let mut store = StoreModel::new();
    store.create_analysis_entry_if_absent("gameA", Some("alice"), 1_000);
    // A second request changes nothing.
    store.create_analysis_entry_if_absent("gameA", Some("bob"), 2_000);
    let entry = store.analysis_entry("gameA").unwrap();
    assert_eq!(entry.requested_unix_sec, 1_000);
    assert_eq!(entry.requesting_user_id.as_deref(), Some("alice"));

    // After a cancellation a new request starts the entry afresh.
    store.cancel_analysis("gameA", Some("alice"));
    store.create_analysis_entry_if_absent("gameA", Some("bob"), 3_000);
    let entry = store.analysis_entry("gameA").unwrap();
    assert_eq!(entry.status, AnalysisQueueStatus::Pending);
    assert_eq!(entry.requested_unix_sec, 3_000);
    assert_eq!(entry.requesting_user_id.as_deref(), Some("bob"));
}

#[test]
fn running_entries_get_a_start_stamp() {
    let mut store = StoreModel::new();
    store.create_analysis_entry_if_absent("gameA", None, 1_000);
    assert_eq!(store.analysis_entry("gameA").unwrap().started_unix_sec, None);
    store.set_analysis_status("gameA", AnalysisQueueStatus::Running, 1_234);
    assert_eq!(
        store.analysis_entry("gameA").unwrap().started_unix_sec,
        Some(1_234)
    );
}

#[test]
fn only_the_literal_true_enables_auto_analysis() {
    assert!(flag_enables_auto_analysis(Some("true")));
    assert!(!flag_enables_auto_analysis(Some("TRUE")));
    assert!(!flag_enables_auto_analysis(Some("yes")));
    assert!(!flag_enables_auto_analysis(None));
}

#[test]
fn config_flags_read_back_and_overwrite() {
    let mut store = StoreModel::new();
    assert_eq!(store.read_config_flag("auto_analyze_games"), None);
    assert!(!store.auto_analyze_enabled());
    store.set_config_flag("auto_analyze_games", "true");
    assert_eq!(
        store.read_config_flag("auto_analyze_games").as_deref(),
        Some("true")
    );
    assert!(store.auto_analyze_enabled());
    store.set_config_flag("auto_analyze_games", "false");
    assert!(!store.auto_analyze_enabled());
}

#[test]
fn lobby_listing_filters_sorts_and_limits() {
    let mut store = StoreModel::new();
    for i in 0..130 {
        seed_lobby(&mut store, &format!("game{i:03}"), 1_000 + i);
    }
    store.save_finished_game(finished_payload("{}"), "game003", 5_000);

    // No filter: the hundred most recently seen, newest first.
    let all = store.filter_lobbies(&LobbyFilter {
        completed: None,
        has_analysis: None,
        game_map: None,
        after: None,
        before: None,
    });
    assert_eq!(all.len(), 100);
    for pair in all.windows(2) {
        assert!(pair[0].last_seen_unix_sec >= pair[1].last_seen_unix_sec);
    }

    // Completed only.
    let completed = store.filter_lobbies(&LobbyFilter {
        completed: Some(true),
        has_analysis: None,
        game_map: None,
        after: None,
        before: None,
    });
    assert_eq!(completed.len(), 1);
    assert_eq!(completed[0].game_id, "game003");

    // A time window.
    let windowed = store.filter_lobbies(&LobbyFilter {
        completed: None,
        has_analysis: None,
        game_map: None,
        after: Some(1_004),
        before: Some(1_008),
    });
    let ids: Vec<&str> = windowed.iter().map(|l| l.game_id.as_str()).collect();
    assert_eq!(ids, vec!["game007", "game006", "game005"]);

    // A map nobody played on.
    let none = store.filter_lobbies(&LobbyFilter {
        completed: None,
        has_analysis: None,
        game_map: Some("Atlantis".to_string()),
        after: None,
        before: None,
    });
    assert!(none.is_empty());
}

#[test]
fn queue_listing_shows_live_and_recent_entries() {
    let mut store = StoreModel::new();
    store.create_analysis_entry_if_absent("pending_old", None, 1_000);
    store.create_analysis_entry_if_absent("failed_old", None, 1_000);
    store.create_analysis_entry_if_absent("failed_recent", None, 95_000);
    store.set_analysis_status("failed_old", AnalysisQueueStatus::Failed, 1_500);
    store.set_analysis_status("failed_recent", AnalysisQueueStatus::Failed, 95_500);
    store.create_analysis_entry_if_absent("cancelled", Some("alice"), 95_000);
    store.cancel_analysis("cancelled", Some("alice"));

    // At time 100.000 the three-hour window starts at 89.200.
    let listing = store.list_recent_analysis_entries(100_000);
    let ids: Vec<&str> = listing.iter().map(|e| e.game_id.as_str()).collect();
    assert_eq!(ids, vec!["pending_old", "failed_recent"]);
    assert_eq!(listing[0].queued_for_sec, 99_000);
    assert_eq!(listing[1].queued_for_sec, 5_000);
}
