use openfront_core::completion::{
    check_if_game_finished, payload_from_json, ErrorField, GameStatus, PipelineError, ResultPayload,
};
use openfront_core::pipeline::{
    discovery_step, drain_status_update, insert_new_game, next_poll_delay_ms, DiscoveryCursor,
};
use openfront_core::store::AnalysisQueueStatus;
use openfront_core::source::{Lobby, PublicLobbiesResponse};
use openfront_core::store::StoreModel;
use openfront_core::teams::{GameConfig, PlayerTeams, StringOrInt};

fn config(map: &str, max_players: i32, teams: Option<StringOrInt>) -> GameConfig {
    GameConfig {
        game_map: map.to_string(),
        game_type: "Public".to_string(),
        difficulty: "Medium".to_string(),
        disable_npcs: false,
        infinite_gold: false,
        infinite_troops: false,
        instant_build: false,
        game_mode: "FFA".to_string(),
        bots: 0,
        disabled_units: Vec::new(),
        max_players,
        player_teams: teams,
    }
}

fn lobby(id: &str, num_clients: i32, max_players: i32, ms_until_start: u64) -> Lobby {
    Lobby {
        game_id: id.to_string(),
        num_clients,
        game_config: config("Europe", max_players, None),
        ms_until_start,
    }
}

#[test]
fn delay_stays_between_three_and_fifteen_seconds() {
    // Far-off start, many seats left: the ceiling wins.
    assert_eq!(next_poll_delay_ms(100_000, 10, 50), 15_000);
    // Nearly full: one second per missing seat.
    assert_eq!(next_poll_delay_ms(100_000, 45, 50), 4_500);
    // Start imminent or lobby full: the floor wins.
    assert_eq!(next_poll_delay_ms(4_000, 49, 50), 3_000);
    assert_eq!(next_poll_delay_ms(0, 50, 50), 3_000);
    // Extremes still land inside the band.
    for (ms, clients, max) in [
        (u64::MAX, i32::MIN, i32::MAX),
        (0, i32::MAX, i32::MIN),
        (15_500, 0, i32::MAX),
        (7_777, -5, 3),
    ] {
        let d = next_poll_delay_ms(ms, clients, max);
        assert!((3000..=15_000).contains(&d), "delay {d} out of band");
    }
}

#[test]
fn classification_covers_the_three_shapes_and_rejects_the_rest() {
    let not_found = payload_from_json(r#"{"error": "Not found"}"#).unwrap();
    assert!(matches!(
        check_if_game_finished(not_found),
        Ok(GameStatus::NotFound)
    ));

    let failure = payload_from_json(r#"{"error": "Some failure"}"#).unwrap();
    assert!(matches!(
        check_if_game_finished(failure),
        Ok(GameStatus::Error(_))
    ));

    let finished = payload_from_json(
        r#"{"gitCommit": "0a1b2c", "info": {"winner": ["team", "abc"], "duration": 600}}"#,
    )
    .unwrap();
    match check_if_game_finished(finished) {
        Ok(GameStatus::Finished(p)) => {
            assert!(p.raw_json.contains("gitCommit"));
        }
        other => panic!("expected a finished classification, got {other:?}"),
    }

    let unknown = payload_from_json(r#"{"something": "else"}"#).unwrap();
    assert!(matches!(
        check_if_game_finished(unknown),
        Err(PipelineError::UnknownGameState)
    ));

    // A non-string error field is a reported failure, not the marker.
    let numeric_error = payload_from_json(r#"{"error": 503}"#).unwrap();
    assert!(matches!(numeric_error.error_field, ErrorField::NonText));
    assert!(matches!(
        check_if_game_finished(numeric_error),
        Ok(GameStatus::Error(_))
    ));

    // Text that is not JSON at all never reaches classification.
    assert!(payload_from_json("not json").is_none());
}

#[test]
fn empty_lobby_list_is_the_no_lobbies_failure() {
    let mut cursor = DiscoveryCursor::new();
    let mut store = StoreModel::new();
    let resp = PublicLobbiesResponse { lobbies: Vec::new() };
    let r = discovery_step(&mut cursor, &mut store, &resp, 1_000);
    assert!(matches!(r, Err(PipelineError::NoLobbiesFound)));
    assert!(store.lobby("anything").is_none());
}

#[test]
fn rollover_repair_fills_the_vanished_lobby() {
    let mut cursor = DiscoveryCursor::new();
    let mut store = StoreModel::new();

    // Observe lobby A at 10 of 50 players, with its start far enough away
    // that the next poll is not expected to land after it.
    let resp_a = PublicLobbiesResponse { lobbies: vec![lobby("gameA", 10, 50, 100_000)] };
    let delay = discovery_step(&mut cursor, &mut store, &resp_a, 1_000).unwrap();
    assert_eq!(delay, 15_000);
    assert_eq!(cursor.last_game_id, "gameA");
    assert!(!cursor.expected_rollover);

    // The next poll sees lobby B instead: A vanished early, so its player
    // count is repaired to capacity, and B is recorded.
    let resp_b = PublicLobbiesResponse { lobbies: vec![lobby("gameB", 3, 80, 100_000)] };
    discovery_step(&mut cursor, &mut store, &resp_b, 1_015).unwrap();

    let row_a = store.lobby("gameA").unwrap();
    assert_eq!(row_a.approx_num_players, 50);
    assert_eq!(row_a.max_players, 50);

    let row_b = store.lobby("gameB").unwrap();
    assert_eq!(row_b.approx_num_players, 3);
    assert_eq!(cursor.last_game_id, "gameB");
}

#[test]
fn expected_rollover_skips_the_repair() {
    let mut cursor = DiscoveryCursor::new();
    let mut store = StoreModel::new();

    // Lobby A starts in two seconds: the delay overshoots its start, so a
    // new lobby next time is expected and repairs nothing.
    let resp_a = PublicLobbiesResponse { lobbies: vec![lobby("gameA", 10, 50, 2_000)] };
    discovery_step(&mut cursor, &mut store, &resp_a, 1_000).unwrap();
    assert!(cursor.expected_rollover);

    let resp_b = PublicLobbiesResponse { lobbies: vec![lobby("gameB", 3, 80, 100_000)] };
    discovery_step(&mut cursor, &mut store, &resp_b, 1_004).unwrap();

    assert_eq!(store.lobby("gameA").unwrap().approx_num_players, 10);
}

#[test]
fn repeat_observation_updates_only_count_and_last_seen() {
    let mut store = StoreModel::new();
    let first = lobby("gameA", 10, 50, 100_000);
    insert_new_game(&mut store, &first, 1_000);

    let mut second = lobby("gameA", 23, 50, 80_000);
    second.game_config.game_map = "Asia".to_string();
    insert_new_game(&mut store, &second, 1_015);

    let row = store.lobby("gameA").unwrap();
    assert_eq!(row.approx_num_players, 23);
    assert_eq!(row.last_seen_unix_sec, 1_015);
    // Everything else keeps its first-sight value.
    assert_eq!(row.first_seen_unix_sec, 1_000);
    assert_eq!(row.game_map, "Europe");
    assert!(!row.completed);
}

#[test]
fn team_modes_are_recorded_from_the_config() {
    let mut store = StoreModel::new();
    let mut l = lobby("gameA", 4, 8, 50_000);
    l.game_config.player_teams = Some(StringOrInt::String("Duos".to_string()));
    insert_new_game(&mut store, &l, 1_000);
    assert_eq!(
        store.lobby("gameA").unwrap().teams,
        PlayerTeams::Parties { party_size: 2 }
    );
}

#[test]
fn drainer_status_updates_follow_the_classification() {
    let payload = ResultPayload {
        raw_json: "{}".to_string(),
        error_field: ErrorField::Absent,
        has_version_marker: true,
    };
    assert_eq!(drain_status_update(&GameStatus::Finished(payload.clone())), None);
    assert_eq!(
        drain_status_update(&GameStatus::Error(payload.clone())),
        Some(AnalysisQueueStatus::Failed)
    );
    assert_eq!(
        drain_status_update(&GameStatus::NotFound),
        Some(AnalysisQueueStatus::NotFound)
    );
}

#[test]
fn archival_fields_follow_the_classification() {
    let payload = ResultPayload {
        raw_json: "{\"a\":1}".to_string(),
        error_field: ErrorField::Absent,
        has_version_marker: true,
    };
    assert_eq!(
        GameStatus::Finished(payload.clone()).archive_payload(),
        Some(("{\"a\":1}".to_string(), true))
    );
    assert_eq!(
        GameStatus::Error(payload).archive_payload(),
        Some(("{\"a\":1}".to_string(), false))
    );
    assert_eq!(GameStatus::NotFound.archive_payload(), None);
}

#[test]
fn cursor_detects_early_rollovers() {
    let mut cursor = DiscoveryCursor::new();
    // Nothing to repair before the first observation.
    assert!(!cursor.rollover_repair_needed("gameA"));
    cursor.record_observation("gameA", 15_000, 100_000);
    assert!(!cursor.expected_rollover);
    // The same lobby again is no rollover; a different one is.
    assert!(!cursor.rollover_repair_needed("gameA"));
    assert!(cursor.rollover_repair_needed("gameB"));
    // An observation whose delay overshoots the start expects the change.
    cursor.record_observation("gameB", 3_000, 2_000);
    assert!(cursor.expected_rollover);
    assert!(!cursor.rollover_repair_needed("gameC"));
}
