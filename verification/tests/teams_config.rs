use openfront_core::config::{task_settings, ActiveTasks, Config};
use openfront_core::oauth::{authorization_url, OAuthBundle};
use openfront_core::teams::{GameConfig, PlayerTeams, StringOrInt};

fn base_config() -> Config {
    Config {
        port: 3000,
        rust_log: "info".to_string(),
        database_url: "postgres://localhost/db".to_string(),
        useragent: None,
        cookie: None,
        openfront_lobby_url: "https://example.test/lobbies".to_string(),
        openfront_api_url: "https://api.example.test".to_string(),
        frontend_folder: "./frontend".to_string(),
        discord_client_id: None,
        discord_client_secret: None,
        discord_redirect_uri: "http://localhost:3000/oauth/discord/callback".to_string(),
        disable_tasks: Vec::new(),
        extra_tasks: Vec::new(),
    }
}

#[test]
fn party_names_and_team_counts_parse() {
    assert_eq!(
        PlayerTeams::from_str_or_int(&StringOrInt::String("Duos".to_string())),
        Some(PlayerTeams::Parties { party_size: 2 })
    );
    assert_eq!(
        PlayerTeams::from_str_or_int(&StringOrInt::String("Trios".to_string())),
        Some(PlayerTeams::Parties { party_size: 3 })
    );
    assert_eq!(
        PlayerTeams::from_str_or_int(&StringOrInt::String("Quads".to_string())),
        Some(PlayerTeams::Parties { party_size: 4 })
    );
    assert_eq!(
        PlayerTeams::from_str_or_int(&StringOrInt::String("Squads".to_string())),
        None
    );
    assert_eq!(
        PlayerTeams::from_str_or_int(&StringOrInt::Int(6)),
        Some(PlayerTeams::Teams { num_teams: 6 })
    );
    // Counts wider than a byte truncate, as the narrow column would.
    assert_eq!(
        PlayerTeams::from_str_or_int(&StringOrInt::Int(260)),
        Some(PlayerTeams::Teams { num_teams: 4 })
    );
}

#[test]
fn db_encoding_round_trips() {
    for t in [
        PlayerTeams::Ffa,
        PlayerTeams::Teams { num_teams: 7 },
        PlayerTeams::Parties { party_size: 3 },
    ] {
        assert_eq!(PlayerTeams::from_db_int(t.to_db_int()), t);
    }
    assert_eq!(PlayerTeams::Ffa.to_db_int(), 0);
    assert_eq!(PlayerTeams::Teams { num_teams: 7 }.to_db_int(), 7);
    assert_eq!(PlayerTeams::Parties { party_size: 3 }.to_db_int(), -3);
    assert_eq!(
        PlayerTeams::from_db_int(-4),
        PlayerTeams::Parties { party_size: 4 }
    );
    assert_eq!(PlayerTeams::from_db_int(i32::MIN), PlayerTeams::Parties { party_size: 0 });
}

#[test]
fn configs_without_a_team_field_are_free_for_all() {
    let cfg = GameConfig {
        game_map: "Europe".to_string(),
        game_type: "Public".to_string(),
        difficulty: "Medium".to_string(),
        disable_npcs: false,
        infinite_gold: false,
        infinite_troops: false,
        instant_build: false,
        game_mode: "FFA".to_string(),
        bots: 0,
        disabled_units: vec!["Nuke".to_string()],
        max_players: 50,
        player_teams: None,
    };
    assert!(cfg.has_valid_teams());
    assert_eq!(cfg.player_teams(), PlayerTeams::Ffa);

    let mut unknown = cfg.clone();
    unknown.player_teams = Some(StringOrInt::String("Swarms".to_string()));
    assert!(!unknown.has_valid_teams());

    let copy = cfg.duplicate();
    assert_eq!(copy.game_map, cfg.game_map);
    assert_eq!(copy.disabled_units, cfg.disabled_units);
}

#[test]
fn oauth_settings_need_both_credentials() {
    let mut cfg = base_config();
    assert!(cfg.get_discord_oauth().is_none());

    cfg.discord_client_id = Some("client123".to_string());
    assert!(cfg.get_discord_oauth().is_none());

    cfg.discord_client_secret = Some("SECRET-REDACTED".to_string());
    let bundle = cfg.get_discord_oauth().unwrap();
    assert_eq!(bundle.client_id, "client123");
    assert_eq!(bundle.redirect_uri, cfg.discord_redirect_uri);
}

#[test]
fn authorization_url_percent_encodes_its_parameters() {
    let bundle = OAuthBundle {
        client_id: "client123".to_string(),
        client_secret: "SECRET-REDACTED".to_string(),
        redirect_uri: "http://localhost:3000/oauth/discord/callback".to_string(),
    };
    let url = authorization_url("state/with space", &bundle);
    assert_eq!(
        url,
        "https://discord.com/api/oauth2/authorize?client_id=client123\
         &redirect_uri=http%3A%2F%2Flocalhost%3A3000%2Foauth%2Fdiscord%2Fcallback\
         &response_type=code&scope=identify+openid&state=state%2Fwith%20space"
    );
}

#[test]
fn task_plan_follows_the_toggles() {
    let mut cfg = base_config();
    // Ordinary tasks run by default; extras do not.
    assert!(cfg.task_enabled(ActiveTasks::LookForFinishedLobbies));
    assert!(cfg.task_enabled(ActiveTasks::LookForNewGamesInAnalysisQueue));
    assert!(!cfg.task_enabled(ActiveTasks::LookForOpenfrontLobbies));
    assert!(!cfg.task_enabled(ActiveTasks::PullLobbiesFromPROD));

    cfg.disable_tasks.push(ActiveTasks::LookForFinishedLobbies);
    cfg.extra_tasks.push(ActiveTasks::LookForOpenfrontLobbies);
    assert!(!cfg.task_enabled(ActiveTasks::LookForFinishedLobbies));
    assert!(cfg.task_enabled(ActiveTasks::LookForOpenfrontLobbies));
}

#[test]
fn task_settings_match_each_loop() {
    assert_eq!(task_settings(ActiveTasks::LookForOpenfrontLobbies).sleep_time_ms, 0);
    assert_eq!(
        task_settings(ActiveTasks::LookForNewGamesInAnalysisQueue).sleep_time_ms,
        5_000
    );
    assert_eq!(task_settings(ActiveTasks::LookForFinishedLobbies).sleep_time_ms, 300_000);
    assert_eq!(task_settings(ActiveTasks::LookForOldRunningGames).sleep_time_ms, 300_000);
    assert_eq!(task_settings(ActiveTasks::LookForTrackedPlayerGames).sleep_time_ms, 60_000);
    assert_eq!(task_settings(ActiveTasks::PullLobbiesFromPROD).sleep_time_ms, 3_600_000);
}
