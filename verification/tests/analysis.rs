use openfront_core::analysis::{
    display_events_from_rows, group_player_stats, DisplayEventRow, PlayerUpdateRow,
};

fn row(tick: i16, name: &str, packed: i16) -> PlayerUpdateRow {
    PlayerUpdateRow {
        tick,
        tiles_owned: packed,
        gold: packed,
        workers: packed,
        troops: packed,
        client_id: Some(format!("c_{name}")),
        name: name.to_string(),
    }
}

#[test]
fn stats_group_by_tick_in_row_order() {
    // The packed value -27081 decodes to 10, -21822 to roughly 100.
    let rows = vec![
        row(1, "ada", -27081),
        row(2, "ada", -21822),
        row(1, "bob", -27081),
    ];
    let grouped = group_player_stats(&rows);
    assert_eq!(grouped.player_stats_ticks.len(), 2);

    let tick1 = &grouped.player_stats_ticks[&1];
    assert_eq!(tick1.len(), 2);
    assert_eq!(tick1[0].name, "ada");
    assert_eq!(tick1[1].name, "bob");
    assert_eq!(tick1[0].tiles_owned, 10);
    assert_eq!(tick1[0].gold, 10);
    // Workers and troops shed their extra decimal digit.
    assert_eq!(tick1[0].workers, 1);
    assert_eq!(tick1[0].troops, 1);

    let tick2 = &grouped.player_stats_ticks[&2];
    assert_eq!(tick2.len(), 1);
    assert_eq!(tick2[0].tiles_owned, 100);
    assert_eq!(tick2[0].workers, 10);
    assert!(grouped.player_stats_ticks.get(&3).is_none());
}

#[test]
fn display_events_keep_order_and_fields() {
    let rows = vec![
        DisplayEventRow {
            tick: 4,
            message_type: "chat".to_string(),
            message: "hello".to_string(),
            small_id: 7,
            gold_amount: None,
            client_id: Some("c1".to_string()),
            name: "ada".to_string(),
        },
        DisplayEventRow {
            tick: 9,
            message_type: "gold".to_string(),
            message: "bonus".to_string(),
            small_id: 8,
            gold_amount: Some(250),
            client_id: None,
            name: "bob".to_string(),
        },
    ];
    let res = display_events_from_rows(&rows);
    assert_eq!(res.events.len(), 2);
    assert_eq!(res.events[0].tick, 4);
    assert_eq!(res.events[0].message, "hello");
    assert_eq!(res.events[0].small_id, 7);
    assert_eq!(res.events[1].gold_amount, Some(250));
    assert_eq!(res.events[1].client_id, None);
    assert_eq!(res.events[1].name, "bob");
}
