//! Assembly of per-game analysis read models: packed per-tick player
//! updates are decompressed and grouped by tick, and display events are
//! shaped for the read API.
//!
//! The rows arrive from the store as plain values; fetching them is the
//! callers' plumbing.

use vstd::prelude::*;

use crate::codec::{decompress_spec, decompress_value_from_db};

verus! {

/// One packed per-tick update of one player, as stored: the wide counters
/// are codec-compressed, and workers and troops carry one extra decimal
/// digit of fixed-point scale.
#[derive(Debug, Clone)]
pub struct PlayerUpdateRow {
    pub tick: i16,
    pub tiles_owned: i16,
    pub gold: i16,
    pub workers: i16,
    pub troops: i16,
    pub client_id: Option<String>,
    pub name: String,
}

/// Mathematical image of a [`PlayerUpdateRow`].
#[verifier::ext_equal]
pub struct PlayerUpdateRowV {
    pub tick: i16,
    pub tiles_owned: i16,
    pub gold: i16,
    pub workers: i16,
    pub troops: i16,
    pub client_id: Option<Seq<char>>,
    pub name: Seq<char>,
}

impl View for PlayerUpdateRow {
    type V = PlayerUpdateRowV;

    open spec fn view(&self) -> PlayerUpdateRowV {
        PlayerUpdateRowV {
            tick: self.tick,
            tiles_owned: self.tiles_owned,
            gold: self.gold,
            workers: self.workers,
            troops: self.troops,
            client_id: match &self.client_id {
                None => None,
                Some(c) => Some(c@),
            },
            name: self.name@,
        }
    }
}

/// One player's decompressed counters on one tick.
#[derive(Debug, Clone)]
pub struct PlayerStatsOnTick {
    pub client_id: Option<String>,
    pub name: String,
    pub tiles_owned: u64,
    pub gold: u64,
    pub workers: u64,
    pub troops: u64,
}

/// Mathematical image of a [`PlayerStatsOnTick`].
#[verifier::ext_equal]
pub struct PlayerStatsOnTickV {
    pub client_id: Option<Seq<char>>,
    pub name: Seq<char>,
    pub tiles_owned: int,
    pub gold: int,
    pub workers: int,
    pub troops: int,
}

impl View for PlayerStatsOnTick {
    type V = PlayerStatsOnTickV;

    open spec fn view(&self) -> PlayerStatsOnTickV {
        PlayerStatsOnTickV {
            client_id: match &self.client_id {
                None => None,
                Some(c) => Some(c@),
            },
            name: self.name@,
            tiles_owned: self.tiles_owned as int,
            gold: self.gold as int,
            workers: self.workers as int,
            troops: self.troops as int,
        }
    }
}

/// The decompressed stats a packed row denotes: tiles and gold decode
/// directly, workers and troops shed their extra decimal digit.
pub open spec fn stats_of_row(r: PlayerUpdateRowV) -> PlayerStatsOnTickV {
    PlayerStatsOnTickV {
        client_id: r.client_id,
        name: r.name,
        tiles_owned: decompress_spec(r.tiles_owned),
        gold: decompress_spec(r.gold),
        workers: decompress_spec(r.workers) / 10,
        troops: decompress_spec(r.troops) / 10,
    }
}

/// The stats of all rows on one tick, in row order.
pub open spec fn stats_for_tick(rows: Seq<PlayerUpdateRowV>, t: u16) -> Seq<PlayerStatsOnTickV> {
    rows.filter(|r: PlayerUpdateRowV| r.tick as u16 == t).map_values(
        |r: PlayerUpdateRowV| stats_of_row(r),
    )
}

/// Per-game player stats, grouped by tick.
#[derive(Debug)]
pub struct ResStatsOverGame {
    pub player_stats_ticks: std::collections::HashMap<u16, Vec<PlayerStatsOnTick>>,
}

/// Decompress one packed row.
pub fn stats_from_row(row: &PlayerUpdateRow) -> (s: PlayerStatsOnTick)
    ensures
        s@ == stats_of_row(row@),
{
    PlayerStatsOnTick {
        client_id: match &row.client_id {
            None => None,
            Some(c) => Some(c.clone()),
        },
        name: row.name.clone(),
        tiles_owned: decompress_value_from_db(row.tiles_owned),
        gold: decompress_value_from_db(row.gold),
        workers: decompress_value_from_db(row.workers) / 10,
        troops: decompress_value_from_db(row.troops) / 10,
    }
}

proof fn lemma_stats_push(rows: Seq<PlayerUpdateRowV>, x: PlayerUpdateRowV, t: u16)
    ensures
        stats_for_tick(rows.push(x), t) == if x.tick as u16 == t {
            stats_for_tick(rows, t).push(stats_of_row(x))
        } else {
            stats_for_tick(rows, t)
        },
{
    let pred = |r: PlayerUpdateRowV| r.tick as u16 == t;
    let pushed = rows.push(x);
    assert(pushed.drop_last() =~= rows);
    assert(pushed.last() == x);
    reveal_with_fuel(Seq::filter, 2);
    if pred(x) {
        assert(pushed.filter(pred) == rows.filter(pred).push(x));
        assert(pushed.filter(pred).map_values(|r: PlayerUpdateRowV| stats_of_row(r))
            =~= rows.filter(pred).map_values(|r: PlayerUpdateRowV| stats_of_row(r)).push(
            stats_of_row(x),
        ));
    } else {
        assert(pushed.filter(pred) == rows.filter(pred));
    }
}

/// Group the packed updates of one game by tick, decompressing each row.
/// Every tick that occurs in the rows gets a bucket holding exactly its
/// rows' stats, in row order.
pub fn group_player_stats(rows: &Vec<PlayerUpdateRow>) -> (r: ResStatsOverGame)
    ensures
        forall|t: u16| #[trigger]
            r.player_stats_ticks@.contains_key(t) <==> stats_for_tick(
                rows@.map_values(|x: PlayerUpdateRow| x@),
                t,
            ).len() != 0,
        forall|t: u16| #[trigger]
            r.player_stats_ticks@.contains_key(t) ==> r.player_stats_ticks@[t]@.map_values(
                |s: PlayerStatsOnTick| s@,
            ) == stats_for_tick(rows@.map_values(|x: PlayerUpdateRow| x@), t),
{
    let ghost all = rows@.map_values(|x: PlayerUpdateRow| x@);
    let mut map: std::collections::HashMap<u16, Vec<PlayerStatsOnTick>> =
        std::collections::HashMap::new();
    let n = rows.len();
    let mut i: usize = 0;
    proof {
        assert(all.take(0) =~= Seq::<PlayerUpdateRowV>::empty());
        assert forall|t: u16| !(#[trigger] stats_for_tick(all.take(0), t).len() != 0) by {
            reveal_with_fuel(Seq::filter, 1);
        }
    }
    while i < n
        invariant
            i <= n,
            n == rows@.len(),
            all == rows@.map_values(|x: PlayerUpdateRow| x@),
            vstd::std_specs::hash::obeys_key_model::<u16>(),
            vstd::std_specs::hash::builds_valid_hashers::<std::hash::RandomState>(),
            forall|t: u16| #[trigger]
                map@.contains_key(t) <==> stats_for_tick(all.take(i as int), t).len() != 0,
            forall|t: u16| #[trigger]
                map@.contains_key(t) ==> map@[t]@.map_values(|s: PlayerStatsOnTick| s@)
                    == stats_for_tick(all.take(i as int), t),
        decreases n - i,
    {
        let row = &rows[i];
        let tick: u16 = row.tick as u16;
        let stats = stats_from_row(row);
        let ghost before = map@;
        let mut bucket: Vec<PlayerStatsOnTick> = match map.remove(&tick) {
            Some(v) => v,
            None => Vec::new(),
        };
        let ghost bucket0 = bucket@;
        bucket.push(stats);
        map.insert(tick, bucket);
        proof {
            let prefix = all.take(i as int);
            let longer = all.take(i + 1);
            assert(longer =~= prefix.push(all[i as int]));
            assert(all[i as int] == rows@[i as int]@);
            assert forall|t: u16| #[trigger]
                map@.contains_key(t) <==> stats_for_tick(longer, t).len() != 0 by {
                lemma_stats_push(prefix, all[i as int], t);
            }
            assert forall|t: u16| #[trigger]
                map@.contains_key(t) implies map@[t]@.map_values(|s: PlayerStatsOnTick| s@)
                == stats_for_tick(longer, t) by {
                lemma_stats_push(prefix, all[i as int], t);
                if t == tick {
                    if before.contains_key(tick) {
                        assert(bucket0 == before[tick]@);
                    } else {
                        assert(stats_for_tick(prefix, tick).len() == 0);
                        assert(bucket0 =~= Seq::<PlayerStatsOnTick>::empty());
                    }
                    assert(map@[t]@ =~= bucket0.push(stats));
                    assert(map@[t]@.map_values(|s: PlayerStatsOnTick| s@) =~= bucket0.map_values(
                        |s: PlayerStatsOnTick| s@,
                    ).push(stats@));
                }
            }
        }
        i = i + 1;
    }
    proof {
        assert(all.take(n as int) =~= all);
    }
    ResStatsOverGame { player_stats_ticks: map }
}

/// One display event row as stored, joined with its player.
#[derive(Debug, Clone)]
pub struct DisplayEventRow {
    pub tick: i16,
    pub message_type: String,
    pub message: String,
    pub small_id: i16,
    pub gold_amount: Option<i32>,
    pub client_id: Option<String>,
    pub name: String,
}

/// Mathematical image of a [`DisplayEventRow`].
#[verifier::ext_equal]
pub struct DisplayEventRowV {
    pub tick: i16,
    pub message_type: Seq<char>,
    pub message: Seq<char>,
    pub small_id: i16,
    pub gold_amount: Option<i32>,
    pub client_id: Option<Seq<char>>,
    pub name: Seq<char>,
}

impl View for DisplayEventRow {
    type V = DisplayEventRowV;

    open spec fn view(&self) -> DisplayEventRowV {
        DisplayEventRowV {
            tick: self.tick,
            message_type: self.message_type@,
            message: self.message@,
            small_id: self.small_id,
            gold_amount: self.gold_amount,
            client_id: match &self.client_id {
                None => None,
                Some(c) => Some(c@),
            },
            name: self.name@,
        }
    }
}

/// One display event of the read API.
#[derive(Debug, Clone)]
pub struct DisplayEvent {
    pub tick: u16,
    pub message_type: String,
    pub message: String,
    pub small_id: u16,
    pub gold_amount: Option<i32>,
    pub client_id: Option<String>,
    pub name: String,
}

/// Mathematical image of a [`DisplayEvent`].
#[verifier::ext_equal]
pub struct DisplayEventV {
    pub tick: u16,
    pub message_type: Seq<char>,
    pub message: Seq<char>,
    pub small_id: u16,
    pub gold_amount: Option<i32>,
    pub client_id: Option<Seq<char>>,
    pub name: Seq<char>,
}

impl View for DisplayEvent {
    type V = DisplayEventV;

    open spec fn view(&self) -> DisplayEventV {
        DisplayEventV {
            tick: self.tick,
            message_type: self.message_type@,
            message: self.message@,
            small_id: self.small_id,
            gold_amount: self.gold_amount,
            client_id: match &self.client_id {
                None => None,
                Some(c) => Some(c@),
            },
            name: self.name@,
        }
    }
}

/// The event a stored row denotes: the stored narrow integers widen to the
/// unsigned forms the API reports.
pub open spec fn event_of_row(r: DisplayEventRowV) -> DisplayEventV {
    DisplayEventV {
        tick: r.tick as u16,
        message_type: r.message_type,
        message: r.message,
        small_id: r.small_id as u16,
        gold_amount: r.gold_amount,
        client_id: r.client_id,
        name: r.name,
    }
}

/// The display events of one game, in store order.
#[derive(Debug)]
pub struct ResDisplayEventsOverGame {
    pub events: Vec<DisplayEvent>,
}

/// Shape one game's display event rows for the read API, in order.
pub fn display_events_from_rows(rows: &Vec<DisplayEventRow>) -> (r: ResDisplayEventsOverGame)
    ensures
        r.events@.map_values(|e: DisplayEvent| e@) == rows@.map_values(
            |x: DisplayEventRow| event_of_row(x@),
        ),
{
    let mut events: Vec<DisplayEvent> = Vec::new();
    let n = rows.len();
    let mut i: usize = 0;
    while i < n
        invariant
            i <= n,
            n == rows@.len(),
            events@.len() == i,
            forall|j: int| 0 <= j < i ==> (#[trigger] events@[j])@ == event_of_row(rows@[j]@),
        decreases n - i,
    {
        let row = &rows[i];
        let ev = DisplayEvent {
            tick: row.tick as u16,
            message_type: row.message_type.clone(),
            message: row.message.clone(),
            small_id: row.small_id as u16,
            gold_amount: row.gold_amount,
            client_id: match &row.client_id {
                None => None,
                Some(c) => Some(c.clone()),
            },
            name: row.name.clone(),
        };
        proof {
            assert(ev@ =~= event_of_row(rows@[i as int]@));
        }
        events.push(ev);
        i = i + 1;
    }
    proof {
        assert(events@.map_values(|e: DisplayEvent| e@) =~= rows@.map_values(
            |x: DisplayEventRow| event_of_row(x@),
        ));
    }
    ResDisplayEventsOverGame { events }
}

} // verus!
