//! Team-mode handling for lobbies: the `PlayerTeams` tagged variant, how the
//! lobby source reports it (a string such as "Duos", or a team count), and
//! how the store encodes it (a single signed integer).

use vstd::prelude::*;

verus! {

/// How the players of a lobby are grouped.
#[derive(Debug, Clone, Copy, PartialEq, Eq, Structural)]
pub enum PlayerTeams {
    /// Free for all: no teams. Stored as 0.
    Ffa,
    /// A fixed number of teams. Stored as that positive count.
    Teams { num_teams: u8 },
    /// Fixed-size parties. Stored as the negated party size.
    Parties { party_size: u8 },
}

/// A value that the lobby source may report either as a string or as an
/// integer.
#[derive(Debug, Clone)]
pub enum StringOrInt {
    String(String),
    Int(i32),
}

/// Mathematical image of a [`StringOrInt`].
#[verifier::ext_equal]
pub enum StringOrIntV {
    Str(Seq<char>),
    Int(i32),
}

impl View for StringOrInt {
    type V = StringOrIntV;

    open spec fn view(&self) -> StringOrIntV {
        match self {
            StringOrInt::String(s) => StringOrIntV::Str(s@),
            StringOrInt::Int(i) => StringOrIntV::Int(*i),
        }
    }
}

/// What `PlayerTeams::from_str_or_int` yields: the party names "Duos",
/// "Trios" and "Quads" map to parties of 2, 3 and 4; any other string is
/// rejected; an integer is a team count, truncated to eight bits.
pub open spec fn from_str_or_int_spec(s: StringOrIntV) -> Option<PlayerTeams> {
    match s {
        StringOrIntV::Str(f) => if f == "Duos"@ {
            Some(PlayerTeams::Parties { party_size: 2 })
        } else if f == "Trios"@ {
            Some(PlayerTeams::Parties { party_size: 3 })
        } else if f == "Quads"@ {
            Some(PlayerTeams::Parties { party_size: 4 })
        } else {
            None
        },
        StringOrIntV::Int(i) => Some(PlayerTeams::Teams { num_teams: i as u8 }),
    }
}

/// String equality by characters.
pub fn str_eq(a: &str, b: &str) -> (r: bool)
    ensures
        r == (a@ == b@),
{
    let a_owned: String = a.to_owned();
    let b_owned: String = b.to_owned();
    a_owned == b_owned
}

impl PlayerTeams {
    /// Parse the team mode as the lobby source reports it.
    pub fn from_str_or_int(s: &StringOrInt) -> (r: Option<Self>)
        ensures
            r == from_str_or_int_spec(s@),
    {
        match s {
            StringOrInt::String(f) => {
                if str_eq(f.as_str(), "Duos") {
                    Some(PlayerTeams::Parties { party_size: 2 })
                } else if str_eq(f.as_str(), "Trios") {
                    Some(PlayerTeams::Parties { party_size: 3 })
                } else if str_eq(f.as_str(), "Quads") {
                    Some(PlayerTeams::Parties { party_size: 4 })
                } else {
                    None
                }
            },
            StringOrInt::Int(i) => Some(PlayerTeams::Teams { num_teams: *i as u8 }),
        }
    }

    /// The signed integer the store keeps for this mode.
    pub fn to_db_int(&self) -> (r: i32)
        ensures
            r == team_db_int(*self),
    {
        match *self {
            PlayerTeams::Ffa => 0,
            PlayerTeams::Teams { num_teams } => num_teams as i32,
            PlayerTeams::Parties { party_size } => -(party_size as i32),
        }
    }

    /// The mode a stored integer denotes: zero is free-for-all, a positive
    /// count is that many teams, a negative value is a party size.
    pub fn from_db_int(num_teams: i32) -> (r: Self)
        ensures
            r == team_of_db_int(num_teams),
    {
        if num_teams == 0 {
            PlayerTeams::Ffa
        } else if num_teams < 0 {
            PlayerTeams::Parties { party_size: (-(num_teams as i64)) as u8 }
        } else {
            PlayerTeams::Teams { num_teams: num_teams as u8 }
        }
    }
}

/// The store encoding of a team mode.
pub open spec fn team_db_int(t: PlayerTeams) -> int {
    match t {
        PlayerTeams::Ffa => 0,
        PlayerTeams::Teams { num_teams } => num_teams as int,
        PlayerTeams::Parties { party_size } => -(party_size as int),
    }
}

/// The team mode a store integer decodes to, truncating to eight bits as the
/// store never holds wider counts.
pub open spec fn team_of_db_int(num_teams: i32) -> PlayerTeams {
    if num_teams == 0 {
        PlayerTeams::Ffa
    } else if num_teams < 0 {
        PlayerTeams::Parties { party_size: (-(num_teams as i64)) as u8 }
    } else {
        PlayerTeams::Teams { num_teams: num_teams as u8 }
    }
}

/// Every encodable mode decodes back to itself.
pub proof fn lemma_team_db_int_round_trip(t: PlayerTeams)
    requires
        t matches PlayerTeams::Teams { num_teams } ==> num_teams > 0,
        t matches PlayerTeams::Parties { party_size } ==> party_size > 0,
    ensures
        team_of_db_int(team_db_int(t) as i32) == t,
{
}

/// The settings of one lobby as the source reports them.
#[derive(Debug, Clone)]
pub struct GameConfig {
    pub game_map: String,
    pub game_type: String,
    pub difficulty: String,
    pub disable_npcs: bool,
    pub infinite_gold: bool,
    pub infinite_troops: bool,
    pub instant_build: bool,
    pub game_mode: String,
    pub bots: i32,
    pub disabled_units: Vec<String>,
    pub max_players: i32,
    pub player_teams: Option<StringOrInt>,
}

/// Mathematical image of a [`GameConfig`].
#[verifier::ext_equal]
pub struct GameConfigV {
    pub game_map: Seq<char>,
    pub game_type: Seq<char>,
    pub difficulty: Seq<char>,
    pub disable_npcs: bool,
    pub infinite_gold: bool,
    pub infinite_troops: bool,
    pub instant_build: bool,
    pub game_mode: Seq<char>,
    pub bots: i32,
    pub disabled_units: Seq<Seq<char>>,
    pub max_players: i32,
    pub player_teams: Option<StringOrIntV>,
}

impl View for GameConfig {
    type V = GameConfigV;

    open spec fn view(&self) -> GameConfigV {
        GameConfigV {
            game_map: self.game_map@,
            game_type: self.game_type@,
            difficulty: self.difficulty@,
            disable_npcs: self.disable_npcs,
            infinite_gold: self.infinite_gold,
            infinite_troops: self.infinite_troops,
            instant_build: self.instant_build,
            game_mode: self.game_mode@,
            bots: self.bots,
            disabled_units: self.disabled_units.deep_view(),
            max_players: self.max_players,
            player_teams: match &self.player_teams {
                None => None,
                Some(s) => Some(s@),
            },
        }
    }
}

/// The team mode a config denotes: absent means free-for-all, anything else
/// parses by `from_str_or_int_spec`. Unset when the string is unrecognized.
pub open spec fn player_teams_spec(c: GameConfigV) -> Option<PlayerTeams> {
    match c.player_teams {
        None => Some(PlayerTeams::Ffa),
        Some(s) => from_str_or_int_spec(s),
    }
}

/// Whether a config's team mode parses.
pub open spec fn valid_teams(c: GameConfigV) -> bool {
    player_teams_spec(c) is Some
}

impl GameConfig {
    /// The team mode of this config. Callers must have checked that the
    /// reported mode parses; an unrecognized mode string has no team mode.
    pub fn player_teams(&self) -> (r: PlayerTeams)
        requires
            valid_teams(self@),
        ensures
            Some(r) == player_teams_spec(self@),
    {
        match &self.player_teams {
            None => PlayerTeams::Ffa,
            Some(s) => PlayerTeams::from_str_or_int(s).unwrap(),
        }
    }

    /// Whether the reported team mode parses; a lobby whose mode does not is
    /// rejected before it reaches the store.
    pub fn has_valid_teams(&self) -> (r: bool)
        ensures
            r == valid_teams(self@),
    {
        match &self.player_teams {
            None => true,
            Some(s) => PlayerTeams::from_str_or_int(s).is_some(),
        }
    }

    /// A copy of this config, field by field.
    pub fn duplicate(&self) -> (r: Self)
        ensures
            r@ == self@,
    {
        let r = GameConfig {
            game_map: self.game_map.clone(),
            game_type: self.game_type.clone(),
            difficulty: self.difficulty.clone(),
            disable_npcs: self.disable_npcs,
            infinite_gold: self.infinite_gold,
            infinite_troops: self.infinite_troops,
            instant_build: self.instant_build,
            game_mode: self.game_mode.clone(),
            bots: self.bots,
            disabled_units: clone_string_vec(&self.disabled_units),
            max_players: self.max_players,
            player_teams: clone_team_field(&self.player_teams),
        };
        proof {
            assert(r@ =~= self@);
        }
        r
    }
}

fn clone_string_vec(v: &Vec<String>) -> (r: Vec<String>)
    ensures
        r@ == v@,
{
    let mut out: Vec<String> = Vec::new();
    let mut i: usize = 0;
    while i < v.len()
        invariant
            i <= v.len(),
            out@ == v@.take(i as int),
        decreases v.len() - i,
    {
        out.push(v[i].clone());
        proof {
            assert(out@ =~= v@.take(i + 1 as int));
        }
        i = i + 1;
    }
    proof {
        assert(out@ =~= v@);
    }
    out
}

fn clone_team_field(v: &Option<StringOrInt>) -> (r: Option<StringOrInt>)
    ensures
        match (v, r) {
            (None, None) => true,
            (Some(a), Some(b)) => a@ == b@,
            _ => false,
        },
{
    match v {
        None => None,
        Some(StringOrInt::String(s)) => Some(StringOrInt::String(s.clone())),
        Some(StringOrInt::Int(i)) => Some(StringOrInt::Int(*i)),
    }
}

} // verus!
