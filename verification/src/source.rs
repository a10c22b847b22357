//! Types of the external game source: the open-lobby listing the pipeline
//! polls, as plain values.

use vstd::prelude::*;

use crate::teams::{GameConfig, GameConfigV};

verus! {

/// One open lobby as the source reports it.
#[derive(Debug, Clone)]
pub struct Lobby {
    pub game_id: String,
    pub num_clients: i32,
    pub game_config: GameConfig,
    pub ms_until_start: u64,
}

/// Mathematical image of a [`Lobby`].
#[verifier::ext_equal]
pub struct LobbyV {
    pub game_id: Seq<char>,
    pub num_clients: i32,
    pub game_config: GameConfigV,
    pub ms_until_start: u64,
}

impl View for Lobby {
    type V = LobbyV;

    open spec fn view(&self) -> LobbyV {
        LobbyV {
            game_id: self.game_id@,
            num_clients: self.num_clients,
            game_config: self.game_config@,
            ms_until_start: self.ms_until_start,
        }
    }
}

/// The source's response to a listing of open lobbies. Its head, when there
/// is one, is the currently open lobby.
#[derive(Debug, Clone)]
pub struct PublicLobbiesResponse {
    pub lobbies: Vec<Lobby>,
}

} // verus!
