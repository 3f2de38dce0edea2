//! Requests to the room registry, and the text sent to one connection.
use vstd::prelude::*;

verus! {

/// One text frame for one connection.
pub struct Message(pub String);

/// Join the room `game_name`; `player` is the connection that receives the room's frames.
pub struct JoinGame {
    pub game_name: String,
    pub player: u64,
}

/// Create a room with a fresh code and join it.
pub struct CreateGame {
    pub player: u64,
}

pub struct LeaveGame {
    pub game_name: String,
    pub player_id: String,
}

/// Room-wide state from the leader; `payload` is the JSON text of an object.
pub struct GameState {
    pub game_name: String,
    pub sender_id: String,
    pub secret: String,
    pub payload: String,
}

pub struct StartGame {
    pub game_name: String,
    pub sender_id: String,
    pub secret: String,
}

pub struct ListGames;

/// Text for every other player of the room.
pub struct GameMessage {
    pub game_name: String,
    pub message: String,
    pub sender_id: String,
}

} // verus!
