use vstd::prelude::*;

verus! {

/// A player's or entity's transform. Each coordinate is the bit pattern of a
/// 32-bit IEEE-754 float, which the relay forwards as it came.
#[derive(Clone, Copy, Debug, PartialEq, Eq)]
pub struct Position {
    pub x: u32,
    pub y: u32,
    pub z: u32,
    pub rotation: Option<u32>,
}

/// A world object snapshot.
#[derive(Clone, Debug, PartialEq, Eq)]
pub struct Entity {
    pub id: String,
    pub entity_type: String,
    pub position: Position,
    pub state: Option<String>,
}

/// One message of the wire protocol, by kind.
#[derive(Clone, Debug, PartialEq, Eq)]
pub enum GameMessage {
    Join { player_id: Option<String>, room_id: Option<String>, create_room: Option<bool> },
    Leave { player_id: String },
    Chat { player_id: String, text: String },
    PlayerUpdate { player_id: String, position: Position, action: Option<String> },
    WorldUpdate { entities: Vec<Entity> },
    Error { message: String },
    Ping { time: u64 },
    Pong { time: u64 },
}

} // verus!
