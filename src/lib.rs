//! Room and session coordination for a real-time multiplayer game server.

pub mod game_objects;
pub mod map;
pub mod random;
pub mod text;
pub mod json;
pub mod events;
pub mod message;
pub mod room;
pub mod server;
pub mod session;
