//! Authoritative state engine of a multiplayer text-protocol game server:
//! outbound packet framing, the attribute store, live world entities and
//! their command handlers, turn-based combat bookkeeping and the dispatcher
//! that serialises every mutation of shared state.

pub mod action;
pub mod combat;
pub mod connection;
pub mod dice;
pub mod dispatcher;
pub mod display;
pub mod entities;
pub mod error;
pub mod handlers;
pub mod init;
pub mod json;
pub mod loot;
pub mod player;
pub mod playerout;
pub mod position;
pub mod scene;
pub mod stats;
pub mod text;
pub mod world;
