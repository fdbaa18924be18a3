//! The Zappy game server's rules: command-line configuration, the map and
//! its resources, players and their queued actions, and the protocol
//! replies to players and graphical observers.
use vstd::prelude::*;

pub mod action;
pub mod config;
pub mod data;
pub mod game;
pub mod server;
pub mod text;

verus! {
} // verus!
