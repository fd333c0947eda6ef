//! Rules, state machines and wire framing of a multiplayer trivia game,
//! with their contracts proved by Verus.

pub mod client;
pub mod framing;
pub mod game;
pub mod protocol;
pub mod questions;
pub mod scoring;
pub mod server;
pub mod text;
pub mod ui;
