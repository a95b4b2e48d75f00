//! A Skip-Bo-style card game engine with scripted strategies.
//!
//! The library models card values, per-player state, the shared playing
//! field, legal-move enumeration, move application, the per-turn state
//! machine, and three decision strategies that pick moves from the legal
//! list. A small driver plays whole matches and tallies wins.

pub mod cards;
pub mod move_stack;
pub mod players;
pub mod rng;
pub mod simple_player;
pub mod bad_player;
pub mod game;
pub mod good_player;
pub mod sim;
