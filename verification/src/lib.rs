//! Engine of a turn-based planting game.
//!
//! A player places plant instances from a hand onto a fixed-size board,
//! advances rounds that age every occupied cell, and collects points and
//! freshly dropped instances when a plant matures.  The terminal shell
//! around this crate only feeds commands in and reads state out; every
//! rule of the game lives here.

pub mod config;
pub mod plants;
pub mod drops;
pub mod board;
pub mod hand;
pub mod game;
pub mod laws;
mod rng;
