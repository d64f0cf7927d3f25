//! A falling-block puzzle engine: board, piece catalog, randomizer, movement,
//! line clearing, scoring, holding and game-over detection, with contracts
//! proved by Verus.

pub mod board;
pub mod config;
pub mod game;
pub mod pieces;

