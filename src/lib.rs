//! A falling-block puzzle game: the play field, the piece catalog, collision
//! detection, row clearing and the game's state machine, with their contracts.

pub mod field;
pub mod game;
pub mod piece;
