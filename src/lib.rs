//! A flood-fill puzzle engine: deterministic grid generation, the region
//! flood from the origin cell, win detection and the move-budgeted round.

pub mod rng;
pub mod grid;
pub mod flood;
pub mod game;
pub mod input;
pub mod style;
