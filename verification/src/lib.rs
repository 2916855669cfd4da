//! Noughts and crosses on a 3×3 board: positions, the rules of play and an
//! exhaustive minimax search, each with a machine-checked contract.

pub mod board;
pub mod input;
pub mod laws;
pub mod rules;
pub mod search;
