//! A chess position model, a legal-move generator and an incremental minimax
//! search over the tree of successor positions, with every function verified.

pub mod board;
pub mod bot;
pub mod laws;
pub mod movegen;
pub mod notation;
pub mod piece;
pub mod play;
pub mod search;
pub mod show;
