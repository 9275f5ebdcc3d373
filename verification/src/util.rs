//! Where the game runs.
pub mod env;
