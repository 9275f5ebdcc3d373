//! Where the game runs, where the loader keeps its files, and what the save
//! data says about the player's language.
pub mod env;
pub mod paths;
pub mod save;
