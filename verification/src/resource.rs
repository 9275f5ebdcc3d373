//! The game's resource service: its containers and the tables of loaded files.
pub mod containers;
pub mod types;
