//! Verified core of a mod loader for a data archive: hash keys, path rules,
//! command parsing, offset discovery and the in-memory tables it patches.

pub mod hashing;
pub mod path;
pub mod modfs;
pub mod remote;
pub mod offsets;
pub mod region;
pub mod replacement_files;
pub mod visit;
pub mod util;
pub mod utils;
pub mod selector;
pub mod resource;
pub mod runtime;
pub mod replacement;
pub mod unsharing;
pub mod update;
