//! Replacing, adding and unsharing archive files: the flags the loader
//! sets on file infos, the sharing tables, and the standalone-file queue.
pub mod extensions;
pub mod file_groups;
pub mod lookup;
pub mod preprocess;
pub mod resort;
pub mod threads;
pub mod unshare;
