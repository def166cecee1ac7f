//! Reconstruction of folder-navigation history from the binary "shell bag"
//! records kept in a hierarchical key-value store, together with the smaller
//! forensic text and byte utilities that share the same store.
//!
//! The heart of the crate is the shell-bag engine: a decoder that turns an
//! opaque byte blob into a typed shell item, a walker that assembles a tree of
//! such items from a snapshot of the store while cross-checking the declared
//! visit order, and builders that turn the tree into display paths, timeline
//! events and collapsed folder lists.

pub mod analyzer;
pub mod backup;
pub mod bagpath;
pub mod bags;
pub mod browserx;
pub mod collapse;
pub mod date;
pub mod device;
pub mod emitter;
pub mod encode;
pub mod guid;
pub mod item;
pub mod minidat;
pub mod steam;
pub mod steamtree;
pub mod store;
pub mod timeline;
pub mod usn;
pub mod utils;
pub mod vmdetect;
pub mod strutil;
pub mod windows_info;
