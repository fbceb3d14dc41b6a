//! A verified package lifecycle engine for game content modifications:
//! per-profile package identity, manifest indexing, file-ownership tracking,
//! conflict detection, the install/uninstall state machine with its
//! dependency worklist, and whole-directory snapshots.

pub mod archive;
pub mod config;
pub mod conflict;
pub mod engine;
pub mod errors;
pub mod ids;
pub mod index_store;
pub mod pkg_cache;
pub mod profile;
pub mod registry;
pub mod remote;
pub mod snapshot;
pub mod text;
