//! Core of a transparent file version tracker: a content-addressed snapshot
//! store, an append-only history index with a last-entry-per-file view,
//! trimming and orphan collection, path matching, and the pure decision
//! logic of the scanner, the watcher and the engine facade.

pub mod config;
pub mod diff;
pub mod engine;
pub mod hashing;
pub mod scanner;
pub mod storage;
pub mod path_util;
pub mod text;
pub mod tree;
pub mod watcher;
pub mod types;
