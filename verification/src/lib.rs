//! Ordering, locking and naming rules of a key-value store that keeps each value in a file.

pub mod action;
pub mod error;
pub mod execution;
pub mod laws;
pub mod listing;
pub mod locks;
pub mod migration;
pub mod namespace;
pub mod operation;
pub mod path;
pub mod read;
pub mod state;
pub mod store;
pub mod text;
