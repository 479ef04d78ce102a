//! What holds of the store as a whole.

pub mod disk;
pub mod durability;
pub mod execution;
pub mod files;
pub mod keys;
pub mod listing;
pub mod migration;
pub mod names;
pub mod outcome;
pub mod protocol;
pub mod state;
pub mod store;
pub mod tree;
pub mod views;
pub mod world;
