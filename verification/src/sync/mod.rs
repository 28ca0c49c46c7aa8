//! The sync engine's decisions.

pub mod conflict;
pub mod engine;
pub mod mirror;
pub mod pulling;
pub mod repo;
pub mod restore;
pub mod save;
pub mod state;
pub mod syncing;
