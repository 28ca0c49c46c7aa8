//! The background daemon's decisions.

pub mod manager;
pub mod server;
pub mod worker;
