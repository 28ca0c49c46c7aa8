//! Noticing changes: local ones as they happen, remote ones by polling.

pub mod poller;
pub mod watcher;
