//! Cross-machine directory sync: the decisions, verified.

pub mod cli;
pub mod clock;
pub mod config;
pub mod daemon;
pub mod digest;
pub mod display;
pub mod error;
pub mod link;
pub mod path;
pub mod progress;
pub mod sort;
pub mod sync;
pub mod text;
pub mod text_map;
pub mod transport;
pub mod unicode;
pub mod watch;
