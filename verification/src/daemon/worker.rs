//! The daemon's jobs.

use vstd::prelude::*;

verus! {

/// A job dispatched to a daemon worker.
#[derive(Debug, Clone)]
pub enum SyncJob {
    /// Push local changes for the given link to the remote.
    Push { link_id: String },
    /// Pull remote changes for the given link to the local directory.
    Pull { link_id: String },
}

} // verus!
