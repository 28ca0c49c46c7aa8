//! What is remembered of each link between syncs.

use crate::clock::{is_utc, now_rfc3339};
use vstd::prelude::*;

verus! {

/// Where a link stands since its last sync.
#[derive(Debug, Clone)]
pub struct SyncState {
    pub link_id: String,
    pub last_local_snapshot: Option<String>,
    pub last_remote_revision: Option<String>,
    /// The base of the next three-point comparison.
    pub last_synced_snapshot_id: Option<String>,
    pub last_sync_at: Option<String>,
}

/// A conflict that waits for its resolution.
#[derive(Debug, Clone)]
pub struct ConflictRecord {
    pub link_id: String,
    pub file_path: String,
    pub local_hash: Option<String>,
    pub remote_hash: Option<String>,
    pub base_hash: Option<String>,
}

/// An entry of the sync log.
#[derive(Debug, Clone)]
pub struct SyncLogEntry {
    pub id: i64,
    pub link_id: String,
    pub action: String,
    pub status: String,
    pub message: Option<String>,
    pub created_at: String,
}

/// Whether a state says that both sides of a link are at `snapshot`, the remote one at `revision`.
pub open spec fn is_synced(
    state: SyncState,
    link_id: Seq<char>,
    snapshot: Seq<char>,
    revision: Option<String>,
) -> bool {
    &&& state.link_id@ == link_id
    &&& state.last_local_snapshot matches Some(s) && s@ == snapshot
    &&& state.last_synced_snapshot_id matches Some(s) && s@ == snapshot
    &&& state.last_remote_revision == revision
}

/// The snapshot that a link was last synced at.
pub open spec fn base_of(state: Option<SyncState>) -> Option<String> {
    match state {
        Some(s) => s.last_synced_snapshot_id,
        None => None,
    }
}

impl SyncState {
    /// The state right after a sync at the moment `at`: both sides are at `snapshot`.
    pub fn synced_at(
        link_id: &str,
        snapshot: &str,
        revision: Option<String>,
        at: String,
    ) -> (r: Self)
        ensures
            is_synced(r, link_id@, snapshot@, revision),
            r.last_sync_at == Some(at),
    {
        SyncState {
            link_id: link_id.to_owned(),
            last_local_snapshot: Some(snapshot.to_owned()),
            last_remote_revision: revision,
            last_synced_snapshot_id: Some(snapshot.to_owned()),
            last_sync_at: Some(at),
        }
    }

    /// The state right after a sync that ends now.
    pub fn synced(link_id: &str, snapshot: &str, revision: Option<String>) -> (r: Self)
        ensures
            is_synced(r, link_id@, snapshot@, revision),
            r.last_sync_at matches Some(at) && is_utc(at@),
    {
        SyncState::synced_at(link_id, snapshot, revision, now_rfc3339())
    }
}

/// The snapshot that a link was last synced at: the base of the next comparison.
pub fn base_snapshot(state: &Option<SyncState>) -> (r: Option<String>)
    ensures
        r == base_of(*state),
{
    match state {
        Some(s) => crate::sync::save::copy_option(&s.last_synced_snapshot_id),
        None => None,
    }
}

/// How many log entries are listed where the caller names no limit.
pub const DEFAULT_LOG_LIMIT: usize = 100;

/// How many log entries to list.
pub fn log_limit(limit: Option<usize>) -> (r: usize)
    ensures
        r == (match limit {
            Some(n) => n,
            None => DEFAULT_LOG_LIMIT,
        }),
{
    match limit {
        Some(n) => n,
        None => DEFAULT_LOG_LIMIT,
    }
}

// ---------------------------------------------------------------------------
// Laws
// ---------------------------------------------------------------------------

/// What a sync remembers is what the next one compares with: the base of a link that was just
/// synced is the snapshot that it was synced at. A link of which nothing is remembered has none.
pub proof fn the_last_sync_is_the_next_base(
    state: SyncState,
    link_id: Seq<char>,
    snapshot: Seq<char>,
    revision: Option<String>,
)
    requires
        is_synced(state, link_id, snapshot, revision),
    ensures
        base_of(Some(state)) matches Some(id) && id@ == snapshot,
        base_of(None) is None,
        state.link_id@ == link_id,
        state.last_local_snapshot matches Some(id) && id@ == snapshot,
        state.last_remote_revision == revision,
{
}

} // verus!
