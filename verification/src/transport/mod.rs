//! Transports: how a store travels between machines.

use crate::error::Result;
use crate::link::LinkInfo;
use crate::progress::ProgressReporter;
use vstd::prelude::*;

pub mod flows;
pub mod git;
pub mod git_progress;
pub mod git_stream;

verus! {

/// A link that a remote repository offers.
#[derive(Debug, Clone)]
pub struct RemoteLinkInfo {
    pub name: String,
    pub created_at: String,
}

/// Why a transport could not go on by itself.
#[derive(Debug)]
pub struct ConflictInfo {
    pub message: String,
}

/// What came of a push.
#[derive(Debug)]
pub enum PushResult {
    Success { revision: String },
    Conflict { details: ConflictInfo },
}

/// What came of a pull.
#[derive(Debug)]
pub enum PullResult {
    Success { revision: String },
    UpToDate,
    Conflict { details: ConflictInfo },
}

/// A way to carry a store to other machines and back. What a call may come to is the transport's
/// own affair: each has a relation between the arguments and the outcomes of its calls, and one
/// that says nothing of it may come to anything.
pub trait SyncTransport: Send + Sync {
    /// Whether setting up the remote side of a link may come to `r`.
    open spec fn may_init(&self, link: LinkInfo, r: Result<()>) -> bool {
        true
    }

    /// Whether a push of the store at `store_path` may come to `r`.
    open spec fn may_push(&self, link: LinkInfo, store_path: Seq<char>, r: Result<PushResult>) -> bool {
        true
    }

    /// Whether a pull of the store at `store_path` may come to `r`.
    open spec fn may_pull(&self, link: LinkInfo, store_path: Seq<char>, r: Result<PullResult>) -> bool {
        true
    }

    fn init_remote(&self, link: &LinkInfo, reporter: &dyn ProgressReporter) -> (r: Result<()>)
        ensures
            self.may_init(*link, r),
    ;

    fn push(
        &self,
        link: &LinkInfo,
        store_path: &str,
        reporter: &dyn ProgressReporter,
    ) -> (r: Result<PushResult>)
        ensures
            self.may_push(*link, store_path@, r),
    ;

    fn pull(
        &self,
        link: &LinkInfo,
        store_path: &str,
        reporter: &dyn ProgressReporter,
    ) -> (r: Result<PullResult>)
        ensures
            self.may_pull(*link, store_path@, r),
    ;

    fn list_remote_links(&self, repo: &str, reporter: &dyn ProgressReporter) -> Result<
        Vec<RemoteLinkInfo>,
    >;

    fn has_remote_changes(&self, link: &LinkInfo, reporter: &dyn ProgressReporter) -> Result<bool>;
}

} // verus!
