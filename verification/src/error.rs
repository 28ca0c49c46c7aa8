//! The errors of the library.

use crate::text::join2;
use vstd::prelude::*;

verus! {

/// What can go wrong. Failures of the file system, of SQLite and of the store are carried as the
/// text that describes them.
#[derive(Debug)]
pub enum SyncorError {
    Io(String),
    Sqlite(String),
    Chkpt(String),
    Git(String),
    Config(String),
    LinkNotFound(String),
    LinkAlreadyExists(String),
    Transport(String),
    Conflict(String),
    LockHeld,
    DaemonNotRunning,
    Other(String),
}

/// The library's results.
pub type Result<T> = std::result::Result<T, SyncorError>;

impl SyncorError {
    /// The text that describes an error.
    pub open spec fn text(&self) -> Seq<char> {
        match *self {
            SyncorError::Io(e) => "IO error: "@ + e@,
            SyncorError::Sqlite(e) => "SQLite error: "@ + e@,
            SyncorError::Chkpt(e) => "chkpt error: "@ + e@,
            SyncorError::Git(e) => "git error: "@ + e@,
            SyncorError::Config(e) => "config error: "@ + e@,
            SyncorError::LinkNotFound(e) => "link not found: "@ + e@,
            SyncorError::LinkAlreadyExists(e) => "link already exists: "@ + e@,
            SyncorError::Transport(e) => "transport error: "@ + e@,
            SyncorError::Conflict(e) => "conflict: "@ + e@,
            SyncorError::LockHeld => "lock held by another process"@,
            SyncorError::DaemonNotRunning => "daemon not running"@,
            SyncorError::Other(e) => e@,
        }
    }

    /// The text that describes the error.
    pub fn message(&self) -> (r: String)
        ensures
            r@ == self.text(),
    {
        match self {
            SyncorError::Io(e) => join2("IO error: ", e.as_str()),
            SyncorError::Sqlite(e) => join2("SQLite error: ", e.as_str()),
            SyncorError::Chkpt(e) => join2("chkpt error: ", e.as_str()),
            SyncorError::Git(e) => join2("git error: ", e.as_str()),
            SyncorError::Config(e) => join2("config error: ", e.as_str()),
            SyncorError::LinkNotFound(e) => join2("link not found: ", e.as_str()),
            SyncorError::LinkAlreadyExists(e) => join2("link already exists: ", e.as_str()),
            SyncorError::Transport(e) => join2("transport error: ", e.as_str()),
            SyncorError::Conflict(e) => join2("conflict: ", e.as_str()),
            SyncorError::LockHeld => "lock held by another process".to_owned(),
            SyncorError::DaemonNotRunning => "daemon not running".to_owned(),
            SyncorError::Other(e) => e.clone(),
        }
    }
}

// ---------------------------------------------------------------------------
// Laws
// ---------------------------------------------------------------------------

/// What an error says ends in what it carries, in full.
pub proof fn errors_say_what_they_carry(m: String)
    ensures
        SyncorError::Io(m).text() == "IO error: "@ + m@,
        SyncorError::Sqlite(m).text() == "SQLite error: "@ + m@,
        SyncorError::Chkpt(m).text() == "chkpt error: "@ + m@,
        SyncorError::Git(m).text() == "git error: "@ + m@,
        SyncorError::Config(m).text() == "config error: "@ + m@,
        SyncorError::LinkNotFound(m).text() == "link not found: "@ + m@,
        SyncorError::LinkAlreadyExists(m).text() == "link already exists: "@ + m@,
        SyncorError::Transport(m).text() == "transport error: "@ + m@,
        SyncorError::Conflict(m).text() == "conflict: "@ + m@,
        SyncorError::Other(m).text() == m@,
        SyncorError::LockHeld.text() == "lock held by another process"@,
        SyncorError::DaemonNotRunning.text() == "daemon not running"@,
{
}

} // verus!
