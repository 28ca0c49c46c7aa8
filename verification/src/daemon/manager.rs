//! Starting and stopping the daemon.

use crate::config::{SyncorConfig, SyncorPaths};
use crate::text::{
    decimal, decimal_reads_back, decimal_text, is_blank, is_digit, is_space, join2, join3, number,
    padding_is_trimmed, parse_signed, signed, trim, trimmed, trimmed_end, trimmed_start, unsigned,
};
use vstd::prelude::*;

verus! {

/// Manages the lifecycle of the Syncor daemon process.
#[derive(Debug)]
pub struct DaemonManager {
    paths: SyncorPaths,
    config: SyncorConfig,
}

/// What the PID file of a process holds.
pub open spec fn pid_file_text(pid: nat) -> Seq<char> {
    decimal(pid) + "\n"@
}

/// The process that a PID file names, if it names one.
pub open spec fn pid_in(text: Seq<char>) -> Option<i32> {
    signed(trimmed(text))
}

/// How the daemon's socket answers.
#[derive(Debug, Clone, Copy, PartialEq, Eq, Structural)]
pub enum SocketState {
    /// There is no socket.
    Missing,
    /// Nobody listens: the files are stale.
    Dead,
    /// Someone listens: most likely the daemon.
    Alive,
}

/// What to do to stop the daemon.
#[derive(Debug, Clone, Copy, PartialEq, Eq, Structural)]
pub enum StopPlan {
    /// There is nothing to stop.
    NotRunning,
    /// Ask the process to end, and wait for it.
    Terminate(i32),
    /// Remove the stale files first.
    CleanUp,
    /// Nothing can be done but remove the files.
    GiveUp,
}

/// How often to look whether the daemon has ended.
pub const STOP_ROUNDS: u32 = 10;

/// How long to wait between two looks, in milliseconds.
pub const STOP_WAIT_MILLIS: u64 = 200;

/// What to do to stop the daemon. A process is asked to end only if its socket answers: a process
/// id alone may belong to someone else by now.
pub open spec fn stop_plan(
    running: bool,
    socket: SocketState,
    pid_file: Option<Seq<char>>,
) -> StopPlan {
    if !running {
        StopPlan::NotRunning
    } else {
        match socket {
            SocketState::Missing => StopPlan::GiveUp,
            SocketState::Dead => StopPlan::CleanUp,
            SocketState::Alive => match pid_file {
                Some(text) => match pid_in(text) {
                    Some(pid) => StopPlan::Terminate(pid),
                    None => StopPlan::GiveUp,
                },
                None => StopPlan::GiveUp,
            },
        }
    }
}

/// What the user is told once the daemon was asked to stop.
pub open spec fn stop_text(still_running: bool) -> Seq<char> {
    if still_running {
        "Daemon did not stop gracefully. Cleaning up stale files."@
    } else {
        "Daemon stopped."@
    }
}

/// What the user is told about the daemon.
pub open spec fn status_text(running: bool, pid_file: Seq<char>) -> Seq<char> {
    if running {
        "Daemon is running (pid "@ + trimmed(pid_file) + ")."@
    } else {
        "Daemon is not running."@
    }
}

/// Whether to go on waiting for the daemon to end, after `rounds` looks.
pub open spec fn goes_on_waiting(rounds: u32, running: bool) -> bool {
    running && rounds < STOP_ROUNDS
}

impl DaemonManager {
    /// Where the daemon keeps things.
    pub closed spec fn paths(&self) -> SyncorPaths {
        self.paths
    }

    /// The daemon's settings.
    pub closed spec fn config(&self) -> SyncorConfig {
        self.config
    }

    pub fn new(paths: SyncorPaths, config: SyncorConfig) -> (r: Self)
        ensures
            r.paths() == paths,
            r.config() == config,
    {
        DaemonManager { paths, config }
    }

    /// Where the daemon keeps things.
    pub fn files(&self) -> (r: &SyncorPaths)
        ensures
            *r == self.paths(),
    {
        &self.paths
    }

    /// The daemon's settings.
    pub fn settings(&self) -> (r: SyncorConfig)
        ensures
            r == self.config(),
    {
        self.config
    }

    /// What the PID file of a process holds.
    pub fn pid_file_content(pid: u32) -> (r: String)
        ensures
            r@ == pid_file_text(pid as nat),
    {
        join2(decimal_text(pid as u64).as_str(), "\n")
    }

    /// The process that a PID file names, if it names one.
    pub fn read_pid(text: &str) -> (r: Option<i32>)
        ensures
            r == pid_in(text@),
    {
        parse_signed(trim(text).as_str())
    }

    /// What to do to stop the daemon.
    pub fn plan_stop(running: bool, socket: SocketState, pid_file: Option<String>) -> (r: StopPlan)
        ensures
            r == stop_plan(
                running,
                socket,
                match pid_file {
                    Some(t) => Some(t@),
                    None => None,
                },
            ),
    {
        if !running {
            return StopPlan::NotRunning;
        }
        match socket {
            SocketState::Missing => StopPlan::GiveUp,
            SocketState::Dead => StopPlan::CleanUp,
            SocketState::Alive => match pid_file {
                Some(text) => match DaemonManager::read_pid(text.as_str()) {
                    Some(pid) => StopPlan::Terminate(pid),
                    None => StopPlan::GiveUp,
                },
                None => StopPlan::GiveUp,
            },
        }
    }

    /// Whether to go on waiting, after `rounds` looks, the last of which found the daemon
    /// running or not.
    pub fn keeps_waiting(rounds: u32, running: bool) -> (r: bool)
        ensures
            r == goes_on_waiting(rounds, running),
    {
        running && rounds < STOP_ROUNDS
    }

    /// What to tell the user in the end.
    pub fn stop_message(still_running: bool) -> (r: &'static str)
        ensures
            r@ == stop_text(still_running),
    {
        if still_running {
            "Daemon did not stop gracefully. Cleaning up stale files."
        } else {
            "Daemon stopped."
        }
    }

    /// What to tell the user about the daemon.
    pub fn status_message(running: bool, pid_file: &str) -> (r: String)
        ensures
            r@ == status_text(running, pid_file@),
    {
        if running {
            join3("Daemon is running (pid ", trim(pid_file).as_str(), ").")
        } else {
            "Daemon is not running.".to_owned()
        }
    }
}

// ---------------------------------------------------------------------------
// Laws
// ---------------------------------------------------------------------------

/// A text that neither starts nor ends with white space, with a newline behind it, trims to
/// itself.
proof fn trims_newline(s: Seq<char>)
    requires
        s.len() > 0,
        !is_space(s[0]),
        !is_space(s.last()),
    ensures
        trimmed(s + "\n"@) == s,
{
    reveal_strlit("\n");
    let t = s + "\n"@;
    assert(t =~= s.push('\n'));
    assert(t[0] == s[0]);
    assert(trimmed_start(t) == t);
    assert(t.drop_last() =~= s);
    assert(trimmed_end(t) == trimmed_end(s));
}

/// The process that a daemon wrote into its PID file is the one that is read out of it.
pub proof fn pid_reads_back(pid: nat)
    requires
        pid <= 0x7fff_ffff,
    ensures
        pid_in(pid_file_text(pid)) == Some(pid as i32),
{
    decimal_reads_back(pid);
    let s = decimal(pid);
    assert(is_digit(s[0]));
    assert(is_digit(s.last()));
    trims_newline(s);
    assert(number(s) == Some(pid as u64));
    assert(unsigned(s) == Some(pid as u64));
}

/// No process is asked to end unless the daemon's socket answers.
pub proof fn only_a_listening_daemon_is_terminated(
    running: bool,
    socket: SocketState,
    pid_file: Option<Seq<char>>,
)
    ensures
        stop_plan(running, socket, pid_file) is Terminate ==> running && socket
            == SocketState::Alive,
{
}

/// A process id reads back from a PID file, whatever white space stands around it.
pub proof fn pids_are_read_out_of_white_space(before: Seq<char>, pid: nat, behind: Seq<char>)
    requires
        pid <= 0x7fff_ffff,
        is_blank(before),
        is_blank(behind),
    ensures
        pid_in(before + decimal(pid) + behind) == Some(pid as i32),
{
    decimal_reads_back(pid);
    let s = decimal(pid);
    assert(is_digit(s[0]));
    assert(is_digit(s[s.len() - 1]));
    padding_is_trimmed(before, s, behind);
    assert(number(s) == Some(pid as u64));
    assert(unsigned(s) == Some(pid as u64));
}

/// How the daemon is stopped. One that does not run is left alone. One whose socket is dead leaves
/// its files to be removed. One that listens is asked to end, under the process id that it wrote;
/// without a socket or without a process id there is nothing but to give up.
pub proof fn daemons_are_stopped_by_their_pid(
    socket: SocketState,
    pid: nat,
    text: Option<Seq<char>>,
)
    requires
        pid <= 0x7fff_ffff,
    ensures
        stop_plan(false, socket, text) == StopPlan::NotRunning,
        stop_plan(true, SocketState::Dead, text) == StopPlan::CleanUp,
        stop_plan(true, SocketState::Missing, text) == StopPlan::GiveUp,
        stop_plan(true, SocketState::Alive, None) == StopPlan::GiveUp,
        stop_plan(true, SocketState::Alive, Some(pid_file_text(pid))) == StopPlan::Terminate(
            pid as i32,
        ),
        text matches Some(t) ==> (signed(trimmed(t)) is None ==> stop_plan(
            true,
            SocketState::Alive,
            text,
        ) == StopPlan::GiveUp),
{
    pid_reads_back(pid);
}

/// A daemon that was asked to end is waited for as long as it runs, two seconds at most.
pub proof fn stopping_takes_two_seconds_at_most(rounds: u32, running: bool)
    ensures
        goes_on_waiting(rounds, running) <==> running && rounds * STOP_WAIT_MILLIS < 2000,
{
}

/// The user is told the process that the daemon wrote down, exactly if it runs; and that it did
/// not stop, exactly if it did not.
pub proof fn users_are_told_the_pid(pid: nat)
    ensures
        status_text(true, pid_file_text(pid)) == "Daemon is running (pid "@ + decimal(pid) + ")."@,
        status_text(false, pid_file_text(pid)) == "Daemon is not running."@,
        stop_text(false) == "Daemon stopped."@,
        stop_text(true) == "Daemon did not stop gracefully. Cleaning up stale files."@,
{
    decimal_reads_back(pid);
    let s = decimal(pid);
    assert(is_digit(s[0]));
    assert(is_digit(s.last()));
    trims_newline(s);
}

} // verus!
