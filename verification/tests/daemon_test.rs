use syncor::config::{SyncorConfig, SyncorPaths};
use syncor::daemon::manager::{DaemonManager, SocketState, StopPlan};
use syncor::daemon::server::{
    frame, Connection, ConnectionAction, ConnectionEvent, IpcRequest, IpcResponse,
};
use syncor::daemon::worker::SyncJob;
use syncor::watch::poller::{poll_step, PollInput, PollStep};
use syncor::watch::watcher::{DebounceInput, DebounceStep, Debouncer};

#[test]
fn managers_keep_what_they_are_given() {
    let m = DaemonManager::new(SyncorPaths::with_home("/h"), SyncorConfig::default());
    assert_eq!(m.files().pid_file(), "/h/.local/share/syncor/daemon.pid");
    assert_eq!(m.settings().debounce_secs, 2);
}

#[test]
fn pids_are_read_back() {
    for pid in [0u32, 1, 4711, i32::MAX as u32] {
        let text = DaemonManager::pid_file_content(pid);
        assert_eq!(text, format!("{}\n", pid));
        assert_eq!(DaemonManager::read_pid(&text), Some(pid as i32));
    }
    assert_eq!(DaemonManager::read_pid(" -5 \n"), Some(-5));
    assert_eq!(DaemonManager::read_pid("2147483648"), None);
    assert_eq!(DaemonManager::read_pid("-2147483648"), Some(i32::MIN));
    for text in ["", "x", "1 2", "+", "-", "1.5", "--1"] {
        assert_eq!(DaemonManager::read_pid(text), text.trim().parse::<i32>().ok());
    }
}

#[test]
fn how_a_daemon_is_stopped() {
    let pid = || Some("42\n".to_string());
    let plan = DaemonManager::plan_stop;
    assert_eq!(plan(false, SocketState::Alive, pid()), StopPlan::NotRunning);
    assert_eq!(plan(true, SocketState::Missing, pid()), StopPlan::GiveUp);
    assert_eq!(plan(true, SocketState::Dead, pid()), StopPlan::CleanUp);
    assert_eq!(plan(true, SocketState::Alive, pid()), StopPlan::Terminate(42));
    assert_eq!(plan(true, SocketState::Alive, None), StopPlan::GiveUp);
    assert_eq!(plan(true, SocketState::Alive, Some("?".to_string())), StopPlan::GiveUp);
    assert!(DaemonManager::keeps_waiting(9, true));
    assert!(!DaemonManager::keeps_waiting(10, true));
    assert!(!DaemonManager::keeps_waiting(0, false));
    assert_eq!(DaemonManager::stop_message(false), "Daemon stopped.");
    assert_eq!(
        DaemonManager::stop_message(true),
        "Daemon did not stop gracefully. Cleaning up stale files."
    );
    assert_eq!(DaemonManager::status_message(true, " 7\n"), "Daemon is running (pid 7).");
    assert_eq!(DaemonManager::status_message(false, "7"), "Daemon is not running.");
}

fn request() -> IpcRequest {
    IpcRequest { cmd: "status".to_string(), args: serde_json::Value::Null }
}

fn failure(a: ConnectionAction) -> String {
    match a {
        ConnectionAction::Respond(r) => {
            assert!(!r.ok);
            assert!(r.data.is_none());
            r.error.unwrap()
        }
        other => panic!("{:?}", other),
    }
}

#[test]
fn a_request_is_answered_and_the_next_one_read() {
    let (c, a) = Connection::start();
    assert!(matches!(a, ConnectionAction::Read));
    let (c, a) = c.next(ConnectionEvent::Line("{} \r\n".to_string()));
    assert!(matches!(a, ConnectionAction::Parse(t) if t == "{}"));
    let (c, a) = c.next(ConnectionEvent::Parsed(request()));
    assert!(matches!(a, ConnectionAction::Dispatch(q) if q.cmd == "status"));
    let (c, a) = c.next(ConnectionEvent::Dispatched);
    assert!(matches!(a, ConnectionAction::Await));
    let reply = IpcResponse::ok(serde_json::Value::Bool(true));
    let (c, a) = c.next(ConnectionEvent::Replied(reply));
    match a {
        ConnectionAction::Respond(r) => {
            assert!(r.ok);
            assert_eq!(r.data, Some(serde_json::Value::Bool(true)));
            assert!(r.error.is_none());
        }
        other => panic!("{:?}", other),
    }
    let (c, a) = c.next(ConnectionEvent::Written);
    assert!(matches!(a, ConnectionAction::Read));
    let (c, a) = c.next(ConnectionEvent::Eof);
    assert!(matches!(a, ConnectionAction::Close));
    assert_eq!(c, Connection::Closed);
}

#[test]
fn blank_lines_are_passed_over() {
    let (c, _) = Connection::start();
    let (c, a) = c.next(ConnectionEvent::Line(" \t\r\n".to_string()));
    assert!(matches!(a, ConnectionAction::Read));
    let (_, a) = c.next(ConnectionEvent::ReadFailed);
    assert!(matches!(a, ConnectionAction::Close));
}

#[test]
fn what_is_no_request_is_answered() {
    let (c, a) = Connection::Parsing.next(ConnectionEvent::Unparsable("bad".to_string()));
    assert_eq!(failure(a), "parse error: bad");
    // the connection goes on, even if the answer could not be written
    let (_, a) = c.next(ConnectionEvent::WriteFailed);
    assert!(matches!(a, ConnectionAction::Read));
}

#[test]
fn without_a_daemon_the_connection_ends() {
    let (c, a) = Connection::Dispatching.next(ConnectionEvent::Unavailable);
    assert_eq!(failure(a), "daemon unavailable");
    let (_, a) = c.next(ConnectionEvent::Written);
    assert!(matches!(a, ConnectionAction::Close));
    let (c, a) = Connection::Awaiting.next(ConnectionEvent::NoReply);
    assert_eq!(failure(a), "no reply from daemon");
    let (_, a) = c.next(ConnectionEvent::Written);
    assert!(matches!(a, ConnectionAction::Close));
    let answering = Connection::Answering { last: false, last_if_failed: true };
    let (_, a) = answering.next(ConnectionEvent::WriteFailed);
    assert!(matches!(a, ConnectionAction::Close));
}

#[test]
fn messages_are_lines() {
    assert_eq!(frame(b"{}".to_vec()), b"{}\n");
    let e = IpcResponse::err("unknown command");
    assert_eq!(e.error.unwrap(), "unknown command");
    let job = SyncJob::Push { link_id: "l".to_string() };
    assert!(matches!(job.clone(), SyncJob::Push { link_id } if link_id == "l"));
    assert!(matches!(
        SyncJob::Pull { link_id: "l".to_string() },
        SyncJob::Pull { .. }
    ));
}

#[test]
fn a_burst_of_changes_is_one_event() {
    let mut d = Debouncer::new();
    assert_eq!(d.step(), DebounceStep::AwaitChange);
    for _ in 0..5 {
        d = d.next(DebounceInput::Change);
        assert_eq!(d.step(), DebounceStep::AwaitQuiet);
    }
    d = d.next(DebounceInput::Quiet);
    assert_eq!(d.step(), DebounceStep::Emit);
    assert!(Debouncer::event().changed);
    d = d.next(DebounceInput::Delivered);
    assert_eq!(d.step(), DebounceStep::AwaitChange);
    d = d.next(DebounceInput::Closed);
    assert_eq!(d.step(), DebounceStep::Stop);
}

#[test]
fn the_last_change_is_delivered() {
    let d = Debouncer::new().next(DebounceInput::Change).next(DebounceInput::Closed);
    assert_eq!(d.step(), DebounceStep::Emit);
    assert_eq!(d.next(DebounceInput::Delivered).step(), DebounceStep::Stop);
    let d = Debouncer::new().next(DebounceInput::Change).next(DebounceInput::Quiet);
    assert_eq!(d.next(DebounceInput::ReceiverGone).step(), DebounceStep::Stop);
}

#[test]
fn polling_goes_on_until_cancelled() {
    assert_eq!(poll_step(PollInput::Tick), PollStep::Emit);
    assert_eq!(poll_step(PollInput::Delivered), PollStep::Wait);
    assert_eq!(poll_step(PollInput::ReceiverGone), PollStep::Stop);
    assert_eq!(poll_step(PollInput::Cancel(false)), PollStep::Wait);
    assert_eq!(poll_step(PollInput::Cancel(true)), PollStep::Stop);
}
