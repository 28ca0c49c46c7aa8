use syncor::cli::{
    conflict_lines, conflicts_heading, connect_choice, connect_target, initial_push_line,
    initial_restore_line, links_with_mode, log_line, new_link, no_links_line, pull_line,
    push_line, resolve_step, resolved_line, status_lines, CliLine, ConnectChoice, ResolveStep,
};
use syncor::error::SyncorError;
use syncor::link::LinkMode;
use syncor::sync::engine::{PullSyncResult, PushSyncResult};
use syncor::sync::state::{ConflictRecord, SyncLogEntry};
use syncor::transport::RemoteLinkInfo;

fn remote(names: &[&str]) -> Vec<RemoteLinkInfo> {
    names
        .iter()
        .map(|n| RemoteLinkInfo { name: n.to_string(), created_at: String::new() })
        .collect()
}

#[test]
fn choosing_a_remote_link() {
    let want = |n: &str| Some(n.to_string());
    assert!(matches!(
        connect_choice("r", &remote(&[]), want("a")),
        ConnectChoice::Fail(t) if t == "No links found in remote repository: r"
    ));
    assert!(matches!(
        connect_choice("r", &remote(&["a", "b"]), want("b")),
        ConnectChoice::Take(n) if n == "b"
    ));
    assert!(matches!(
        connect_choice("r", &remote(&["a", "b"]), want("c")),
        ConnectChoice::Fail(t) if t == "Remote link 'c' not found. Available: a, b"
    ));
    assert!(matches!(
        connect_choice("r", &remote(&["a"]), None),
        ConnectChoice::Take(n) if n == "a"
    ));
    assert!(matches!(
        connect_choice("r", &remote(&["a", "b"]), None),
        ConnectChoice::Ask(v) if v == ["a", "b"]
    ));
}

#[test]
fn where_a_connected_link_goes() {
    assert_eq!(connect_target(None, "/cwd", "dots"), "/cwd/dots");
    assert_eq!(connect_target(Some("x/y".to_string()), "/cwd", "dots"), "x/y");
}

#[test]
fn links_by_direction() {
    let a = new_link("r", "a", "/a", LinkMode::Push);
    let b = new_link("r", "b", "/b", LinkMode::Pull);
    let c = new_link("r", "c", "/c", LinkMode::Push);
    let all = vec![&a, &b, &c];
    let push = links_with_mode(&all, LinkMode::Push);
    assert_eq!(push.iter().map(|l| l.name.as_str()).collect::<Vec<_>>(), vec!["a", "c"]);
    assert_eq!(links_with_mode(&all, LinkMode::Pull).len(), 1);
    assert_eq!(no_links_line(LinkMode::Push), "No push-mode links found.");
    assert_eq!(no_links_line(LinkMode::Pull), "No pull-mode links found.");
}

fn pushed(id: Option<&str>, pushed: bool) -> Result<PushSyncResult, SyncorError> {
    Ok(PushSyncResult { snapshot_id: id.map(|s| s.to_string()), pushed })
}

fn pulled(files: usize, restored: bool) -> Result<PullSyncResult, SyncorError> {
    Ok(PullSyncResult { restored, files_restored: files, per_mount: Vec::new() })
}

fn err<T>() -> Result<T, SyncorError> {
    Err(SyncorError::LockHeld)
}

#[test]
fn what_is_said_of_syncs() {
    assert_eq!(push_line(&pushed(Some("s"), true)), "done (snapshot: s)");
    assert_eq!(push_line(&pushed(None, true)), "done (snapshot: n/a)");
    assert_eq!(push_line(&pushed(None, false)), "nothing to push.");
    assert_eq!(push_line(&err()), "error: lock held by another process");
    assert_eq!(pull_line(&pulled(12, true)), "done (12 files restored).");
    assert_eq!(pull_line(&pulled(0, false)), "already up to date.");
    assert_eq!(pull_line(&err()), "error: lock held by another process");
    let line = |l: CliLine| match l {
        CliLine::Out(t) => format!("out {}", t),
        CliLine::Warning(t) => format!("warn {}", t),
    };
    assert_eq!(
        line(initial_push_line(&pushed(Some("s"), true))),
        "out Initial push complete (snapshot: s)"
    );
    assert_eq!(line(initial_push_line(&pushed(None, false))), "out Nothing to push.");
    assert_eq!(
        line(initial_push_line(&err())),
        "warn Warning: initial push failed: lock held by another process"
    );
    assert_eq!(line(initial_restore_line(&pulled(3, true))), "out Restored 3 file(s).");
    assert_eq!(
        line(initial_restore_line(&pulled(0, false))),
        "out No snapshots to restore."
    );
    assert_eq!(
        line(initial_restore_line(&err())),
        "warn Warning: initial restore failed: lock held by another process"
    );
}

#[test]
fn what_is_said_of_a_link() {
    let l = new_link("url", "dots", "/d", LinkMode::Push);
    assert_eq!(
        status_lines(&l, false, None),
        vec!["  dots [push] (/d)", "    repo: url", "    last sync: never", ""]
    );
    assert_eq!(
        status_lines(&l, true, Some("now".to_string()))[2..],
        [
            "    last sync: now".to_string(),
            "    !! CONFLICTS \u{2014} run 'syncor resolve /d'".to_string(),
            String::new()
        ]
    );
    let entry = |message: Option<&str>| SyncLogEntry {
        id: 1,
        link_id: "l".to_string(),
        action: "push".to_string(),
        status: "success".to_string(),
        message: message.map(|m| m.to_string()),
        created_at: "then".to_string(),
    };
    assert_eq!(log_line(&entry(None)), "  [then] push \u{2014} success ");
    assert_eq!(log_line(&entry(Some("m"))), "  [then] push \u{2014} success m");
}

fn record(remote_hash: Option<&str>) -> ConflictRecord {
    ConflictRecord {
        link_id: "l".to_string(),
        file_path: "p/q".to_string(),
        local_hash: Some("0123456789abcdef0123".to_string()),
        remote_hash: remote_hash.map(|h| h.to_string()),
        base_hash: None,
    }
}

#[test]
fn resolving_conflicts() {
    assert!(matches!(
        resolve_step(&record(Some("h")), false, true, "/d"),
        ResolveStep::Keep
    ));
    assert!(matches!(
        resolve_step(&record(Some("h")), true, true, "/d"),
        ResolveStep::WriteRemote { hash_hex, dest } if hash_hex == "h" && dest == "/d/p/q"
    ));
    assert!(matches!(
        resolve_step(&record(Some("h")), true, false, "/d"),
        ResolveStep::NoPacks
    ));
    let remove = resolve_step(&record(None), true, false, "/d");
    assert!(matches!(&remove, ResolveStep::Remove { dest } if dest == "/d/p/q"));
    assert_eq!(resolved_line(&remove), "    -> Removed local file (remote deleted).");
    assert_eq!(resolved_line(&ResolveStep::Keep), "    -> Kept local version.");
    assert_eq!(
        resolved_line(&ResolveStep::NoPacks),
        "    -> Pack directory not found, skipping."
    );
    let write = ResolveStep::WriteRemote { hash_hex: String::new(), dest: String::new() };
    assert_eq!(resolved_line(&write), "    -> Applied remote version.");
}

#[test]
fn what_is_said_of_conflicts() {
    assert_eq!(conflicts_heading(0, "n"), "No conflicts for n.");
    assert_eq!(conflicts_heading(2, "n"), "Found 2 conflict(s) for n:");
    assert_eq!(
        conflict_lines(&record(Some("short"))),
        vec![
            "\n  File: p/q",
            "    local hash:  0123456789abcdef",
            "    remote hash: short"
        ]
    );
    assert_eq!(conflict_lines(&record(None)).len(), 2);
}
