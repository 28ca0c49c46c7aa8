use syncor::config::SyncorPaths;
use syncor::error::SyncorError;
use syncor::link::{LinkId, LinkInfo, LinkMode};
use syncor::progress::{NullReporter, ProgressReporter};
use syncor::sync::conflict::{Conflict, FileAction};
use syncor::sync::engine::{
    CatalogStep, ConnectStart, MountRestore, PullJob, PullStart, RestoreStart, SyncEngine, SyncStep,
};
use syncor::sync::repo::{RepoLink, RepoManifest};
use syncor::sync::save::{ManifestEntry, SaveResult};
use syncor::sync::state::{base_snapshot, log_limit, SyncState};
use syncor::text_map::TextMap;
use syncor::transport::{ConflictInfo, PullResult, PushResult, RemoteLinkInfo, SyncTransport};

type Answer<T> = syncor::error::Result<T>;

/// A remote side that cannot be reached.
struct Unreachable;

fn down<T>() -> Answer<T> {
    Err(SyncorError::Transport("down".to_string()))
}

impl SyncTransport for Unreachable {
    fn init_remote(&self, _: &LinkInfo, _: &dyn ProgressReporter) -> Answer<()> {
        down()
    }
    fn push(&self, _: &LinkInfo, _: &str, _: &dyn ProgressReporter) -> Answer<PushResult> {
        down()
    }
    fn pull(&self, _: &LinkInfo, _: &str, _: &dyn ProgressReporter) -> Answer<PullResult> {
        down()
    }
    fn list_remote_links(&self, _: &str, _: &dyn ProgressReporter) -> Answer<Vec<RemoteLinkInfo>> {
        down()
    }
    fn has_remote_changes(&self, _: &LinkInfo, _: &dyn ProgressReporter) -> Answer<bool> {
        down()
    }
}

fn engine() -> SyncEngine {
    SyncEngine::new(SyncorPaths::with_home("/h"), Box::new(Unreachable))
}

fn link(dirs: &[&str]) -> LinkInfo {
    LinkInfo {
        id: LinkId::from_text("id".to_string()),
        name: "name".to_string(),
        repo: "repo".to_string(),
        local_dirs: dirs.iter().map(|d| d.to_string()).collect(),
        mode: LinkMode::Pull,
        poll_interval_secs: None,
    }
}

fn saved(id: &str) -> SaveResult {
    SaveResult {
        snapshot_id: id.to_string(),
        files_scanned: 1,
        files_hashed: 1,
        bytes_compressed: 1,
    }
}

fn job() -> PullJob {
    match engine().after_pull(
        &link(&["/one", "/two"]),
        &None,
        &None,
        PullResult::Success { revision: "rev".to_string() },
    ) {
        Ok(PullStart::Merge(job)) => job,
        other => panic!("{:?}", other),
    }
}

#[test]
fn errors_of_the_transport_come_back() {
    let e = engine();
    let l = link(&["/d"]);
    assert_eq!(e.init_link(&l, &NullReporter).unwrap_err().message(), "transport error: down");
    assert_eq!(
        e.push(&l, &saved("s"), &NullReporter).unwrap_err().message(),
        "transport error: down"
    );
    assert_eq!(
        e.pull(&l, &None, &None, &NullReporter).unwrap_err().message(),
        "transport error: down"
    );
}

#[test]
fn where_the_engine_keeps_a_link() {
    let e = engine();
    let l = link(&["/d"]);
    assert_eq!(e.store_dir(&l), "/h/.local/share/syncor/links/id/stores/name");
    assert_eq!(
        e.catalog_path(&l),
        "/h/.local/share/syncor/links/id/stores/name/catalog.sqlite"
    );
}

#[test]
fn a_push_saves_its_state() {
    let plan = SyncEngine::after_push(
        &link(&["/d"]),
        &saved("snap"),
        PushResult::Success { revision: "r1".to_string() },
    );
    assert_eq!(plan.steps.len(), 2);
    assert!(matches!(
        &plan.steps[0],
        SyncStep::SaveState { link_id, snapshot_id, revision }
            if link_id == "id" && snapshot_id == "snap" && revision.as_deref() == Some("r1")
    ));
    assert!(matches!(
        &plan.steps[1],
        SyncStep::AppendLog { action, status, message: None, .. }
            if action == "push" && status == "success"
    ));
    let out = plan.outcome.unwrap();
    assert!(out.pushed);
    assert_eq!(out.snapshot_id.as_deref(), Some("snap"));
}

#[test]
fn a_rejected_push_is_a_conflict() {
    let plan = SyncEngine::after_push(
        &link(&["/d"]),
        &saved("snap"),
        PushResult::Conflict { details: ConflictInfo { message: "rejected".to_string() } },
    );
    assert_eq!(plan.steps.len(), 1);
    assert!(matches!(
        &plan.steps[0],
        SyncStep::AppendLog { status, message, .. }
            if status == "conflict" && message.as_deref() == Some("rejected")
    ));
    assert!(matches!(plan.outcome, Err(SyncorError::Conflict(t)) if t == "rejected"));
}

#[test]
fn how_a_pull_goes_on() {
    let e = engine();
    let l = link(&["/one", "/two"]);
    let some = |t: &str| Some(t.to_string());
    for (base, latest) in [(some("s"), some("s")), (some("s"), None), (None, None)] {
        match e.after_pull(&l, &base, &latest, PullResult::UpToDate) {
            Ok(PullStart::Finished(r)) => {
                assert!(!r.restored);
                assert_eq!((r.files_restored, r.per_mount.len()), (0, 0));
            }
            other => panic!("{:?}", other),
        }
    }
    match e.after_pull(&l, &None, &some("s"), PullResult::UpToDate) {
        Ok(PullStart::Merge(first)) => {
            assert_eq!((first.dir.as_str(), first.revision), ("/one", None));
        }
        other => panic!("{:?}", other),
    }
    let stuck = PullResult::Conflict { details: ConflictInfo { message: "m".to_string() } };
    assert!(matches!(
        e.after_pull(&l, &None, &some("s"), stuck),
        Err(SyncorError::Conflict(t)) if t == "m"
    ));
    let job = job();
    assert_eq!(job.revision.as_deref(), Some("rev"));
    assert_eq!(job.dir, "/one");
    assert_eq!(job.packs_dir, "/h/.local/share/syncor/links/id/stores/name/packs");
    assert_eq!(job.local_catalog, "/h/.local/share/syncor/links/id/catalog.sqlite");
    assert_eq!(
        job.remote_catalog,
        "/h/.local/share/syncor/links/id/stores/name/catalog.sqlite"
    );
    assert!(matches!(job.catalog_step(true), CatalogStep::Merge { local, .. } if local == job.local_catalog));
    assert!(matches!(job.catalog_step(false), CatalogStep::Copy { to, .. } if to == job.local_catalog));
}

#[test]
fn a_catalog_without_snapshots_is_an_error() {
    assert_eq!(PullJob::remote_snapshot(Some("s".to_string())).unwrap(), "s");
    assert_eq!(
        PullJob::remote_snapshot(None).unwrap_err().message(),
        "no snapshots in remote catalog"
    );
}

#[test]
fn steps_of_a_pull_in_order() {
    let actions = vec![
        FileAction::ApplyRemote { path: "a".to_string(), remote_hash: [0xaa; 16] },
        FileAction::DeleteLocal { path: "b/c".to_string() },
        FileAction::ApplyRemote { path: "d".to_string(), remote_hash: [0xdd; 16] },
    ];
    let mut modes = TextMap::new();
    modes.insert("a".to_string(), 0o755);
    let plan = job().plan_for("snap", &actions, &modes);
    let texts: Vec<String> = plan
        .steps
        .iter()
        .map(|s| match s {
            SyncStep::WriteFile { hash_hex, dest, mode } => {
                format!("write {} {} {:?}", &hash_hex[..2], dest, mode)
            }
            SyncStep::DeleteFile { dest } => format!("delete {}", dest),
            SyncStep::OpenPacks { .. } => "open".to_string(),
            SyncStep::RefreshIndex => "refresh".to_string(),
            SyncStep::CheckpointCatalog { .. } => "checkpoint".to_string(),
            SyncStep::CopyCatalog { .. } => "copy".to_string(),
            SyncStep::SaveState { revision, .. } => format!("save {:?}", revision),
            SyncStep::AppendLog { status, .. } => format!("log {}", status),
            SyncStep::RecordConflict(_) => "record".to_string(),
        })
        .collect();
    assert_eq!(
        texts,
        vec![
            "open",
            "write aa /one/a Some(493)",
            "delete /one/b/c",
            "write dd /one/d None",
            "refresh",
            "checkpoint",
            "copy",
            "save Some(\"rev\")",
            "log success",
        ]
    );
    let out = plan.outcome.unwrap();
    assert_eq!(out.files_restored, 2);
    assert_eq!(out.per_mount[0].files_restored, 2);
}

#[test]
fn records_of_conflicts_hold_hex_hashes() {
    let actions = vec![FileAction::Conflict(Conflict {
        path: "p".to_string(),
        base_hash: None,
        local_hash: Some([1; 16]),
        remote_hash: Some([0xff; 16]),
    })];
    let plan = job().plan_for("snap", &actions, &TextMap::new());
    match &plan.steps[0] {
        SyncStep::RecordConflict(c) => {
            assert_eq!(c.link_id, "id");
            assert_eq!(c.file_path, "p");
            assert_eq!(c.base_hash, None);
            assert_eq!(c.local_hash.as_deref(), Some("01010101010101010101010101010101"));
            assert_eq!(c.remote_hash.as_deref(), Some("ffffffffffffffffffffffffffffffff"));
        }
        other => panic!("{:?}", other),
    }
    assert!(matches!(
        &plan.steps[1],
        SyncStep::AppendLog { message, .. } if message.as_deref() == Some("1 conflicts")
    ));
}

#[test]
fn a_path_listed_twice_counts_as_its_last_entry() {
    let entry = |hash: u8| ManifestEntry {
        path: "p".to_string(),
        blob_hash: [hash; 16],
        size: 0,
        mode: hash as u32,
    };
    let remote = vec![entry(1), entry(2)];
    let plan = job().plan("s", &Vec::new(), &TextMap::new(), &remote);
    assert!(matches!(
        &plan.steps[1],
        SyncStep::WriteFile { hash_hex, mode: Some(2), .. } if hash_hex.starts_with("02")
    ));
}

#[test]
fn a_restore_fans_out_over_every_mount() {
    let e = engine();
    let l = link(&["/b1", "/b2"]);
    match e.restore_latest(&l, Some("snap".to_string())) {
        RestoreStart::Restore(job) => {
            assert_eq!(job.snapshot_id, "snap");
            assert_eq!(job.store_dir, e.store_dir(&l));
            assert_eq!(job.dirs, vec!["/b1", "/b2"]);
        }
        other => panic!("{:?}", other),
    }
    match e.restore_latest(&l, None) {
        RestoreStart::Finished(r) => assert!(!r.restored),
        other => panic!("{:?}", other),
    }
}

#[test]
fn multi_mount_restore_reports_every_mount() {
    let l = link(&["/b1", "/b2"]);
    let mounts = vec![
        MountRestore { dir: "/b1".to_string(), result: Ok(2) },
        MountRestore { dir: "/b2".to_string(), result: Err(SyncorError::Io("full".to_string())) },
    ];
    let plan = SyncEngine::after_restore(&l, "snap", mounts);
    assert!(matches!(&plan.steps[0], SyncStep::RefreshIndex));
    assert!(matches!(&plan.steps[1], SyncStep::SaveState { revision: None, .. }));
    let out = plan.outcome.unwrap();
    assert!(out.restored);
    assert_eq!(out.files_restored, 2);
    assert_eq!(out.per_mount.len(), 2);
    assert!(out.per_mount[0].error.is_none());
    assert_eq!(out.per_mount[1].error.as_deref(), Some("IO error: full"));
    assert_eq!(out.per_mount[1].files_restored, 0);

    let mounts = vec![
        MountRestore { dir: "/b1".to_string(), result: Err(SyncorError::Io("x".to_string())) },
        MountRestore { dir: "/b2".to_string(), result: Err(SyncorError::Io("y".to_string())) },
    ];
    let plan = SyncEngine::after_restore(&l, "snap", mounts);
    assert!(plan.steps.is_empty());
    assert!(matches!(plan.outcome, Err(SyncorError::Io(t)) if t == "x"));
}

#[test]
fn what_a_sync_leaves_behind() {
    let s = SyncState::synced_at("l", "snap", Some("r".to_string()), "t".to_string());
    assert_eq!(s.last_local_snapshot.as_deref(), Some("snap"));
    assert_eq!(s.last_sync_at.as_deref(), Some("t"));
    assert_eq!(base_snapshot(&Some(s)).as_deref(), Some("snap"));
    assert_eq!(base_snapshot(&None), None);
    let now = SyncState::synced("l", "snap", None).last_sync_at.unwrap();
    assert!(now.ends_with("+00:00"), "{}", now);
    assert!(chrono::DateTime::parse_from_rfc3339(&now).is_ok());
    assert_eq!((log_limit(Some(3)), log_limit(None)), (3, 100));
}

#[test]
fn links_of_a_repository() {
    let mut m = RepoManifest::default();
    assert!(m.ensure_at("a", "then".to_string()));
    assert!(!m.ensure_at("a", "later".to_string()));
    assert!(m.ensure("b"));
    assert!(m.has("b") && !m.has("c"));
    m.links.push(RepoLink { name: "c".to_string(), created_at: None });
    let offered = m.remote_links();
    assert_eq!(offered.len(), 3);
    assert_eq!(offered[0].created_at, "then");
    assert!(offered[1].created_at.ends_with("+00:00"));
    assert_eq!((offered[2].name.as_str(), offered[2].created_at.as_str()), ("c", ""));
}

#[test]
fn errors_describe_themselves() {
    let t = || "x".to_string();
    let all = [
        (SyncorError::Io(t()), "IO error: x"),
        (SyncorError::Sqlite(t()), "SQLite error: x"),
        (SyncorError::Chkpt(t()), "chkpt error: x"),
        (SyncorError::Git(t()), "git error: x"),
        (SyncorError::Config(t()), "config error: x"),
        (SyncorError::LinkNotFound(t()), "link not found: x"),
        (SyncorError::LinkAlreadyExists(t()), "link already exists: x"),
        (SyncorError::Transport(t()), "transport error: x"),
        (SyncorError::Conflict(t()), "conflict: x"),
        (SyncorError::LockHeld, "lock held by another process"),
        (SyncorError::DaemonNotRunning, "daemon not running"),
        (SyncorError::Other(t()), "x"),
    ];
    for (e, text) in all {
        assert_eq!(e.message(), text);
    }
}

#[test]
fn how_a_connection_goes_on() {
    let e = engine();
    let l = link(&["/one"]);
    let empty = TextMap::new();
    let mut held = TextMap::new();
    held.insert("f".to_string(), [1; 16]);
    assert!(matches!(e.connect(&l, None, &held), ConnectStart::Finished(r) if !r.restored));
    match e.connect(&l, Some("s".to_string()), &empty) {
        ConnectStart::Restore(job) => {
            assert_eq!((job.snapshot_id.as_str(), job.dirs), ("s", vec!["/one".to_string()]));
        }
        other => panic!("{:?}", other),
    }
    match e.connect(&l, Some("s".to_string()), &held) {
        ConnectStart::Merge(job) => {
            assert_eq!((job.link_id.as_str(), job.dir.as_str()), ("id", "/one"));
            assert_eq!(job.remote_catalog, e.catalog_path(&l));
            assert_eq!(job.revision, None);
        }
        other => panic!("{:?}", other),
    }
}

#[test]
fn what_is_left_after_a_resolution() {
    let e = engine();
    let l = link(&["/one"]);
    let s = Some("s".to_string());
    assert!(e.after_resolve(&l, &None, &s).is_some());
    assert!(e.after_resolve(&l, &s, &s).is_none());
    assert!(e.after_resolve(&l, &None, &None).is_none());
}
