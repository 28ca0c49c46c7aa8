//! Two machines that sync one link. The directories, the store and the remote side are kept in
//! memory; every decision is the library's.

use std::collections::BTreeMap;
use syncor::config::SyncorPaths;
use syncor::link::{LinkId, LinkInfo, LinkMode};
use syncor::progress::{NullReporter, ProgressReporter};
use syncor::sync::conflict::ManifestMap;
use syncor::error::SyncorError;
use syncor::sync::engine::{
    ConnectStart, MountRestore, PullJob, PullStart, PullSyncResult, PushRound, PushSyncResult,
    RestoreJob, RestoreStart, RoundEvent, RoundStep, SyncEngine, SyncPlan, SyncStep,
};
use syncor::sync::restore::RestorePipeline;
use syncor::sync::save::{
    copy_entry, Index, ManifestEntry, SavePipeline, SaveResult, SaveRun, ScannedFile,
};
use syncor::sync::state::{base_snapshot, ConflictRecord, SyncState};
use syncor::transport::{ConflictInfo, PullResult, PushResult, RemoteLinkInfo, SyncTransport};
use std::cell::RefCell;
use std::io::Read;
use std::rc::Rc;
use std::sync::{Arc, Mutex};

type Answer<T> = syncor::error::Result<T>;

/// What the remote side holds.
#[derive(Default)]
struct Remote {
    revision: u64,
    latest: Option<String>,
    manifests: BTreeMap<String, Vec<ManifestEntry>>,
    packs: BTreeMap<String, Vec<u8>>,
}

/// A transport that answers what it was told to.
#[derive(Default)]
struct Told {
    push: Mutex<Option<PushResult>>,
    pull: Mutex<Option<PullResult>>,
    asked: Mutex<Vec<String>>,
}

struct Line(Arc<Told>);

impl SyncTransport for Line {
    fn init_remote(&self, link: &LinkInfo, _: &dyn ProgressReporter) -> Answer<()> {
        self.0.asked.lock().unwrap().push(format!("init {}", link.name));
        Ok(())
    }
    fn push(&self, link: &LinkInfo, store: &str, _: &dyn ProgressReporter) -> Answer<PushResult> {
        self.0.asked.lock().unwrap().push(format!("push {} {}", link.name, store));
        Ok(self.0.push.lock().unwrap().take().unwrap())
    }
    fn pull(&self, link: &LinkInfo, store: &str, _: &dyn ProgressReporter) -> Answer<PullResult> {
        self.0.asked.lock().unwrap().push(format!("pull {} {}", link.name, store));
        Ok(self.0.pull.lock().unwrap().take().unwrap())
    }
    fn list_remote_links(&self, _: &str, _: &dyn ProgressReporter) -> Answer<Vec<RemoteLinkInfo>> {
        Ok(Vec::new())
    }
    fn has_remote_changes(&self, _: &LinkInfo, _: &dyn ProgressReporter) -> Answer<bool> {
        Ok(false)
    }
}

/// A file of a directory: its content, its mode, and when it was written.
#[derive(Clone)]
struct Held {
    content: String,
    mode: u32,
    written: i64,
}

struct Machine {
    dir: RefCell<BTreeMap<String, Held>>,
    clock: RefCell<i64>,
    link: LinkInfo,
    told: Arc<Told>,
    engine: SyncEngine,
    index: RefCell<Index>,
    seen: RefCell<u64>,
    state: RefCell<Option<SyncState>>,
    conflicts: RefCell<Vec<ConflictRecord>>,
    log: RefCell<Vec<String>>,
    remote: Rc<RefCell<Remote>>,
}

const DIR: &str = "/work";

impl Machine {
    fn write(&self, path: &str, content: &str) {
        *self.clock.borrow_mut() += 1;
        let written = *self.clock.borrow();
        self.dir.borrow_mut().insert(
            path.to_string(),
            Held { content: content.to_string(), mode: 0o644, written },
        );
    }

    fn read(&self, path: &str) -> String {
        self.dir.borrow()[path].content.clone()
    }

    fn has(&self, path: &str) -> bool {
        self.dir.borrow().contains_key(path)
    }

    fn delete(&self, path: &str) {
        self.dir.borrow_mut().remove(path).unwrap();
    }

    fn scan(&self) -> Vec<ScannedFile> {
        self.dir
            .borrow()
            .iter()
            .map(|(path, held)| ScannedFile {
                relative_path: path.clone(),
                size: held.content.len() as u64,
                mtime_secs: held.written,
                mtime_nanos: 0,
                inode: None,
                mode: held.mode,
            })
            .collect()
    }

    fn save(&self) -> SaveResult {
        let scanned = self.scan();
        let mut index = self.index.borrow_mut();
        let plan = SavePipeline::plan(&scanned, &index);
        let mut remote = self.remote.borrow_mut();
        if plan.is_empty() {
            return SavePipeline::unchanged(scanned.len(), remote.latest.clone());
        }
        let mut run = SaveRun::new();
        for i in plan.changed {
            let content = self.read(&scanned[i].relative_path);
            let packed = SavePipeline::pack(&scanned[i], content.as_bytes()).unwrap();
            let len = packed.compressed.len() as u64;
            remote.packs.insert(packed.hash_hex, packed.compressed);
            run.note(packed.entry, len);
        }
        let parent = remote.latest.clone();
        let snapshot =
            SavePipeline::snapshot(&scanned, &index, &run, Some("pack".to_string()), parent)
                .unwrap();
        remote.latest = Some(snapshot.id.clone());
        remote.manifests.insert(snapshot.id.clone(), snapshot.manifest);
        let result = run.result(snapshot.id, scanned.len());
        for path in &plan.removed {
            index.remove(path);
        }
        for entry in run.entries {
            index.insert(entry.path.clone(), entry);
        }
        result
    }

    fn unpack(&self, hash_hex: &str) -> String {
        let remote = self.remote.borrow();
        let frame = &remote.packs[hash_hex];
        let mut text = String::new();
        lz4_flex::frame::FrameDecoder::new(&frame[..])
            .read_to_string(&mut text)
            .unwrap();
        text
    }

    fn relative(dest: &str) -> String {
        dest.strip_prefix("/work/").unwrap().to_string()
    }

    fn take<T>(&self, plan: SyncPlan<T>) -> Answer<T> {
        for step in plan.steps {
            match step {
                SyncStep::RecordConflict(c) => self.conflicts.borrow_mut().push(c),
                SyncStep::AppendLog { action, status, .. } => {
                    self.log.borrow_mut().push(format!("{action} {status}"))
                }
                SyncStep::OpenPacks { dir } => assert!(dir.ends_with("packs")),
                SyncStep::WriteFile { hash_hex, dest, mode } => {
                    let path = Machine::relative(&dest);
                    self.write(&path, &self.unpack(&hash_hex));
                    if let Some(mode) = mode {
                        self.dir.borrow_mut().get_mut(&path).unwrap().mode = mode;
                    }
                }
                SyncStep::DeleteFile { dest } => self.delete(&Machine::relative(&dest)),
                SyncStep::RefreshIndex => {
                    let mut index = Index::new();
                    for file in self.scan() {
                        let hash = chkpt_core::store::blob::hash_content_bytes(
                            self.read(&file.relative_path).as_bytes(),
                        );
                        index.insert(
                            file.relative_path.clone(),
                            syncor::sync::save::index_entry(&file, hash),
                        );
                    }
                    *self.index.borrow_mut() = index;
                }
                SyncStep::CheckpointCatalog { .. } | SyncStep::CopyCatalog { .. } => {}
                SyncStep::SaveState { link_id, snapshot_id, revision } => {
                    *self.state.borrow_mut() =
                        Some(SyncState::synced(&link_id, &snapshot_id, revision));
                }
            }
        }
        plan.outcome
    }

    fn push(&self) -> Answer<PushSyncResult> {
        let saved = self.save();
        let revision = {
            let mut remote = self.remote.borrow_mut();
            if saved.files_hashed > 0 || self.state.borrow().is_none() || remote.latest.as_deref()
                != self.state.borrow().as_ref().and_then(|s| s.last_synced_snapshot_id.as_deref())
            {
                remote.revision += 1;
            }
            remote.revision
        };
        *self.seen.borrow_mut() = revision;
        *self.told.push.lock().unwrap() =
            Some(PushResult::Success { revision: revision.to_string() });
        let plan = self.engine.push(&self.link, &saved, &NullReporter)?;
        self.take(plan)
    }

    fn manifest(&self, id: Option<String>) -> Vec<ManifestEntry> {
        match id {
            Some(id) => self.remote.borrow().manifests[&id].iter().map(copy_entry).collect(),
            None => Vec::new(),
        }
    }

    fn pull(&self) -> Answer<PullSyncResult> {
        let revision = self.remote.borrow().revision;
        *self.told.pull.lock().unwrap() = Some(if *self.seen.borrow() == revision {
            PullResult::UpToDate
        } else {
            PullResult::Success { revision: revision.to_string() }
        });
        *self.seen.borrow_mut() = revision;
        let synced = base_snapshot(&self.state.borrow());
        let latest = self.remote.borrow().latest.clone();
        let job = match self.engine.pull(&self.link, &synced, &latest, &NullReporter)? {
            PullStart::Finished(r) => return Ok(r),
            PullStart::Merge(job) => job,
        };
        assert_eq!(job.dir, DIR);
        let latest = PullJob::remote_snapshot(latest)?;
        let base = self.manifest(synced);
        let remote = self.manifest(Some(latest.clone()));
        let plan = job.plan(&latest, &base, &self.local(), &remote);
        self.take(plan)
    }

    fn local(&self) -> ManifestMap {
        let mut local = ManifestMap::new();
        for file in self.scan() {
            let hash = chkpt_core::store::blob::hash_content_bytes(
                self.read(&file.relative_path).as_bytes(),
            );
            local.insert(file.relative_path, hash);
        }
        local
    }

    /// Sets the remote side up: the clone has what is there.
    fn init(&self) {
        self.engine.init_link(&self.link, &NullReporter).unwrap();
        *self.seen.borrow_mut() = self.remote.borrow().revision;
    }

    fn connect(&self) -> Answer<PullSyncResult> {
        let latest = self.remote.borrow().latest.clone();
        match self.engine.connect(&self.link, latest.clone(), &self.local()) {
            ConnectStart::Finished(r) => Ok(r),
            ConnectStart::Restore(job) => self.restore(job),
            ConnectStart::Merge(job) => {
                let latest = PullJob::remote_snapshot(latest)?;
                let remote = self.manifest(Some(latest.clone()));
                self.take(job.first_plan(&latest, &self.local(), &remote))
            }
        }
    }

    fn after_resolve(&self) -> Answer<()> {
        self.conflicts.borrow_mut().clear();
        let synced = base_snapshot(&self.state.borrow());
        let latest = self.remote.borrow().latest.clone();
        if let Some(job) = self.engine.after_resolve(&self.link, &synced, &latest) {
            let latest = latest.unwrap();
            let remote = self.manifest(Some(latest.clone()));
            self.take(job.settled_plan(&latest, &self.local(), &remote))?;
        }
        Ok(())
    }

    fn restore_latest(&self) -> Answer<PullSyncResult> {
        let latest = self.remote.borrow().latest.clone();
        let job = match self.engine.restore_latest(&self.link, latest) {
            RestoreStart::Finished(r) => return Ok(r),
            RestoreStart::Restore(job) => job,
        };
        self.restore(job)
    }

    fn restore(&self, job: RestoreJob) -> Answer<PullSyncResult> {
        assert_eq!(job.dirs, vec![DIR]);
        let latest = job.snapshot_id;
        *self.seen.borrow_mut() = self.remote.borrow().revision;
        let manifest = self.manifest(Some(latest.clone()));
        let steps = RestorePipeline::steps(&manifest, DIR);
        let mut files = 0;
        for step in steps {
            let path = Machine::relative(&step.dest.unwrap());
            self.write(&path, &self.unpack(&step.hash_hex));
            self.dir.borrow_mut().get_mut(&path).unwrap().mode = step.mode;
            files += 1;
        }
        for dest in RestorePipeline::extras(&self.scan(), &manifest, DIR) {
            self.delete(&Machine::relative(&dest.unwrap()));
        }
        let mounts = vec![MountRestore { dir: DIR.to_string(), result: Ok(files) }];
        self.take(SyncEngine::after_restore(&self.link, &latest, mounts))
    }

    fn has_conflicts(&self) -> bool {
        !self.conflicts.borrow().is_empty()
    }
}

fn two_machines(link_name: &str) -> (Machine, Machine) {
    let remote = Rc::new(RefCell::new(Remote::default()));
    let mk = |mode: LinkMode, home: &str| -> Machine {
        let told = Arc::new(Told::default());
        Machine {
            dir: RefCell::default(),
            clock: RefCell::new(0),
            link: LinkInfo {
                id: LinkId::from_parts("/remote.git", link_name),
                name: link_name.to_string(),
                repo: "/remote.git".to_string(),
                local_dirs: vec![DIR.to_string()],
                mode,
                poll_interval_secs: None,
            },
            engine: SyncEngine::new(
                SyncorPaths::with_home(home),
                Box::new(Line(told.clone())),
            ),
            told,
            index: RefCell::new(Index::new()),
            seen: RefCell::new(0),
            state: RefCell::new(None),
            conflicts: RefCell::default(),
            log: RefCell::default(),
            remote: remote.clone(),
        }
    };
    (mk(LinkMode::Push, "/a"), mk(LinkMode::Pull, "/b"))
}

fn bootstrap(a: &Machine, b: &Machine) {
    a.engine.init_link(&a.link, &NullReporter).unwrap();
    a.push().unwrap();
    b.engine.init_link(&b.link, &NullReporter).unwrap();
    b.restore_latest().unwrap();
}

#[test]
fn conflict_both_modify_same_file() {
    let (a, b) = two_machines("conflict-both-mod");

    a.write("config.yaml", "key: original");
    bootstrap(&a, &b);
    assert_eq!(b.read("config.yaml"), "key: original");

    a.write("config.yaml", "key: from-machine-a");
    a.push().unwrap();

    b.write("config.yaml", "key: from-machine-b");
    let result = b.pull();

    assert!(result.is_err(), "pull should return conflict error");
    let err = result.unwrap_err().message();
    assert!(err.contains("conflict"), "error should mention conflict: {}", err);

    let conflicts = b.conflicts.borrow();
    assert_eq!(conflicts.len(), 1);
    assert_eq!(conflicts[0].file_path, "config.yaml");
    assert!(conflicts[0].local_hash.is_some());
    assert!(conflicts[0].remote_hash.is_some());

    assert_eq!(b.read("config.yaml"), "key: from-machine-b");
}

#[test]
fn merge_non_overlapping_changes() {
    let (a, b) = two_machines("merge-no-overlap");

    a.write("file1.txt", "original1");
    a.write("file2.txt", "original2");
    bootstrap(&a, &b);

    a.write("file1.txt", "modified-by-a");
    a.push().unwrap();

    let result = b.pull().unwrap();
    assert!(result.restored);
    assert_eq!(b.read("file1.txt"), "modified-by-a");
    assert_eq!(b.read("file2.txt"), "original2");
}

#[test]
fn auto_apply_remote_change() {
    let (a, b) = two_machines("auto-apply");

    a.write("data.txt", "v1");
    bootstrap(&a, &b);

    a.write("data.txt", "v2");
    a.push().unwrap();

    let result = b.pull().unwrap();
    assert!(result.restored);
    assert_eq!(b.read("data.txt"), "v2");
}

#[test]
fn keep_local_change_when_remote_unchanged() {
    let (a, b) = two_machines("keep-local");

    a.write("data.txt", "original");
    bootstrap(&a, &b);

    a.push().unwrap();

    b.write("data.txt", "local-edit");
    b.pull().unwrap();

    assert_eq!(b.read("data.txt"), "local-edit");
}

#[test]
fn conflict_both_add_same_new_file() {
    let (a, b) = two_machines("conflict-both-add");

    a.write("base.txt", "base");
    bootstrap(&a, &b);

    a.write("new.txt", "from-a");
    a.push().unwrap();

    b.write("new.txt", "from-b");
    let result = b.pull();

    assert!(result.is_err());
    assert!(
        b.conflicts.borrow().iter().any(|c| c.file_path == "new.txt"),
        "new.txt should be in conflicts"
    );

    assert_eq!(b.read("new.txt"), "from-b");
}

#[test]
fn conflict_remote_delete_local_modify() {
    let (a, b) = two_machines("conflict-del-mod");

    a.write("important.txt", "original");
    bootstrap(&a, &b);

    a.delete("important.txt");
    a.push().unwrap();

    b.write("important.txt", "b-edited");
    let result = b.pull();

    assert!(result.is_err());
    assert!(
        b.conflicts.borrow().iter().any(|c| c.file_path == "important.txt"),
        "should conflict on deleted-vs-modified"
    );

    assert_eq!(b.read("important.txt"), "b-edited");
}

#[test]
fn conflict_remote_modify_local_delete() {
    let (a, b) = two_machines("conflict-mod-del");

    a.write("shared.txt", "original");
    bootstrap(&a, &b);

    a.write("shared.txt", "a-modified");
    a.push().unwrap();

    b.delete("shared.txt");
    let result = b.pull();

    assert!(result.is_err());
    assert!(
        b.conflicts.borrow().iter().any(|c| c.file_path == "shared.txt"),
        "should conflict on modified-vs-deleted"
    );
}

#[test]
fn no_conflict_when_both_change_to_same() {
    let (a, b) = two_machines("same-change");

    a.write("data.txt", "original");
    bootstrap(&a, &b);

    a.write("data.txt", "converged");
    a.push().unwrap();

    b.write("data.txt", "converged");
    let result = b.pull();

    assert!(result.is_ok(), "identical changes should not conflict");
    assert_eq!(b.read("data.txt"), "converged");
}

#[test]
fn auto_apply_remote_add() {
    let (a, b) = two_machines("auto-add");

    a.write("base.txt", "base");
    bootstrap(&a, &b);

    a.write("extra.txt", "new content");
    a.push().unwrap();

    let result = b.pull().unwrap();
    assert!(result.restored);
    assert!(b.has("extra.txt"));
    assert_eq!(b.read("extra.txt"), "new content");
}

#[test]
fn auto_apply_remote_delete() {
    let (a, b) = two_machines("auto-delete");

    a.write("file1.txt", "keep");
    a.write("file2.txt", "will-delete");
    bootstrap(&a, &b);
    assert!(b.has("file2.txt"));

    a.delete("file2.txt");
    a.push().unwrap();

    let result = b.pull().unwrap();
    assert!(result.restored);
    assert!(b.has("file1.txt"));
    assert!(!b.has("file2.txt"), "deleted file should be removed");
}

#[test]
fn no_conflict_both_delete() {
    let (a, b) = two_machines("both-delete");

    a.write("temp.txt", "temporary");
    bootstrap(&a, &b);

    a.delete("temp.txt");
    a.push().unwrap();

    b.delete("temp.txt");
    let result = b.pull();

    assert!(result.is_ok(), "both deleting should not conflict");
    assert!(!b.has("temp.txt"));
}

#[test]
fn conflict_resolution_unblocks_sync() {
    let (a, b) = two_machines("resolve-unblock");

    a.write("config.txt", "original");
    bootstrap(&a, &b);

    a.write("config.txt", "from-a");
    a.push().unwrap();
    b.write("config.txt", "from-b");
    let _ = b.pull();

    assert!(b.has_conflicts());

    b.write("config.txt", "from-a");
    b.conflicts.borrow_mut().clear();
    assert!(!b.has_conflicts());

    a.write("config.txt", "from-a-v2");
    a.push().unwrap();

    assert!(b.conflicts.borrow().is_empty(), "conflicts should be cleared");
}

#[test]
fn complex_non_conflicting_merge() {
    let (a, b) = two_machines("complex-merge");

    a.write("f1.txt", "original1");
    a.write("f2.txt", "original2");
    a.write("f4.txt", "will-delete");
    bootstrap(&a, &b);

    a.write("f1.txt", "a-modified-f1");
    a.write("f3.txt", "new-file-from-a");
    a.delete("f4.txt");
    a.push().unwrap();

    b.write("f2.txt", "b-modified-f2");

    let result = b.pull();
    assert!(result.is_ok(), "non-overlapping changes should merge cleanly");

    let result = result.unwrap();
    assert!(result.restored);

    assert_eq!(b.read("f1.txt"), "a-modified-f1");
    assert_eq!(b.read("f2.txt"), "b-modified-f2");
    assert!(b.has("f3.txt"));
    assert_eq!(b.read("f3.txt"), "new-file-from-a");
    assert!(!b.has("f4.txt"));
}

#[test]
fn multiple_conflicts_at_once() {
    let (a, b) = two_machines("multi-conflict");

    a.write("a.txt", "orig-a");
    a.write("b.txt", "orig-b");
    a.write("c.txt", "orig-c");
    bootstrap(&a, &b);

    a.write("a.txt", "a-v2");
    a.write("b.txt", "b-v2");
    a.write("c.txt", "c-v2");
    a.push().unwrap();

    b.write("a.txt", "a-local");
    b.write("b.txt", "b-local");
    b.write("c.txt", "c-local");
    let result = b.pull();

    assert!(result.is_err());
    let conflicts = b.conflicts.borrow();
    assert_eq!(conflicts.len(), 3, "should have 3 conflicts");

    let paths: Vec<&str> = conflicts.iter().map(|c| c.file_path.as_str()).collect();
    assert!(paths.contains(&"a.txt"));
    assert!(paths.contains(&"b.txt"));
    assert!(paths.contains(&"c.txt"));
}

#[test]
fn sequential_sync_rounds() {
    let (a, b) = two_machines("seq-rounds");

    a.write("file.txt", "round1");
    bootstrap(&a, &b);
    assert_eq!(b.read("file.txt"), "round1");

    a.write("file.txt", "round2");
    a.push().unwrap();
    b.pull().unwrap();
    assert_eq!(b.read("file.txt"), "round2");

    a.write("new.txt", "round3");
    a.push().unwrap();
    b.pull().unwrap();
    assert_eq!(b.read("new.txt"), "round3");
    assert_eq!(b.read("file.txt"), "round2");

    a.delete("file.txt");
    a.push().unwrap();
    b.pull().unwrap();
    assert!(!b.has("file.txt"));
    assert_eq!(b.read("new.txt"), "round3");
}

#[test]
fn a_conflict_takes_note_and_touches_nothing() {
    let (a, b) = two_machines("note");
    a.write("both.txt", "0");
    a.write("easy.txt", "0");
    bootstrap(&a, &b);
    a.write("both.txt", "from a");
    a.write("easy.txt", "from a");
    a.push().unwrap();
    b.write("both.txt", "from b");
    let before = b.state.borrow().as_ref().unwrap().last_synced_snapshot_id.clone();
    assert_eq!(
        b.pull().unwrap_err().message(),
        "conflict: 1 file(s) in conflict. Run 'syncor resolve' to fix."
    );
    assert_eq!(b.read("easy.txt"), "0");
    assert_eq!(b.state.borrow().as_ref().unwrap().last_synced_snapshot_id, before);
    assert_eq!(b.log.borrow().last().unwrap(), "pull conflict");
}

#[test]
fn a_save_right_after_a_pull_reads_nothing() {
    let (a, b) = two_machines("quiet");
    a.write("one.txt", "1");
    a.write("sub/two.txt", "2");
    bootstrap(&a, &b);
    a.write("one.txt", "1, again");
    a.push().unwrap();
    let pulled = b.pull().unwrap();
    assert_eq!((pulled.files_restored, pulled.per_mount.len()), (1, 1));
    assert_eq!(pulled.per_mount[0].dir, DIR);
    let saved = b.save();
    assert_eq!((saved.files_scanned, saved.files_hashed), (2, 0));
    assert_eq!(Some(saved.snapshot_id), b.remote.borrow().latest);
}

#[test]
fn the_transport_gets_the_store_of_the_link() {
    let (a, b) = two_machines("stores");
    a.write("x", "1");
    bootstrap(&a, &b);
    a.push().unwrap();
    b.pull().unwrap();
    let id = a.link.id.as_str();
    assert_eq!(
        *a.told.asked.lock().unwrap(),
        vec![
            "init stores".to_string(),
            format!("push stores /a/.local/share/syncor/links/{id}/stores/stores"),
            format!("push stores /a/.local/share/syncor/links/{id}/stores/stores"),
        ]
    );
    assert_eq!(
        *b.told.asked.lock().unwrap(),
        vec![
            "init stores".to_string(),
            format!("pull stores /b/.local/share/syncor/links/{id}/stores/stores"),
        ]
    );
}

#[test]
fn push_syncs_new_files() {
    let (a, _) = two_machines("test");
    a.write("hello.txt", "hello");
    a.engine.init_link(&a.link, &NullReporter).unwrap();
    let result = a.push().unwrap();
    assert!(result.snapshot_id.is_some());
}

#[test]
fn pull_restores_remote_files() {
    let (a, b) = two_machines("test");
    a.write("shared.txt", "shared content");
    a.engine.init_link(&a.link, &NullReporter).unwrap();
    a.push().unwrap();

    b.engine.init_link(&b.link, &NullReporter).unwrap();
    let result = b.restore_latest().unwrap();
    assert!(result.restored);
    assert_eq!(b.read("shared.txt"), "shared content");
}

#[test]
fn restore_latest_updates_file_index() {
    let (a, b) = two_machines("test");
    a.write("data.txt", "some data");
    bootstrap(&a, &b);
    assert!(
        b.index.borrow().get("data.txt").is_some(),
        "index should contain data.txt"
    );
}

/// Machine A links and pushes, machine B connects and pulls.
#[test]
fn e2e_push_pull_roundtrip() {
    let (a, b) = two_machines("e2e-link");
    a.write("config.yaml", "version: 1\nenv: prod\n");
    a.write("scripts/deploy.sh", "#!/bin/sh\necho 'deploying'\n");

    a.init();
    let push_result = a.push().unwrap();
    assert!(push_result.pushed, "Machine A initial push should succeed");
    assert!(push_result.snapshot_id.is_some(), "push should produce a snapshot id");

    b.init();
    let pull_result = b.pull().unwrap();
    assert!(pull_result.restored, "Machine B initial pull should restore files");
    assert!(pull_result.files_restored >= 2, "at least 2 files should be restored");

    assert!(b.has("config.yaml"), "config.yaml should exist on Machine B");
    assert_eq!(
        b.read("config.yaml"),
        "version: 1\nenv: prod\n",
        "config.yaml content should match"
    );
    assert!(b.has("scripts/deploy.sh"), "scripts/deploy.sh should exist on Machine B");
    assert_eq!(
        b.read("scripts/deploy.sh"),
        "#!/bin/sh\necho 'deploying'\n",
        "deploy.sh content should match"
    );

    a.write("config.yaml", "version: 2\nenv: staging\n");
    let push_result2 = a.push().unwrap();
    assert!(push_result2.pushed, "Machine A second push should succeed");

    let pull_result2 = b.pull().unwrap();
    assert!(pull_result2.restored, "Machine B second pull should restore updated file");
    assert_eq!(
        b.read("config.yaml"),
        "version: 2\nenv: staging\n",
        "config.yaml should reflect updated content after second pull"
    );
    assert_eq!(
        b.read("scripts/deploy.sh"),
        "#!/bin/sh\necho 'deploying'\n",
        "deploy.sh should remain unchanged after second pull"
    );
}

#[test]
fn a_first_pull_is_a_sync_like_any_other() {
    let (a, b) = two_machines("first");
    b.init();
    assert!(!b.pull().unwrap().restored);
    assert!(b.state.borrow().is_none());
    a.write("x", "1");
    a.init();
    a.push().unwrap();
    let (_, c) = {
        let (_, mut c) = two_machines("first");
        c.remote = b.remote.clone();
        ((), c)
    };
    c.init();
    assert_eq!(c.pull().unwrap().files_restored, 1);
    assert!(!c.pull().unwrap().restored);
    let state = c.state.borrow();
    let state = state.as_ref().unwrap();
    assert_eq!(state.last_synced_snapshot_id, c.remote.borrow().latest);
    assert_eq!(state.last_remote_revision, None);
}

#[test]
fn connecting_to_an_empty_directory_restores() {
    let (a, b) = two_machines("connect-empty");
    b.init();
    assert!(!b.connect().unwrap().restored);
    a.write("f", "y");
    a.init();
    a.push().unwrap();
    let connected = b.connect().unwrap();
    assert!(connected.restored);
    assert_eq!(connected.files_restored, 1);
    assert_eq!(b.read("f"), "y");
}

#[test]
fn connecting_to_a_directory_with_files_merges() {
    let (a, b) = two_machines("connect-merge");
    a.write("f", "y");
    a.write("same", "s");
    a.write("new", "n");
    a.init();
    a.push().unwrap();

    b.write("f", "x");
    b.write("g", "only here");
    b.write("same", "s");
    b.init();
    assert_eq!(
        b.connect().unwrap_err().message(),
        "conflict: 1 file(s) in conflict. Run 'syncor resolve' to fix."
    );
    {
        let conflicts = b.conflicts.borrow();
        assert_eq!(conflicts.len(), 1);
        assert_eq!(conflicts[0].file_path, "f");
        assert_eq!(conflicts[0].base_hash, None);
        assert!(conflicts[0].local_hash.is_some() && conflicts[0].remote_hash.is_some());
    }
    assert_eq!(b.read("f"), "x");
    assert_eq!(b.read("g"), "only here");
    assert!(!b.has("new"));
    assert!(b.state.borrow().is_none());

    // The user keeps the local file: the rest is merged, and there is a base from now on.
    b.after_resolve().unwrap();
    assert_eq!(b.read("f"), "x");
    assert_eq!(b.read("g"), "only here");
    assert_eq!(b.read("new"), "n");
    assert_eq!(
        b.state.borrow().as_ref().unwrap().last_synced_snapshot_id,
        b.remote.borrow().latest
    );
    assert!(!b.pull().unwrap().restored);
    b.after_resolve().unwrap();
    assert_eq!(b.read("f"), "x");
}

#[test]
fn connecting_without_differences_merges_at_once() {
    let (a, b) = two_machines("connect-easy");
    a.write("f", "y");
    a.write("same", "s");
    a.init();
    a.push().unwrap();
    b.write("g", "only here");
    b.write("same", "s");
    b.init();
    let connected = b.connect().unwrap();
    assert_eq!((connected.restored, connected.files_restored), (true, 1));
    assert_eq!(b.read("f"), "y");
    assert_eq!(b.read("g"), "only here");
}

/// Runs a push round with pushes and pulls that end as told; returns what was asked for.
fn round(
    mut pushes: Vec<Answer<PushSyncResult>>,
    mut pulls: Vec<Answer<PullSyncResult>>,
) -> (Vec<&'static str>, Answer<PushSyncResult>) {
    let mut asked = Vec::new();
    let (mut at, mut step) = PushRound::start();
    loop {
        let event = match step {
            RoundStep::Push => {
                asked.push("push");
                RoundEvent::Pushed(pushes.remove(0))
            }
            RoundStep::Pull => {
                asked.push("pull");
                RoundEvent::Pulled(pulls.remove(0))
            }
            RoundStep::Done(r) => return (asked, r),
        };
        let (next_at, next_step) = at.next(event);
        at = next_at;
        step = next_step;
    }
}

#[test]
fn a_rejected_push_pulls_and_pushes_again() {
    let pushed = || Ok(PushSyncResult { snapshot_id: Some("s".to_string()), pushed: true });
    let rejected = |t: &str| Err(SyncorError::Conflict(t.to_string()));
    let merged = || Ok(SyncEngine::nothing_restored());

    let (asked, r) = round(vec![pushed()], vec![]);
    assert_eq!(asked, vec!["push"]);
    assert!(r.unwrap().pushed);

    let (asked, r) = round(vec![rejected("old"), pushed()], vec![merged()]);
    assert_eq!(asked, vec!["push", "pull", "push"]);
    assert!(r.unwrap().pushed);

    let (asked, r) = round(vec![rejected("old"), rejected("again")], vec![merged()]);
    assert_eq!(asked, vec!["push", "pull", "push"]);
    assert_eq!(r.unwrap_err().message(), "conflict: again");

    let stuck = || Err(SyncorError::Conflict("2 file(s)".to_string()));
    let (asked, r) = round(vec![rejected("old")], vec![stuck()]);
    assert_eq!(asked, vec!["push", "pull"]);
    assert_eq!(r.unwrap_err().message(), "conflict: 2 file(s)");

    let down = Err(SyncorError::Transport("down".to_string()));
    let (asked, r) = round(vec![down], vec![]);
    assert_eq!(asked, vec!["push"]);
    assert_eq!(r.unwrap_err().message(), "transport error: down");
}

#[test]
fn a_rejected_push_merges_what_the_other_machine_pushed() {
    let (a, b) = two_machines("both-push");
    a.write("one", "1");
    bootstrap(&a, &b);
    b.write("two", "2");
    b.push().unwrap();
    a.write("three", "3");

    // The remote side turns the first push down.
    *a.told.push.lock().unwrap() = Some(PushResult::Conflict {
        details: ConflictInfo { message: "rejected".to_string() },
    });
    let saved = SavePipeline::unchanged(0, a.remote.borrow().latest.clone());
    let plan = a.engine.push(&a.link, &saved, &NullReporter).unwrap();
    let first = a.take(plan);
    let (at, step) = PushRound::start();
    assert!(matches!(step, RoundStep::Push));
    let (at, step) = at.next(RoundEvent::Pushed(first));
    assert!(matches!(step, RoundStep::Pull));
    let (at, step) = at.next(RoundEvent::Pulled(a.pull()));
    assert!(matches!(step, RoundStep::Push));
    assert_eq!(a.read("two"), "2");
    assert_eq!(a.read("three"), "3");
    let (_, step) = at.next(RoundEvent::Pushed(a.push()));
    assert!(matches!(step, RoundStep::Done(Ok(r)) if r.pushed));
}
