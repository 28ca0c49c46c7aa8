//! The sync engine: what a push, a pull, a restore and a new connection have to do, step by step.

use crate::config::SyncorPaths;
use crate::digest::hex_text;
use crate::error::{Result, SyncorError};
use crate::link::{copy_texts, LinkInfo};
use crate::path::{join, joined};
use crate::progress::ProgressReporter;
use crate::sync::conflict::{
    are_verdicts, detect_conflicts, hash_view, Conflict, FileAction, ManifestMap,
    Verdict,
};
use crate::sync::save::{copy_option, ManifestEntry, SaveResult};
use crate::sync::state::ConflictRecord;
use crate::text::{decimal, decimal_text, join2, texts};
use crate::text_map::TextMap;
use crate::transport::{PullResult, PushResult, SyncTransport};
use chkpt_core::store::blob::bytes_to_hex;
use vstd::prelude::*;

verus! {

/// What a push did.
#[derive(Debug)]
pub struct PushSyncResult {
    pub snapshot_id: Option<String>,
    pub pushed: bool,
}

/// What a pull or a restore did in one of the link's directories.
#[derive(Debug)]
pub struct MountOutcome {
    pub dir: String,
    pub files_restored: usize,
    pub error: Option<String>,
}

/// What a pull or a restore did.
#[derive(Debug)]
pub struct PullSyncResult {
    pub restored: bool,
    pub files_restored: usize,
    pub per_mount: Vec<MountOutcome>,
}

/// One thing to do. A step that fails ends the sync with its error, except that a file that
/// cannot be deleted is passed over.
#[derive(Debug)]
pub enum SyncStep {
    /// Remember a conflict.
    RecordConflict(ConflictRecord),
    /// Add an entry to the sync log.
    AppendLog { link_id: String, action: String, status: String, message: Option<String> },
    /// Open the packs of the store; the files to write come out of them.
    OpenPacks { dir: String },
    /// Write the blob `hash_hex` to `dest`, and set its mode where one is known.
    WriteFile { hash_hex: String, dest: String, mode: Option<u32> },
    /// Delete a file.
    DeleteFile { dest: String },
    /// Scan the directory again and bring the file index up to date.
    RefreshIndex,
    /// Flush the write-ahead log of a catalog.
    CheckpointCatalog { path: String },
    /// Copy a catalog.
    CopyCatalog { from: String, to: String },
    /// Remember that both sides are at `snapshot_id` now.
    SaveState { link_id: String, snapshot_id: String, revision: Option<String> },
}

/// A sync that has been decided: the steps, in order, and what to report once they are done.
#[derive(Debug)]
pub struct SyncPlan<T> {
    pub steps: Vec<SyncStep>,
    pub outcome: Result<T>,
}

// ---------------------------------------------------------------------------
// Model
// ---------------------------------------------------------------------------

/// What a step says, over mathematical values.
#[allow(inconsistent_fields)]
pub ghost enum Step {
    RecordConflict {
        link_id: Seq<char>,
        path: Seq<char>,
        local_hash: Option<Seq<char>>,
        remote_hash: Option<Seq<char>>,
        base_hash: Option<Seq<char>>,
    },
    AppendLog {
        link_id: Seq<char>,
        action: Seq<char>,
        status: Seq<char>,
        message: Option<Seq<char>>,
    },
    OpenPacks { dir: Seq<char> },
    WriteFile { hash_hex: Seq<char>, dest: Seq<char>, mode: Option<u32> },
    DeleteFile { dest: Seq<char> },
    RefreshIndex,
    CheckpointCatalog { path: Seq<char> },
    CopyCatalog { from: Seq<char>, to: Seq<char> },
    SaveState { link_id: Seq<char>, snapshot_id: Seq<char>, revision: Option<Seq<char>> },
}

/// An optional text.
pub open spec fn opt_text(t: Option<String>) -> Option<Seq<char>> {
    match t {
        Some(s) => Some(s@),
        None => None,
    }
}

impl View for SyncStep {
    type V = Step;

    open spec fn view(&self) -> Step {
        match *self {
            SyncStep::RecordConflict(c) => Step::RecordConflict {
                link_id: c.link_id@,
                path: c.file_path@,
                local_hash: opt_text(c.local_hash),
                remote_hash: opt_text(c.remote_hash),
                base_hash: opt_text(c.base_hash),
            },
            SyncStep::AppendLog { link_id, action, status, message } => Step::AppendLog {
                link_id: link_id@,
                action: action@,
                status: status@,
                message: opt_text(message),
            },
            SyncStep::OpenPacks { dir } => Step::OpenPacks { dir: dir@ },
            SyncStep::WriteFile { hash_hex, dest, mode } => Step::WriteFile {
                hash_hex: hash_hex@,
                dest: dest@,
                mode,
            },
            SyncStep::DeleteFile { dest } => Step::DeleteFile { dest: dest@ },
            SyncStep::RefreshIndex => Step::RefreshIndex,
            SyncStep::CheckpointCatalog { path } => Step::CheckpointCatalog { path: path@ },
            SyncStep::CopyCatalog { from, to } => Step::CopyCatalog { from: from@, to: to@ },
            SyncStep::SaveState { link_id, snapshot_id, revision } => Step::SaveState {
                link_id: link_id@,
                snapshot_id: snapshot_id@,
                revision: opt_text(revision),
            },
        }
    }
}

/// What the steps say.
pub open spec fn steps_view(steps: Seq<SyncStep>) -> Seq<Step> {
    steps.map_values(|s: SyncStep| s@)
}

/// What the actions say.
pub open spec fn verdicts_view(actions: Seq<FileAction>) -> Seq<Verdict> {
    actions.map_values(|a: FileAction| a@)
}

/// The verdicts that are conflicts, in order.
pub open spec fn conflicts_of(vs: Seq<Verdict>) -> Seq<Verdict>
    decreases vs.len(),
{
    if vs.len() == 0 {
        Seq::empty()
    } else if vs.last() is Conflict {
        conflicts_of(vs.drop_last()).push(vs.last())
    } else {
        conflicts_of(vs.drop_last())
    }
}

/// The verdicts that are no conflicts, in order.
pub open spec fn without_conflicts(vs: Seq<Verdict>) -> Seq<Verdict>
    decreases vs.len(),
{
    if vs.len() == 0 {
        Seq::empty()
    } else if vs.last() is Conflict {
        without_conflicts(vs.drop_last())
    } else {
        without_conflicts(vs.drop_last()).push(vs.last())
    }
}

/// How many of the verdicts write a file.
pub open spec fn writes_of(vs: Seq<Verdict>) -> nat
    decreases vs.len(),
{
    if vs.len() == 0 {
        0
    } else if vs.last() is ApplyRemote {
        writes_of(vs.drop_last()) + 1
    } else {
        writes_of(vs.drop_last())
    }
}

/// A hash in hexadecimal.
pub open spec fn opt_hex(h: Option<Seq<u8>>) -> Option<Seq<char>> {
    match h {
        Some(b) => Some(hex_text(b)),
        None => None,
    }
}

/// The step that remembers a conflict.
pub open spec fn record_step(link_id: Seq<char>, v: Verdict) -> Step {
    match v {
        Verdict::Conflict { path, base_hash, local_hash, remote_hash } => Step::RecordConflict {
            link_id,
            path,
            local_hash: opt_hex(local_hash),
            remote_hash: opt_hex(remote_hash),
            base_hash: opt_hex(base_hash),
        },
        _ => Step::RefreshIndex,
    }
}

/// The step that carries out a verdict in the directory `dir`.
pub open spec fn file_step(dir: Seq<char>, modes: Map<Seq<char>, u32>, v: Verdict) -> Step {
    match v {
        Verdict::ApplyRemote { path, remote_hash } => Step::WriteFile {
            hash_hex: hex_text(remote_hash),
            dest: joined(dir, path),
            mode: if modes.dom().contains(path) {
                Some(modes[path])
            } else {
                None
            },
        },
        _ => Step::DeleteFile { dest: joined(dir, v.path()) },
    }
}

/// The hashes of a manifest, by path.
pub open spec fn manifest_hashes(entries: Seq<ManifestEntry>) -> Map<Seq<char>, [u8; 16]>
    decreases entries.len(),
{
    if entries.len() == 0 {
        Map::empty()
    } else {
        manifest_hashes(entries.drop_last()).insert(entries.last().path@, entries.last().blob_hash)
    }
}

/// The modes of a manifest, by path.
pub open spec fn manifest_modes(entries: Seq<ManifestEntry>) -> Map<Seq<char>, u32>
    decreases entries.len(),
{
    if entries.len() == 0 {
        Map::empty()
    } else {
        manifest_modes(entries.drop_last()).insert(entries.last().path@, entries.last().mode)
    }
}

/// The hashes of a manifest, by path.
pub fn hashes_by_path(entries: &Vec<ManifestEntry>) -> (r: ManifestMap)
    ensures
        r@ == manifest_hashes(entries@),
{
    let mut r: ManifestMap = TextMap::new();
    let mut i: usize = 0;
    assert(entries@.subrange(0, 0) =~= Seq::<ManifestEntry>::empty());
    while i < entries.len()
        invariant
            i <= entries@.len(),
            r@ == manifest_hashes(entries@.subrange(0, i as int)),
        decreases entries@.len() - i,
    {
        assert(entries@.subrange(0, i + 1).drop_last() =~= entries@.subrange(0, i as int));
        r.insert(entries[i].path.clone(), entries[i].blob_hash);
        i = i + 1;
    }
    assert(entries@.subrange(0, i as int) =~= entries@);
    r
}

/// The modes of a manifest, by path.
fn modes_by_path(entries: &Vec<ManifestEntry>) -> (r: TextMap<u32>)
    ensures
        r@ == manifest_modes(entries@),
{
    let mut r: TextMap<u32> = TextMap::new();
    let mut i: usize = 0;
    assert(entries@.subrange(0, 0) =~= Seq::<ManifestEntry>::empty());
    while i < entries.len()
        invariant
            i <= entries@.len(),
            r@ == manifest_modes(entries@.subrange(0, i as int)),
        decreases entries@.len() - i,
    {
        assert(entries@.subrange(0, i + 1).drop_last() =~= entries@.subrange(0, i as int));
        r.insert(entries[i].path.clone(), entries[i].mode);
        i = i + 1;
    }
    assert(entries@.subrange(0, i as int) =~= entries@);
    r
}

// ---------------------------------------------------------------------------
// Pull
// ---------------------------------------------------------------------------

/// What the remote side has, and where to merge it.
#[derive(Debug)]
pub struct PullJob {
    pub link_id: String,
    /// The directory that is synced.
    pub dir: String,
    pub packs_dir: String,
    /// The catalog kept on this machine.
    pub local_catalog: String,
    /// The catalog in the repository.
    pub remote_catalog: String,
    /// The revision of the remote side, where the transport named one.
    pub revision: Option<String>,
}

/// How a pull goes on once the transport is done.
#[derive(Debug)]
pub enum PullStart {
    /// There is nothing to merge.
    Finished(PullSyncResult),
    Merge(PullJob),
}

/// How the local catalog takes in the remote one.
#[derive(Debug)]
pub enum CatalogStep {
    /// There is no local catalog: start with a copy.
    Copy { from: String, to: String },
    /// Add what the remote catalog has and the local one has not.
    Merge { local: String, remote: String },
}

/// Whether `r` is the snapshot to merge from a catalog with `latest` as its latest.
pub open spec fn is_remote_snapshot(latest: Option<String>, r: Result<String>) -> bool {
    match latest {
        Some(id) => r == Ok::<String, SyncorError>(id),
        None => r matches Err(SyncorError::Other(t)) && t@ == "no snapshots in remote catalog"@,
    }
}

/// The steps of a pull that decides on `vs`.
pub open spec fn pull_steps(
    job: PullJob,
    snapshot_id: Seq<char>,
    vs: Seq<Verdict>,
    modes: Map<Seq<char>, u32>,
) -> Seq<Step> {
    let link_id = job.link_id@;
    let cs = conflicts_of(vs);
    if cs.len() > 0 {
        cs.map_values(|v: Verdict| record_step(link_id, v)).push(
            Step::AppendLog {
                link_id,
                action: "pull"@,
                status: "conflict"@,
                message: Some(decimal(cs.len()) + " conflicts"@),
            },
        )
    } else {
        seq![Step::OpenPacks { dir: job.packs_dir@ }] + vs.map_values(
            |v: Verdict| file_step(job.dir@, modes, v),
        ) + seq![
            Step::RefreshIndex,
            Step::CheckpointCatalog { path: job.local_catalog@ },
            Step::CopyCatalog { from: job.local_catalog@, to: job.remote_catalog@ },
            Step::SaveState { link_id, snapshot_id, revision: opt_text(job.revision) },
            Step::AppendLog { link_id, action: "pull"@, status: "success"@, message: None },
        ]
    }
}

/// Whether `r` is what a pull that decides on `vs` reports.
pub open spec fn is_pull_outcome(job: PullJob, vs: Seq<Verdict>, r: Result<PullSyncResult>) -> bool {
    let cs = conflicts_of(vs);
    if cs.len() > 0 {
        r matches Err(SyncorError::Conflict(t)) && t@ == decimal(cs.len())
            + " file(s) in conflict. Run 'syncor resolve' to fix."@
    } else {
        r matches Ok(p) && {
            &&& p.restored
            &&& p.files_restored == writes_of(vs)
            &&& p.per_mount@.len() == 1
            &&& p.per_mount@[0].dir@ == job.dir@
            &&& p.per_mount@[0].files_restored == writes_of(vs)
            &&& p.per_mount@[0].error is None
        }
    }
}

/// A hash in hexadecimal.
fn hex_of(h: &Option<[u8; 16]>) -> (r: Option<String>)
    ensures
        opt_text(r) == opt_hex(hash_view(*h)),
{
    match h {
        Some(b) => Some(bytes_to_hex(b)),
        None => None,
    }
}

/// The record of a conflict.
fn record_of(link_id: &String, c: &Conflict) -> (r: ConflictRecord)
    ensures
        SyncStep::RecordConflict(r)@ == record_step(link_id@, FileAction::Conflict(*c)@),
{
    ConflictRecord {
        link_id: link_id.clone(),
        file_path: c.path.clone(),
        local_hash: hex_of(&c.local_hash),
        remote_hash: hex_of(&c.remote_hash),
        base_hash: hex_of(&c.base_hash),
    }
}

/// An entry for the sync log.
fn log_step(link_id: &String, action: &str, status: &str, message: Option<String>) -> (r: SyncStep)
    ensures
        r@ == (Step::AppendLog {
            link_id: link_id@,
            action: action@,
            status: status@,
            message: opt_text(message),
        }),
{
    SyncStep::AppendLog {
        link_id: link_id.clone(),
        action: action.to_owned(),
        status: status.to_owned(),
        message,
    }
}

/// The mode of a path, if it is known.
fn mode_of(modes: &TextMap<u32>, path: &str) -> (r: Option<u32>)
    ensures
        r == (if modes@.dom().contains(path@) {
            Some(modes@[path@])
        } else {
            None
        }),
{
    match modes.get(path) {
        Some(m) => Some(*m),
        None => None,
    }
}

/// The records of the conflicts among the actions.
fn record_conflicts(link_id: &String, actions: &Vec<FileAction>) -> (r: Vec<SyncStep>)
    ensures
        steps_view(r@) == conflicts_of(verdicts_view(actions@)).map_values(
            |v: Verdict| record_step(link_id@, v),
        ),
{
    let mut r: Vec<SyncStep> = Vec::new();
    let mut i: usize = 0;
    let ghost f = |v: Verdict| record_step(link_id@, v);
    let ghost vs = verdicts_view(actions@);
    assert(vs.subrange(0, 0) =~= Seq::<Verdict>::empty());
    assert(steps_view(r@) =~= conflicts_of(vs.subrange(0, 0)).map_values(f));
    while i < actions.len()
        invariant
            i <= actions@.len(),
            vs == verdicts_view(actions@),
            f == (|v: Verdict| record_step(link_id@, v)),
            steps_view(r@) == conflicts_of(vs.subrange(0, i as int)).map_values(f),
        decreases actions@.len() - i,
    {
        let ghost was = r@;
        let ghost now = vs.subrange(0, i + 1);
        assert(now.drop_last() =~= vs.subrange(0, i as int));
        assert(now.last() == actions@[i as int]@);
        match &actions[i] {
            FileAction::Conflict(c) => {
                r.push(SyncStep::RecordConflict(record_of(link_id, c)));
                assert(steps_view(r@) =~= steps_view(was).push(f(now.last())));
                assert(conflicts_of(now).map_values(f) =~= conflicts_of(
                    vs.subrange(0, i as int),
                ).map_values(f).push(f(now.last())));
            },
            _ => {},
        }
        i = i + 1;
    }
    assert(vs.subrange(0, i as int) =~= vs);
    r
}

/// Carries out the actions in the directory `dir`. None of them is a conflict.
fn carry_out(dir: &String, modes: &TextMap<u32>, actions: &Vec<FileAction>) -> (r: (
    Vec<SyncStep>,
    usize,
))
    requires
        conflicts_of(verdicts_view(actions@)).len() == 0,
    ensures
        steps_view(r.0@) == verdicts_view(actions@).map_values(
            |v: Verdict| file_step(dir@, modes@, v),
        ),
        r.1 == writes_of(verdicts_view(actions@)),
{
    let mut r: Vec<SyncStep> = Vec::new();
    let mut n: usize = 0;
    let mut i: usize = 0;
    let ghost f = |v: Verdict| file_step(dir@, modes@, v);
    let ghost vs = verdicts_view(actions@);
    assert(vs.subrange(0, 0) =~= Seq::<Verdict>::empty());
    assert(steps_view(r@) =~= vs.subrange(0, 0).map_values(f));
    while i < actions.len()
        invariant
            i <= actions@.len(),
            n <= i,
            vs == verdicts_view(actions@),
            conflicts_of(vs).len() == 0,
            f == (|v: Verdict| file_step(dir@, modes@, v)),
            steps_view(r@) == vs.subrange(0, i as int).map_values(f),
            n == writes_of(vs.subrange(0, i as int)),
        decreases actions@.len() - i,
    {
        let ghost was = r@;
        let ghost now = vs.subrange(0, i + 1);
        assert(now.drop_last() =~= vs.subrange(0, i as int));
        assert(now.last() == actions@[i as int]@);
        proof {
            no_conflict_within(vs, i as int);
        }
        match &actions[i] {
            FileAction::ApplyRemote { path, remote_hash } => {
                r.push(
                    SyncStep::WriteFile {
                        hash_hex: bytes_to_hex(remote_hash),
                        dest: join(dir.as_str(), path.as_str()),
                        mode: mode_of(modes, path.as_str()),
                    },
                );
                n = n + 1;
            },
            FileAction::DeleteLocal { path } => {
                r.push(SyncStep::DeleteFile { dest: join(dir.as_str(), path.as_str()) });
            },
            FileAction::Conflict(_) => {},
        }
        assert(steps_view(r@) =~= steps_view(was).push(f(now.last())));
        assert(now.map_values(f) =~= vs.subrange(0, i as int).map_values(f).push(f(now.last())));
        i = i + 1;
    }
    assert(vs.subrange(0, i as int) =~= vs);
    (r, n)
}

/// Verdicts without conflicts have none at any position.
pub proof fn no_conflict_within(vs: Seq<Verdict>, i: int)
    requires
        conflicts_of(vs).len() == 0,
        0 <= i < vs.len(),
    ensures
        !(vs[i] is Conflict),
    decreases vs.len(),
{
    if i < vs.len() - 1 {
        no_conflict_within(vs.drop_last(), i);
    }
}

impl PullJob {
    /// Whether `plan` is what a pull has to do that compares `base`, `local` and `remote`.
    pub open spec fn is_plan(
        &self,
        snapshot_id: Seq<char>,
        base: Seq<ManifestEntry>,
        local: Map<Seq<char>, [u8; 16]>,
        remote: Seq<ManifestEntry>,
        plan: SyncPlan<PullSyncResult>,
    ) -> bool {
        exists|actions: Seq<FileAction>|
            {
                &&& #[trigger] are_verdicts(
                    actions,
                    manifest_hashes(base),
                    local,
                    manifest_hashes(remote),
                )
                &&& steps_view(plan.steps@) == pull_steps(
                    *self,
                    snapshot_id,
                    verdicts_view(actions),
                    manifest_modes(remote),
                )
                &&& is_pull_outcome(*self, verdicts_view(actions), plan.outcome)
            }
    }

    /// Whether `plan` is what a first sync of `local` and `remote` has to do once its conflicts
    /// are settled.
    pub open spec fn is_settled_plan(
        &self,
        snapshot_id: Seq<char>,
        local: Map<Seq<char>, [u8; 16]>,
        remote: Seq<ManifestEntry>,
        plan: SyncPlan<PullSyncResult>,
    ) -> bool {
        exists|actions: Seq<FileAction>|
            {
                &&& #[trigger] are_verdicts(actions, Map::empty(), local, manifest_hashes(remote))
                &&& steps_view(plan.steps@) == pull_steps(
                    *self,
                    snapshot_id,
                    without_conflicts(verdicts_view(actions)),
                    manifest_modes(remote),
                )
                &&& is_pull_outcome(
                    *self,
                    without_conflicts(verdicts_view(actions)),
                    plan.outcome,
                )
            }
    }

    /// Whether `r` is how the local catalog takes in the remote one.
    pub open spec fn is_catalog_step(&self, local_exists: bool, r: CatalogStep) -> bool {
        if local_exists {
            r matches CatalogStep::Merge { local, remote } && local == self.local_catalog && remote
                == self.remote_catalog
        } else {
            r matches CatalogStep::Copy { from, to } && from == self.remote_catalog && to
                == self.local_catalog
        }
    }

    /// How the local catalog takes in the remote one.
    pub fn catalog_step(&self, local_exists: bool) -> (r: CatalogStep)
        ensures
            self.is_catalog_step(local_exists, r),
    {
        if local_exists {
            CatalogStep::Merge {
                local: self.local_catalog.clone(),
                remote: self.remote_catalog.clone(),
            }
        } else {
            CatalogStep::Copy { from: self.remote_catalog.clone(), to: self.local_catalog.clone() }
        }
    }

    /// The snapshot to merge: the latest of the catalog, which must have one.
    pub fn remote_snapshot(latest: Option<String>) -> (r: Result<String>)
        ensures
            is_remote_snapshot(latest, r),
    {
        match latest {
            Some(id) => Ok(id),
            None => Err(SyncorError::Other("no snapshots in remote catalog".to_owned())),
        }
    }

    /// What a pull has to do that decided on `actions`.
    pub fn plan_for(
        &self,
        snapshot_id: &str,
        actions: &Vec<FileAction>,
        modes: &TextMap<u32>,
    ) -> (r: SyncPlan<PullSyncResult>)
        ensures
            steps_view(r.steps@) == pull_steps(
                *self,
                snapshot_id@,
                verdicts_view(actions@),
                modes@,
            ),
            is_pull_outcome(*self, verdicts_view(actions@), r.outcome),
    {
        let mut records = record_conflicts(&self.link_id, actions);
        let ghost vs = verdicts_view(actions@);
        let ghost cs = conflicts_of(vs);
        assert(steps_view(records@).len() == cs.len());
        if records.len() > 0 {
            let n = decimal_text(records.len() as u64);
            let ghost was = records@;
            records.push(
                log_step(
                    &self.link_id,
                    "pull",
                    "conflict",
                    Some(join2(n.as_str(), " conflicts")),
                ),
            );
            assert(steps_view(records@) =~= pull_steps(*self, snapshot_id@, vs, modes@));
            return SyncPlan {
                steps: records,
                outcome: Err(
                    SyncorError::Conflict(
                        join2(
                            n.as_str(),
                            " file(s) in conflict. Run 'syncor resolve' to fix.",
                        ),
                    ),
                ),
            };
        }
        let (mut files, files_restored) = carry_out(&self.dir, modes, actions);
        let ghost written = files@;
        let mut steps: Vec<SyncStep> = Vec::new();
        steps.push(SyncStep::OpenPacks { dir: self.packs_dir.clone() });
        steps.append(&mut files);
        steps.push(SyncStep::RefreshIndex);
        steps.push(SyncStep::CheckpointCatalog { path: self.local_catalog.clone() });
        steps.push(
            SyncStep::CopyCatalog {
                from: self.local_catalog.clone(),
                to: self.remote_catalog.clone(),
            },
        );
        steps.push(
            SyncStep::SaveState {
                link_id: self.link_id.clone(),
                snapshot_id: snapshot_id.to_owned(),
                revision: copy_option(&self.revision),
            },
        );
        steps.push(log_step(&self.link_id, "pull", "success", None));
        assert(steps_view(steps@) =~= pull_steps(*self, snapshot_id@, vs, modes@)) by {
            assert(steps_view(written) == vs.map_values(
                |v: Verdict| file_step(self.dir@, modes@, v),
            ));
        }
        let mut per_mount: Vec<MountOutcome> = Vec::new();
        per_mount.push(MountOutcome { dir: self.dir.clone(), files_restored, error: None });
        SyncPlan {
            steps,
            outcome: Ok(PullSyncResult { restored: true, files_restored, per_mount }),
        }
    }

    /// What a pull has to do, by three-point comparison of the last synced snapshot, the local
    /// directory and the remote snapshot.
    pub fn plan(
        &self,
        snapshot_id: &str,
        base: &Vec<ManifestEntry>,
        local: &ManifestMap,
        remote: &Vec<ManifestEntry>,
    ) -> (r: SyncPlan<PullSyncResult>)
        ensures
            self.is_plan(snapshot_id@, base@, local@, remote@, r),
    {
        let base_map = hashes_by_path(base);
        let remote_map = hashes_by_path(remote);
        let actions = detect_conflicts(&base_map, local, &remote_map);
        let modes = modes_by_path(remote);
        self.plan_for(snapshot_id, &actions, &modes)
    }

    /// What the first sync of a directory has to do that may hold files already: a merge with
    /// nothing as its base. What only one side has was added there; what both have and differ in
    /// is a conflict.
    pub fn first_plan(
        &self,
        snapshot_id: &str,
        local: &ManifestMap,
        remote: &Vec<ManifestEntry>,
    ) -> (r: SyncPlan<PullSyncResult>)
        ensures
            self.is_plan(snapshot_id@, Seq::empty(), local@, remote@, r),
            exists|actions: Seq<FileAction>|
                {
                    &&& #[trigger] are_verdicts(
                        actions,
                        Map::empty(),
                        local@,
                        manifest_hashes(remote@),
                    )
                    &&& steps_view(r.steps@) == pull_steps(
                        *self,
                        snapshot_id@,
                        verdicts_view(actions),
                        manifest_modes(remote@),
                    )
                    &&& is_pull_outcome(*self, verdicts_view(actions), r.outcome)
                },
    {
        let base: Vec<ManifestEntry> = Vec::new();
        self.plan(snapshot_id, &base, local, remote)
    }

    /// What a first sync has to do once the user has settled its conflicts: what is still
    /// different stays what it is locally, and the rest is merged.
    pub fn settled_plan(
        &self,
        snapshot_id: &str,
        local: &ManifestMap,
        remote: &Vec<ManifestEntry>,
    ) -> (r: SyncPlan<PullSyncResult>)
        ensures
            self.is_settled_plan(snapshot_id@, local@, remote@, r),
    {
        let base_map: ManifestMap = TextMap::new();
        let remote_map = hashes_by_path(remote);
        let actions = detect_conflicts(&base_map, local, &remote_map);
        let ghost all = actions@;
        assert(are_verdicts(all, Map::empty(), local@, manifest_hashes(remote@)));
        let kept = leave_conflicts(actions);
        let modes = modes_by_path(remote);
        self.plan_for(snapshot_id, &kept, &modes)
    }
}

/// The actions that are no conflicts.
fn leave_conflicts(actions: Vec<FileAction>) -> (r: Vec<FileAction>)
    ensures
        verdicts_view(r@) == without_conflicts(verdicts_view(actions@)),
{
    let ghost all = actions@;
    let ghost vs = verdicts_view(all);
    let mut r: Vec<FileAction> = Vec::new();
    assert(vs.subrange(0, 0) =~= Seq::<Verdict>::empty());
    assert(verdicts_view(r@) =~= without_conflicts(vs.subrange(0, 0)));
    for action in it: actions
        invariant
            it.seq() == all,
            vs == verdicts_view(all),
            verdicts_view(r@) == without_conflicts(vs.subrange(0, it.index() as int)),
    {
        let ghost was = r@;
        let ghost now = vs.subrange(0, it.index() + 1);
        assert(now.drop_last() =~= vs.subrange(0, it.index() as int));
        assert(now.last() == action@);
        let skip = match &action {
            FileAction::Conflict(_) => true,
            _ => false,
        };
        if !skip {
            r.push(action);
            assert(verdicts_view(r@) =~= verdicts_view(was).push(now.last()));
        }
    }
    assert(vs.subrange(0, vs.len() as int) =~= vs);
    r
}

// ---------------------------------------------------------------------------
// Push
// ---------------------------------------------------------------------------

/// The steps of a push whose transport answered `answer`.
pub open spec fn push_steps(
    link_id: Seq<char>,
    snapshot_id: Seq<char>,
    answer: PushResult,
) -> Seq<Step> {
    match answer {
        PushResult::Success { revision } => seq![
            Step::SaveState { link_id, snapshot_id, revision: Some(revision@) },
            Step::AppendLog { link_id, action: "push"@, status: "success"@, message: None },
        ],
        PushResult::Conflict { details } => seq![
            Step::AppendLog {
                link_id,
                action: "push"@,
                status: "conflict"@,
                message: Some(details.message@),
            },
        ],
    }
}

/// Whether `r` is what a push reports whose transport answered `answer`.
pub open spec fn is_push_outcome(
    snapshot_id: Seq<char>,
    answer: PushResult,
    r: Result<PushSyncResult>,
) -> bool {
    match answer {
        PushResult::Success { .. } => r matches Ok(p) && p.pushed && opt_text(p.snapshot_id) == Some(
            snapshot_id,
        ),
        PushResult::Conflict { details } => r matches Err(SyncorError::Conflict(t)) && t
            == details.message,
    }
}

/// Whether `plan` is what a push has to do whose transport answered `answer`.
pub open spec fn is_push_plan(
    link_id: Seq<char>,
    snapshot_id: Seq<char>,
    answer: PushResult,
    plan: SyncPlan<PushSyncResult>,
) -> bool {
    &&& steps_view(plan.steps@) == push_steps(link_id, snapshot_id, answer)
    &&& is_push_outcome(snapshot_id, answer, plan.outcome)
}

/// Where the push of a link stands: what it waits for. A push that the remote side rejects is
/// followed by a pull, and by another push if that merges.
#[derive(Debug, Clone, Copy, PartialEq, Eq, Structural)]
pub enum PushRound {
    Pushing,
    Pulling,
    PushingAgain,
    Finished,
}

/// What came of what a push round asked for.
#[derive(Debug)]
pub enum RoundEvent {
    Pushed(Result<PushSyncResult>),
    Pulled(Result<PullSyncResult>),
}

/// What a push round wants next.
#[derive(Debug)]
pub enum RoundStep {
    /// Save the directory, and push it.
    Push,
    /// Pull what the remote side has.
    Pull,
    Done(Result<PushSyncResult>),
}

/// Whether a push was rejected because the remote side has something new.
pub open spec fn was_rejected(r: Result<PushSyncResult>) -> bool {
    r matches Err(e) && e is Conflict
}

/// Whether the event leads a push round to the next state and step.
pub open spec fn is_round_move(
    st: PushRound,
    event: RoundEvent,
    next: PushRound,
    step: RoundStep,
) -> bool {
    match (st, event) {
        (PushRound::Pushing, RoundEvent::Pushed(r)) => if was_rejected(r) {
            next is Pulling && step is Pull
        } else {
            next is Finished && step == RoundStep::Done(r)
        },
        (PushRound::Pulling, RoundEvent::Pulled(r)) => match r {
            Ok(_) => next is PushingAgain && step is Push,
            Err(e) => next is Finished && step == RoundStep::Done(Err(e)),
        },
        (PushRound::PushingAgain, RoundEvent::Pushed(r)) => next is Finished && step
            == RoundStep::Done(r),
        _ => false,
    }
}

impl PushRound {
    /// Whether the event is one that the round waits for.
    pub open spec fn takes(&self, event: RoundEvent) -> bool {
        match *self {
            PushRound::Pushing | PushRound::PushingAgain => event is Pushed,
            PushRound::Pulling => event is Pulled,
            PushRound::Finished => false,
        }
    }

    /// A push round: pushes first.
    pub fn start() -> (r: (Self, RoundStep))
        ensures
            r.0 is Pushing,
            r.1 is Push,
    {
        (PushRound::Pushing, RoundStep::Push)
    }

    /// Takes an event in.
    pub fn next(self, event: RoundEvent) -> (r: (Self, RoundStep))
        requires
            self.takes(event),
        ensures
            is_round_move(self, event, r.0, r.1),
    {
        match (self, event) {
            (PushRound::Pushing, RoundEvent::Pushed(Err(SyncorError::Conflict(_)))) => (
                PushRound::Pulling,
                RoundStep::Pull,
            ),
            (PushRound::Pulling, RoundEvent::Pulled(Ok(_))) => (
                PushRound::PushingAgain,
                RoundStep::Push,
            ),
            (_, RoundEvent::Pushed(r)) => (PushRound::Finished, RoundStep::Done(r)),
            (_, RoundEvent::Pulled(Err(e))) => (PushRound::Finished, RoundStep::Done(Err(e))),
            (st, _) => (
                st,
                RoundStep::Done(Err(SyncorError::Other("event out of turn".to_owned()))),
            ),
        }
    }
}

// ---------------------------------------------------------------------------
// Restore and connect
// ---------------------------------------------------------------------------

/// A snapshot to restore, and where to.
#[derive(Debug)]
pub struct RestoreJob {
    pub snapshot_id: String,
    pub store_dir: String,
    /// All directories of the link.
    pub dirs: Vec<String>,
}

/// How a restore goes on.
#[derive(Debug)]
pub enum RestoreStart {
    /// There is nothing to restore.
    Finished(PullSyncResult),
    Restore(RestoreJob),
}

/// How the connection of a new link goes on.
#[derive(Debug)]
pub enum ConnectStart {
    /// There is nothing to restore.
    Finished(PullSyncResult),
    Restore(RestoreJob),
    Merge(PullJob),
}

/// What came of restoring a snapshot into one directory.
#[derive(Debug)]
pub struct MountRestore {
    pub dir: String,
    pub result: Result<usize>,
}

/// Whether nothing was restored anywhere.
pub open spec fn all_failed(mounts: Seq<MountRestore>) -> bool {
    forall|i: int| 0 <= i < mounts.len() ==> (#[trigger] mounts[i]).result is Err
}

/// The files restored in all directories together.
pub open spec fn files_in(mounts: Seq<MountRestore>) -> nat
    decreases mounts.len(),
{
    if mounts.len() == 0 {
        0
    } else {
        files_in(mounts.drop_last()) + match mounts.last().result {
            Ok(n) => n as nat,
            Err(_) => 0,
        }
    }
}

/// Whether `o` reports what came of a directory.
pub open spec fn is_outcome_of(o: MountOutcome, m: MountRestore) -> bool {
    &&& o.dir == m.dir
    &&& match m.result {
        Ok(n) => o.files_restored == n && o.error is None,
        Err(e) => o.files_restored == 0 && opt_text(o.error) == Some(e.text()),
    }
}

/// Whether the outcomes report what came of the directories, one for each and in their order.
pub open spec fn are_outcomes_of(os: Seq<MountOutcome>, mounts: Seq<MountRestore>) -> bool {
    &&& os.len() == mounts.len()
    &&& forall|i: int| 0 <= i < os.len() ==> is_outcome_of(#[trigger] os[i], mounts[i])
}

/// The steps behind a restore.
pub open spec fn restore_steps(
    link_id: Seq<char>,
    snapshot_id: Seq<char>,
    mounts: Seq<MountRestore>,
) -> Seq<Step> {
    if all_failed(mounts) {
        Seq::empty()
    } else {
        seq![
            Step::RefreshIndex,
            Step::SaveState { link_id, snapshot_id, revision: None },
        ]
    }
}

/// Whether `r` is what a restore reports. It fails only where every directory failed, with the
/// error of the first.
pub open spec fn is_restore_outcome(mounts: Seq<MountRestore>, r: Result<PullSyncResult>) -> bool {
    if all_failed(mounts) {
        r matches Err(e) && mounts[0].result == Err::<usize, SyncorError>(e)
    } else {
        r matches Ok(p) && {
            &&& p.restored
            &&& p.files_restored == (if files_in(mounts) > usize::MAX {
                usize::MAX as nat
            } else {
                files_in(mounts)
            })
            &&& are_outcomes_of(p.per_mount@, mounts)
        }
    }
}

/// Whether `plan` is what is left to do once a snapshot was restored.
pub open spec fn is_restore_plan(
    link_id: Seq<char>,
    snapshot_id: Seq<char>,
    mounts: Seq<MountRestore>,
    plan: SyncPlan<PullSyncResult>,
) -> bool {
    &&& steps_view(plan.steps@) == restore_steps(link_id, snapshot_id, mounts)
    &&& is_restore_outcome(mounts, plan.outcome)
}

/// Reports what came of the directories.
fn report_mounts(mounts: &Vec<MountRestore>) -> (r: (Vec<MountOutcome>, usize, bool))
    ensures
        are_outcomes_of(r.0@, mounts@),
        r.1 == (if files_in(mounts@) > usize::MAX {
            usize::MAX as nat
        } else {
            files_in(mounts@)
        }),
        r.2 == all_failed(mounts@),
{
    let mut out: Vec<MountOutcome> = Vec::new();
    let mut files: usize = 0;
    let mut failed = true;
    let mut i: usize = 0;
    while i < mounts.len()
        invariant
            i <= mounts@.len(),
            out@.len() == i,
            forall|j: int| 0 <= j < i ==> is_outcome_of(#[trigger] out@[j], mounts@[j]),
            files == (if files_in(mounts@.subrange(0, i as int)) > usize::MAX {
                usize::MAX as nat
            } else {
                files_in(mounts@.subrange(0, i as int))
            }),
            failed == all_failed(mounts@.subrange(0, i as int)),
        decreases mounts@.len() - i,
    {
        let ghost now = mounts@.subrange(0, i + 1);
        let ghost before = mounts@.subrange(0, i as int);
        assert(now.drop_last() =~= before);
        assert(now.last() == mounts@[i as int]);
        let m = &mounts[i];
        match &m.result {
            Ok(n) => {
                out.push(MountOutcome { dir: m.dir.clone(), files_restored: *n, error: None });
                files = match files.checked_add(*n) {
                    Some(total) => total,
                    None => usize::MAX,
                };
                failed = false;
                assert(now[i as int].result is Ok);
            },
            Err(e) => {
                out.push(
                    MountOutcome { dir: m.dir.clone(), files_restored: 0, error: Some(e.message()) },
                );
                proof {
                    if all_failed(before) {
                        assert forall|j: int| 0 <= j < now.len() implies (
                        #[trigger] now[j]).result is Err by {
                            if j < i {
                                assert(before[j].result is Err);
                            }
                        }
                    }
                    if all_failed(now) {
                        assert forall|j: int| 0 <= j < before.len() implies (
                        #[trigger] before[j]).result is Err by {
                            assert(now[j].result is Err);
                        }
                    }
                }
            },
        }
        i = i + 1;
    }
    assert(mounts@.subrange(0, i as int) =~= mounts@);
    (out, files, failed)
}

// ---------------------------------------------------------------------------
// SyncEngine
// ---------------------------------------------------------------------------

/// Whether a link that was last synced at `base` still waits for its first sync, with a store
/// that has `latest` as its latest snapshot.
pub open spec fn never_synced(base: Option<String>, latest: Option<String>) -> bool {
    base is None && latest is Some
}

/// Whether a result reports nothing done.
pub open spec fn reports_nothing(p: PullSyncResult) -> bool {
    !p.restored && p.files_restored == 0 && p.per_mount@.len() == 0
}

/// Syncs links through a transport.
pub struct SyncEngine {
    paths: SyncorPaths,
    // In a tuple: moving it in is then no coercion between trait objects, of which nothing would
    // be known.
    transport: (Box<dyn SyncTransport>,),
}

impl SyncEngine {
    /// Where the engine keeps things.
    pub closed spec fn paths(&self) -> SyncorPaths {
        self.paths
    }

    /// Whether the engine's transport may come to `r` when it sets up the remote side of a link.
    pub closed spec fn may_init(&self, link: LinkInfo, r: Result<()>) -> bool {
        self.transport.0.may_init(link, r)
    }

    /// Whether the engine's transport may come to `r` when it pushes the store at `store_path`.
    pub closed spec fn may_push(
        &self,
        link: LinkInfo,
        store_path: Seq<char>,
        r: Result<PushResult>,
    ) -> bool {
        self.transport.0.may_push(link, store_path, r)
    }

    /// Whether the engine's transport may come to `r` when it pulls the store at `store_path`.
    pub closed spec fn may_pull(
        &self,
        link: LinkInfo,
        store_path: Seq<char>,
        r: Result<PullResult>,
    ) -> bool {
        self.transport.0.may_pull(link, store_path, r)
    }

    /// The store of a link.
    pub open spec fn store_of(&self, link: LinkInfo) -> Seq<char> {
        joined(joined(self.paths().repo_of(link.id@), "stores"@), link.name@)
    }

    /// Whether `job` merges the store of a link, which the transport left at `revision`.
    pub open spec fn is_merge_of(
        &self,
        link: LinkInfo,
        revision: Option<String>,
        job: PullJob,
    ) -> bool {
        &&& job.link_id@ == link.id@
        &&& job.dir == link.local_dirs@[0]
        &&& job.packs_dir@ == joined(self.store_of(link), "packs"@)
        &&& job.local_catalog@ == joined(self.paths().repo_of(link.id@), "catalog.sqlite"@)
        &&& job.remote_catalog@ == joined(self.store_of(link), "catalog.sqlite"@)
        &&& job.revision == revision
    }

    /// Whether `r` is how a pull goes on whose transport answered `answer`. Even where the
    /// transport has nothing new, there is something to merge if the store has a snapshot and the
    /// link has never been synced.
    pub open spec fn is_pull_start(
        &self,
        link: LinkInfo,
        base: Option<String>,
        latest: Option<String>,
        answer: PullResult,
        r: Result<PullStart>,
    ) -> bool {
        match answer {
            PullResult::UpToDate => if never_synced(base, latest) {
                r matches Ok(PullStart::Merge(job)) && self.is_merge_of(link, None, job)
            } else {
                r matches Ok(PullStart::Finished(p)) && reports_nothing(p)
            },
            PullResult::Conflict { details } => r matches Err(SyncorError::Conflict(t)) && t
                == details.message,
            PullResult::Success { revision } => r matches Ok(PullStart::Merge(job))
                && self.is_merge_of(link, Some(revision), job),
        }
    }

    /// Whether `job` restores a snapshot of a link into all its directories.
    pub open spec fn is_restore_of(
        &self,
        link: LinkInfo,
        snapshot_id: String,
        job: RestoreJob,
    ) -> bool {
        &&& job.snapshot_id == snapshot_id
        &&& job.store_dir@ == self.store_of(link)
        &&& texts(job.dirs@) == texts(link.local_dirs@)
    }

    /// Whether `r` is how a restore of the latest snapshot goes on.
    pub open spec fn is_restore_start(
        &self,
        link: LinkInfo,
        latest: Option<String>,
        r: RestoreStart,
    ) -> bool {
        match latest {
            Some(id) => r matches RestoreStart::Restore(job) && self.is_restore_of(link, id, job),
            None => r matches RestoreStart::Finished(p) && reports_nothing(p),
        }
    }

    /// Whether `r` is how the connection of a link goes on whose directory holds the files
    /// `found`.
    pub open spec fn is_connect_start(
        &self,
        link: LinkInfo,
        latest: Option<String>,
        found: Map<Seq<char>, [u8; 16]>,
        r: ConnectStart,
    ) -> bool {
        match latest {
            Some(id) => if found.dom() =~= Set::empty() {
                r matches ConnectStart::Restore(job) && self.is_restore_of(link, id, job)
            } else {
                r matches ConnectStart::Merge(job) && self.is_merge_of(link, None, job)
            },
            None => r matches ConnectStart::Finished(p) && reports_nothing(p),
        }
    }

    /// Whether `r` is what is left to merge once the conflicts of a link are settled.
    pub open spec fn is_left_to_merge(
        &self,
        link: LinkInfo,
        base: Option<String>,
        latest: Option<String>,
        r: Option<PullJob>,
    ) -> bool {
        match r {
            Some(job) => never_synced(base, latest) && self.is_merge_of(link, None, job),
            None => !never_synced(base, latest),
        }
    }

    pub fn new(paths: SyncorPaths, transport: Box<dyn SyncTransport>) -> (r: Self)
        ensures
            r.paths() == paths,
            forall|link: LinkInfo, x: Result<()>| #[trigger]
                r.may_init(link, x) == transport.may_init(link, x),
            forall|link: LinkInfo, store: Seq<char>, x: Result<PushResult>| #[trigger]
                r.may_push(link, store, x) == transport.may_push(link, store, x),
            forall|link: LinkInfo, store: Seq<char>, x: Result<PullResult>| #[trigger]
                r.may_pull(link, store, x) == transport.may_pull(link, store, x),
    {
        let transport = (transport,);
        SyncEngine { paths, transport }
    }

    /// The store of a link, inside its repository checkout.
    pub fn store_dir(&self, link: &LinkInfo) -> (r: String)
        ensures
            r@ == self.store_of(*link),
    {
        let stores = join(self.paths.link_repo_dir(&link.id).as_str(), "stores");
        join(stores.as_str(), link.name.as_str())
    }

    /// The catalog of a link's store.
    pub fn catalog_path(&self, link: &LinkInfo) -> (r: String)
        ensures
            r@ == joined(self.store_of(*link), "catalog.sqlite"@),
    {
        join(self.store_dir(link).as_str(), "catalog.sqlite")
    }

    /// Sets the remote side of a link up; returns the directory that has to exist then.
    pub fn init_link(&self, link: &LinkInfo, reporter: &dyn ProgressReporter) -> (r: Result<String>)
        ensures
            match r {
                Ok(dir) => dir@ == self.paths().links() && exists|x: Result<()>|
                    x is Ok && #[trigger] self.may_init(*link, x),
                Err(e) => self.may_init(*link, Err(e)),
            },
    {
        let r = self.transport.0.init_remote(link, reporter);
        assert(self.may_init(*link, r));
        match r {
            Ok(()) => Ok(self.paths.link_dir()),
            Err(e) => Err(e),
        }
    }

    /// What a push has to do once the transport has answered.
    pub fn after_push(link: &LinkInfo, saved: &SaveResult, answer: PushResult) -> (r: SyncPlan<
        PushSyncResult,
    >)
        ensures
            is_push_plan(link.id@, saved.snapshot_id@, answer, r),
    {
        let link_id = link.id.as_str().to_owned();
        let mut steps: Vec<SyncStep> = Vec::new();
        match answer {
            PushResult::Success { revision } => {
                steps.push(
                    SyncStep::SaveState {
                        link_id: link_id.clone(),
                        snapshot_id: saved.snapshot_id.clone(),
                        revision: Some(revision),
                    },
                );
                steps.push(log_step(&link_id, "push", "success", None));
                assert(steps_view(steps@) =~= push_steps(link.id@, saved.snapshot_id@, answer));
                SyncPlan {
                    steps,
                    outcome: Ok(
                        PushSyncResult { snapshot_id: Some(saved.snapshot_id.clone()), pushed: true },
                    ),
                }
            },
            PushResult::Conflict { details } => {
                steps.push(log_step(&link_id, "push", "conflict", Some(details.message.clone())));
                assert(steps_view(steps@) =~= push_steps(link.id@, saved.snapshot_id@, answer));
                SyncPlan { steps, outcome: Err(SyncorError::Conflict(details.message)) }
            },
        }
    }

    /// Pushes the store of a link, into which `saved` was just saved; returns what is left to do.
    pub fn push(
        &self,
        link: &LinkInfo,
        saved: &SaveResult,
        reporter: &dyn ProgressReporter,
    ) -> (r: Result<SyncPlan<PushSyncResult>>)
        ensures
            match r {
                Ok(plan) => exists|answer: PushResult|
                    self.may_push(*link, self.store_of(*link), Ok(answer))
                        && #[trigger] is_push_plan(link.id@, saved.snapshot_id@, answer, plan),
                Err(e) => self.may_push(*link, self.store_of(*link), Err(e)),
            },
    {
        let store_dir = self.store_dir(link);
        match self.transport.0.push(link, store_dir.as_str(), reporter) {
            Ok(answer) => Ok(SyncEngine::after_push(link, saved, answer)),
            Err(e) => Err(e),
        }
    }

    /// A result that reports nothing done.
    pub fn nothing_restored() -> (r: PullSyncResult)
        ensures
            reports_nothing(r),
    {
        PullSyncResult { restored: false, files_restored: 0, per_mount: Vec::new() }
    }

    /// The job of merging a link's store, which the transport left at `revision`.
    fn merge_job(&self, link: &LinkInfo, revision: Option<String>) -> (r: PullJob)
        requires
            link.local_dirs@.len() > 0,
        ensures
            self.is_merge_of(*link, revision, r),
    {
        let store_dir = self.store_dir(link);
        PullJob {
            link_id: link.id.as_str().to_owned(),
            dir: link.primary_dir().clone(),
            packs_dir: join(store_dir.as_str(), "packs"),
            local_catalog: join(self.paths.link_repo_dir(&link.id).as_str(), "catalog.sqlite"),
            remote_catalog: self.catalog_path(link),
            revision,
        }
    }

    /// How a pull goes on once the transport has answered. The link was last synced at `base`;
    /// `latest` is the latest snapshot that its store had before the transport pulled.
    pub fn after_pull(
        &self,
        link: &LinkInfo,
        base: &Option<String>,
        latest: &Option<String>,
        answer: PullResult,
    ) -> (r: Result<PullStart>)
        requires
            link.local_dirs@.len() > 0,
        ensures
            self.is_pull_start(*link, *base, *latest, answer, r),
    {
        match answer {
            PullResult::UpToDate => {
                if base.is_none() && latest.is_some() {
                    Ok(PullStart::Merge(self.merge_job(link, None)))
                } else {
                    Ok(PullStart::Finished(SyncEngine::nothing_restored()))
                }
            },
            PullResult::Conflict { details } => Err(SyncorError::Conflict(details.message)),
            PullResult::Success { revision } => Ok(
                PullStart::Merge(self.merge_job(link, Some(revision))),
            ),
        }
    }

    /// Pulls a link's store; returns how to go on. The link was last synced at `base`; `latest` is
    /// the latest snapshot that its store has before that.
    pub fn pull(
        &self,
        link: &LinkInfo,
        base: &Option<String>,
        latest: &Option<String>,
        reporter: &dyn ProgressReporter,
    ) -> (r: Result<PullStart>)
        requires
            link.local_dirs@.len() > 0,
        ensures
            (exists|answer: PullResult|
                self.may_pull(*link, self.store_of(*link), Ok(answer))
                    && #[trigger] self.is_pull_start(*link, *base, *latest, answer, r)) || (r
                matches Err(e) && self.may_pull(*link, self.store_of(*link), Err(e))),
    {
        let store_dir = self.store_dir(link);
        match self.transport.0.pull(link, store_dir.as_str(), reporter) {
            Ok(answer) => self.after_pull(link, base, latest, answer),
            Err(e) => Err(e),
        }
    }

    /// How the connection of a new link goes on, whose directory holds the files `found`: an empty
    /// directory gets the latest snapshot; one that holds files is merged with it.
    pub fn connect(&self, link: &LinkInfo, latest: Option<String>, found: &ManifestMap) -> (r:
        ConnectStart)
        requires
            link.local_dirs@.len() == 1,
        ensures
            self.is_connect_start(*link, latest, found@, r),
    {
        if latest.is_some() && found.len() > 0 {
            assert(found@.dom().contains(found.keys()[0]));
            return ConnectStart::Merge(self.merge_job(link, None));
        }
        match self.restore_latest(link, latest) {
            RestoreStart::Finished(p) => ConnectStart::Finished(p),
            RestoreStart::Restore(job) => ConnectStart::Restore(job),
        }
    }

    /// What is left to merge once the user has settled the conflicts of a link that was last
    /// synced at `base`, with a store that has `latest` as its latest snapshot: all of it, if this
    /// was the first sync.
    pub fn after_resolve(
        &self,
        link: &LinkInfo,
        base: &Option<String>,
        latest: &Option<String>,
    ) -> (r: Option<PullJob>)
        requires
            link.local_dirs@.len() > 0,
        ensures
            self.is_left_to_merge(*link, *base, *latest, r),
    {
        if base.is_none() && latest.is_some() {
            Some(self.merge_job(link, None))
        } else {
            None
        }
    }

    /// Restores the latest snapshot of a link's catalog into every directory of the link, whatever
    /// they hold. There may be no snapshot, or no catalog.
    pub fn restore_latest(&self, link: &LinkInfo, latest: Option<String>) -> (r: RestoreStart)
        ensures
            self.is_restore_start(*link, latest, r),
    {
        match latest {
            Some(snapshot_id) => RestoreStart::Restore(
                RestoreJob {
                    snapshot_id,
                    store_dir: self.store_dir(link),
                    dirs: copy_texts(&link.local_dirs),
                },
            ),
            None => RestoreStart::Finished(SyncEngine::nothing_restored()),
        }
    }

    /// What is left to do once `snapshot_id` was restored into the link's directories.
    pub fn after_restore(link: &LinkInfo, snapshot_id: &str, mounts: Vec<MountRestore>) -> (r: SyncPlan<
        PullSyncResult,
    >)
        requires
            mounts@.len() > 0,
        ensures
            is_restore_plan(link.id@, snapshot_id@, mounts@, r),
    {
        let (per_mount, files_restored, failed) = report_mounts(&mounts);
        let mut steps: Vec<SyncStep> = Vec::new();
        if failed {
            assert(steps_view(steps@) =~= restore_steps(link.id@, snapshot_id@, mounts@));
            let mut mounts = mounts;
            let first = mounts.swap_remove(0);
            return SyncPlan {
                steps,
                outcome: match first.result {
                    Err(e) => Err(e),
                    Ok(_) => Ok(SyncEngine::nothing_restored()),
                },
            };
        }
        steps.push(SyncStep::RefreshIndex);
        steps.push(
            SyncStep::SaveState {
                link_id: link.id.as_str().to_owned(),
                snapshot_id: snapshot_id.to_owned(),
                revision: None,
            },
        );
        assert(steps_view(steps@) =~= restore_steps(link.id@, snapshot_id@, mounts@));
        SyncPlan {
            steps,
            outcome: Ok(PullSyncResult { restored: true, files_restored, per_mount }),
        }
    }
}

// ---------------------------------------------------------------------------
// Laws
// ---------------------------------------------------------------------------

/// Whether a step only takes note of something: it changes no file, no catalog and no state.
pub open spec fn only_takes_note(s: Step) -> bool {
    s is RecordConflict || s is AppendLog
}

/// Whether a step changes a file of the directory.
pub open spec fn changes_a_file(s: Step) -> bool {
    s is WriteFile || s is DeleteFile
}

/// A pull that finds a conflict leaves the directory, the catalogs and the state of the link
/// alone: not even the files without a conflict are touched.
pub proof fn conflicting_pull_changes_nothing(
    job: PullJob,
    snapshot_id: Seq<char>,
    vs: Seq<Verdict>,
    modes: Map<Seq<char>, u32>,
    i: int,
)
    requires
        conflicts_of(vs).len() > 0,
        0 <= i < pull_steps(job, snapshot_id, vs, modes).len(),
    ensures
        only_takes_note(pull_steps(job, snapshot_id, vs, modes)[i]),
{
    let cs = conflicts_of(vs);
    if i < cs.len() {
        conflicts_are_conflicts(vs, i);
    }
}

/// What `conflicts_of` lists are conflicts.
pub proof fn conflicts_are_conflicts(vs: Seq<Verdict>, i: int)
    requires
        0 <= i < conflicts_of(vs).len(),
    ensures
        conflicts_of(vs)[i] is Conflict,
    decreases vs.len(),
{
    if vs.len() > 0 {
        if !(vs.last() is Conflict) || i < conflicts_of(vs).len() - 1 {
            conflicts_are_conflicts(vs.drop_last(), i);
        }
    }
}

/// Every conflict that a pull finds is remembered, and counted in its error.
pub proof fn every_conflict_is_recorded(
    job: PullJob,
    snapshot_id: Seq<char>,
    vs: Seq<Verdict>,
    modes: Map<Seq<char>, u32>,
    i: int,
)
    requires
        0 <= i < vs.len(),
        vs[i] is Conflict,
    ensures
        pull_steps(job, snapshot_id, vs, modes).contains(record_step(job.link_id@, vs[i])),
{
    conflict_is_listed(vs, i);
    let cs = conflicts_of(vs);
    let j = choose|j: int| 0 <= j < cs.len() && cs[j] == vs[i];
    assert(pull_steps(job, snapshot_id, vs, modes)[j] == record_step(job.link_id@, vs[i]));
}

/// `conflicts_of` lists every conflict.
pub proof fn conflict_is_listed(vs: Seq<Verdict>, i: int)
    requires
        0 <= i < vs.len(),
        vs[i] is Conflict,
    ensures
        conflicts_of(vs).contains(vs[i]),
    decreases vs.len(),
{
    let cs = conflicts_of(vs);
    if i == vs.len() - 1 {
        assert(cs[cs.len() - 1] == vs[i]);
    } else {
        let rest = vs.drop_last();
        conflict_is_listed(rest, i);
        let j = choose|j: int| 0 <= j < conflicts_of(rest).len() && conflicts_of(rest)[j] == rest[i];
        assert(cs[j] == vs[i]);
    }
}

/// `conflicts_of` lists nothing else than some of the verdicts.
pub proof fn is_listed_conflict(vs: Seq<Verdict>, k: int)
    requires
        0 <= k < conflicts_of(vs).len(),
    ensures
        exists|i: int| 0 <= i < vs.len() && vs[i] == conflicts_of(vs)[k],
    decreases vs.len(),
{
    if vs.len() > 0 {
        let rest = vs.drop_last();
        if vs.last() is Conflict && k == conflicts_of(vs).len() - 1 {
            assert(vs[vs.len() - 1] == conflicts_of(vs)[k]);
        } else {
            is_listed_conflict(rest, k);
            let i = choose|i: int| 0 <= i < rest.len() && rest[i] == conflicts_of(rest)[k];
            assert(vs[i] == conflicts_of(vs)[k]);
        }
    }
}

/// A pull without conflicts carries out every verdict, and remembers the new base only once all
/// files are in place.
pub proof fn state_is_saved_last(
    job: PullJob,
    snapshot_id: Seq<char>,
    vs: Seq<Verdict>,
    modes: Map<Seq<char>, u32>,
    i: int,
    j: int,
)
    requires
        conflicts_of(vs).len() == 0,
        0 <= i < pull_steps(job, snapshot_id, vs, modes).len(),
        0 <= j < pull_steps(job, snapshot_id, vs, modes).len(),
        changes_a_file(pull_steps(job, snapshot_id, vs, modes)[i]),
        pull_steps(job, snapshot_id, vs, modes)[j] is SaveState,
    ensures
        i < j,
{
    let steps = pull_steps(job, snapshot_id, vs, modes);
    let n = vs.len() as int;
    assert(steps[0] == Step::OpenPacks { dir: job.packs_dir@ });
    assert(steps[n + 1] is RefreshIndex);
    assert(steps[n + 2] is CheckpointCatalog);
    assert(steps[n + 3] is CopyCatalog);
    assert(steps[n + 4] is SaveState);
    assert(steps[n + 5] is AppendLog);
    if 1 <= j <= n {
        assert(steps[j] == file_step(job.dir@, modes, vs[j - 1]));
    }
}

/// How many steps a push round may still ask for, at most.
pub open spec fn round_rank(st: PushRound) -> int {
    match st {
        PushRound::Pushing => 3,
        PushRound::Pulling => 2,
        PushRound::PushingAgain => 1,
        PushRound::Finished => 0,
    }
}

/// A push round pulls once at most and pushes twice at most, and comes to an end whatever happens.
pub proof fn every_round_ends(st: PushRound, event: RoundEvent, next: PushRound, step: RoundStep)
    requires
        st.takes(event),
        is_round_move(st, event, next, step),
    ensures
        0 <= round_rank(next) < round_rank(st),
        step is Done <==> next is Finished,
        step is Pull <==> next is Pulling,
        step is Push <==> next is PushingAgain,
{
}

/// A rejected push is pushed again exactly if a pull merges what the remote side has; otherwise
/// the error of the pull comes back.
pub proof fn rejected_pushes_are_pulled_and_pushed_again(
    rejected: Result<PushSyncResult>,
    next: PushRound,
    step: RoundStep,
    pulled: Result<PullSyncResult>,
    last: PushRound,
    end: RoundStep,
)
    requires
        was_rejected(rejected),
        is_round_move(PushRound::Pushing, RoundEvent::Pushed(rejected), next, step),
        is_round_move(next, RoundEvent::Pulled(pulled), last, end),
    ensures
        step is Pull,
        match pulled {
            Ok(_) => end is Push && last is PushingAgain,
            Err(e) => end == RoundStep::Done(Err(e)),
        },
{
}

/// Without the conflicts, none is left.
pub proof fn settling_leaves_no_conflict(vs: Seq<Verdict>)
    ensures
        conflicts_of(without_conflicts(vs)).len() == 0,
    decreases vs.len(),
{
    if vs.len() > 0 {
        settling_leaves_no_conflict(vs.drop_last());
        if !(vs.last() is Conflict) {
            let rest = without_conflicts(vs.drop_last());
            assert(rest.push(vs.last()).drop_last() =~= rest);
        }
    }
}

/// A pull succeeds if and only if no verdict is a conflict.
pub proof fn pull_succeeds_without_conflicts(
    job: PullJob,
    vs: Seq<Verdict>,
    r: Result<PullSyncResult>,
)
    requires
        is_pull_outcome(job, vs, r),
    ensures
        r is Ok <==> (forall|i: int| 0 <= i < vs.len() ==> !((#[trigger] vs[i]) is Conflict)),
{
    if conflicts_of(vs).len() > 0 {
        conflicts_come_from(vs);
    } else {
        assert forall|i: int| 0 <= i < vs.len() implies !((#[trigger] vs[i]) is Conflict) by {
            no_conflict_within(vs, i);
        }
    }
}

/// Where there are conflicts, one of the verdicts is one.
pub proof fn conflicts_come_from(vs: Seq<Verdict>)
    requires
        conflicts_of(vs).len() > 0,
    ensures
        exists|i: int| 0 <= i < vs.len() && (#[trigger] vs[i]) is Conflict,
    decreases vs.len(),
{
    if vs.len() > 0 {
        if vs.last() is Conflict {
            assert(vs[vs.len() - 1] is Conflict);
        } else {
            conflicts_come_from(vs.drop_last());
            let i = choose|i: int|
                0 <= i < vs.drop_last().len() && (#[trigger] vs.drop_last()[i]) is Conflict;
            assert(vs[i] is Conflict);
        }
    }
}

} // verus!
