//! What a pull does: laws over the steps themselves, and the manifests that they come from.

use crate::digest::hex_text;
use crate::error::SyncorError;
use crate::path::{is_absolute, joined};
use crate::sync::conflict::{acts_on, are_verdicts, hash_at, verdict_on, FileAction, Verdict};
use crate::sync::engine::{
    conflict_is_listed, conflicts_are_conflicts, conflicts_come_from, conflicts_of, file_step,
    is_listed_conflict, is_pull_outcome, manifest_hashes, manifest_modes, no_conflict_within,
    opt_text, pull_steps, record_step, steps_view, verdicts_view, without_conflicts, writes_of,
    PullJob, PullSyncResult, Step, SyncPlan, SyncStep,
};
use crate::sync::mirror::{destinations_differ, file_at};
use crate::sync::save::ManifestEntry;
use crate::text::decimal;
use vstd::prelude::*;

verus! {

// ---------------------------------------------------------------------------
// Model
// ---------------------------------------------------------------------------

/// What a manifest says of a path: the last of its entries for it.
pub open spec fn said_of(entries: Seq<ManifestEntry>, path: Seq<char>) -> Option<ManifestEntry>
    decreases entries.len(),
{
    if entries.len() == 0 {
        None
    } else if entries[entries.len() - 1].path@ == path {
        Some(entries[entries.len() - 1])
    } else {
        said_of(entries.drop_last(), path)
    }
}

/// The content that a manifest gives a path, by its hash; `None` if it has no such file.
pub open spec fn content_said(entries: Seq<ManifestEntry>, path: Seq<char>) -> Option<Seq<u8>> {
    match said_of(entries, path) {
        Some(e) => Some(e.blob_hash@),
        None => None,
    }
}

/// The content that a directory has at a path, by its hash; `None` if it has no such file.
pub open spec fn content_held(held: Map<Seq<char>, [u8; 16]>, path: Seq<char>) -> Option<Seq<u8>> {
    if held.dom().contains(path) {
        Some(held[path]@)
    } else {
        None
    }
}

/// Whether a path is in conflict: since the last sync both sides changed it, and not alike.
pub open spec fn in_conflict(
    base: Seq<ManifestEntry>,
    local: Map<Seq<char>, [u8; 16]>,
    remote: Seq<ManifestEntry>,
    path: Seq<char>,
) -> bool {
    &&& content_held(local, path) != content_said(base, path)
    &&& content_said(remote, path) != content_said(base, path)
    &&& content_held(local, path) != content_said(remote, path)
}

/// Whether only the remote side changed a path since the last sync.
pub open spec fn changed_remotely(
    base: Seq<ManifestEntry>,
    local: Map<Seq<char>, [u8; 16]>,
    remote: Seq<ManifestEntry>,
    path: Seq<char>,
) -> bool {
    &&& content_held(local, path) == content_said(base, path)
    &&& content_said(remote, path) != content_said(base, path)
}

/// Whether a recorded hash is the one of a content, in hexadecimal; none is recorded where there
/// is no content.
pub open spec fn records(recorded: Option<String>, content: Option<Seq<u8>>) -> bool {
    match content {
        Some(h) => recorded matches Some(t) && t@ == hex_text(h),
        None => recorded is None,
    }
}

/// Whether a step writes a file of the remote side: its content, its mode, at its place.
pub open spec fn writes_entry(s: SyncStep, dir: Seq<char>, path: Seq<char>, e: ManifestEntry) -> bool {
    s matches SyncStep::WriteFile { hash_hex, dest, mode } && hash_hex@ == hex_text(e.blob_hash@)
        && dest@ == joined(dir, path) && mode == Some(e.mode)
}

/// Whether a step deletes the file at a place.
pub open spec fn deletes_file(s: SyncStep, dir: Seq<char>, path: Seq<char>) -> bool {
    s matches SyncStep::DeleteFile { dest } && dest@ == joined(dir, path)
}

/// Whether a step records what the three sides have at a path.
pub open spec fn records_conflict(
    s: SyncStep,
    link_id: Seq<char>,
    base: Seq<ManifestEntry>,
    local: Map<Seq<char>, [u8; 16]>,
    remote: Seq<ManifestEntry>,
    path: Seq<char>,
) -> bool {
    s matches SyncStep::RecordConflict(c) && {
        &&& c.link_id@ == link_id
        &&& c.file_path@ == path
        &&& records(c.local_hash, content_held(local, path))
        &&& records(c.remote_hash, content_said(remote, path))
        &&& records(c.base_hash, content_said(base, path))
    }
}

/// How many of the steps write a file.
pub open spec fn files_written(steps: Seq<SyncStep>) -> nat
    decreases steps.len(),
{
    if steps.len() == 0 {
        0
    } else {
        files_written(steps.drop_last()) + if steps[steps.len() - 1] is WriteFile {
            1nat
        } else {
            0
        }
    }
}

/// How many of the steps record a conflict.
pub open spec fn conflicts_recorded(steps: Seq<SyncStep>) -> nat
    decreases steps.len(),
{
    if steps.len() == 0 {
        0
    } else {
        conflicts_recorded(steps.drop_last()) + if steps[steps.len() - 1] is RecordConflict {
            1nat
        } else {
            0
        }
    }
}

// ---------------------------------------------------------------------------
// Lemmas
// ---------------------------------------------------------------------------

/// The maps of a manifest say what its entries say.
proof fn maps_say(entries: Seq<ManifestEntry>, path: Seq<char>)
    ensures
        hash_at(manifest_hashes(entries), path) == content_said(entries, path),
        manifest_modes(entries).dom().contains(path) <==> said_of(entries, path) is Some,
        said_of(entries, path) matches Some(e) ==> manifest_modes(entries)[path] == e.mode,
    decreases entries.len(),
{
    if entries.len() > 0 {
        maps_say(entries.drop_last(), path);
    }
}

/// A directory's hashes say what it holds.
proof fn held_says(held: Map<Seq<char>, [u8; 16]>, path: Seq<char>)
    ensures
        hash_at(held, path) == content_held(held, path),
{
}

/// The verdict on a path, by what the manifests say.
proof fn verdict_by_contents(
    base: Seq<ManifestEntry>,
    local: Map<Seq<char>, [u8; 16]>,
    remote: Seq<ManifestEntry>,
    path: Seq<char>,
)
    ensures
        ({
            let v = verdict_on(manifest_hashes(base), local, manifest_hashes(remote), path);
            &&& (v is Some && v->Some_0 is Conflict) <==> in_conflict(base, local, remote, path)
            &&& in_conflict(base, local, remote, path) ==> v == Some(
                (Verdict::Conflict {
                    path,
                    base_hash: content_said(base, path),
                    local_hash: content_held(local, path),
                    remote_hash: content_said(remote, path),
                }),
            )
            &&& changed_remotely(base, local, remote, path) ==> v == (match said_of(remote, path) {
                Some(e) => Some((Verdict::ApplyRemote { path, remote_hash: e.blob_hash@ })),
                None => Some((Verdict::DeleteLocal { path })),
            })
            &&& !in_conflict(base, local, remote, path) && !changed_remotely(
                base,
                local,
                remote,
                path,
            ) ==> v is None
        }),
{
    maps_say(base, path);
    maps_say(remote, path);
    held_says(local, path);
}

/// The actions of a plan, and the steps that they make.
proof fn plan_has_actions(
    job: PullJob,
    snapshot_id: Seq<char>,
    base: Seq<ManifestEntry>,
    local: Map<Seq<char>, [u8; 16]>,
    remote: Seq<ManifestEntry>,
    plan: SyncPlan<PullSyncResult>,
) -> (actions: Seq<FileAction>)
    requires
        job.is_plan(snapshot_id, base, local, remote, plan),
    ensures
        are_verdicts(actions, manifest_hashes(base), local, manifest_hashes(remote)),
        steps_view(plan.steps@) == pull_steps(
            job,
            snapshot_id,
            verdicts_view(actions),
            manifest_modes(remote),
        ),
        is_pull_outcome(job, verdicts_view(actions), plan.outcome),
        steps_view(plan.steps@).len() == plan.steps@.len(),
        forall|k: int| 0 <= k < plan.steps@.len() ==> steps_view(plan.steps@)[k] == (
        #[trigger] plan.steps@[k])@,
        forall|i: int| 0 <= i < actions.len() ==> verdicts_view(actions)[i] == (
        #[trigger] actions[i])@,
        verdicts_view(actions).len() == actions.len(),
{
    choose|actions: Seq<FileAction>|
        {
            &&& #[trigger] are_verdicts(
                actions,
                manifest_hashes(base),
                local,
                manifest_hashes(remote),
            )
            &&& steps_view(plan.steps@) == pull_steps(
                job,
                snapshot_id,
                verdicts_view(actions),
                manifest_modes(remote),
            )
            &&& is_pull_outcome(job, verdicts_view(actions), plan.outcome)
        }
}

/// The action on a path that needs one.
proof fn action_on(
    actions: Seq<FileAction>,
    base: Seq<ManifestEntry>,
    local: Map<Seq<char>, [u8; 16]>,
    remote: Seq<ManifestEntry>,
    path: Seq<char>,
) -> (i: int)
    requires
        are_verdicts(actions, manifest_hashes(base), local, manifest_hashes(remote)),
        in_conflict(base, local, remote, path) || changed_remotely(base, local, remote, path),
    ensures
        0 <= i < actions.len(),
        verdict_on(manifest_hashes(base), local, manifest_hashes(remote), path) == Some(
            actions[i]@,
        ),
        actions[i]@.path() == path,
{
    verdict_by_contents(base, local, remote, path);
    assert(verdict_on(manifest_hashes(base), local, manifest_hashes(remote), path) is Some);
    assert(acts_on(actions, path));
    choose|i: int| 0 <= i < actions.len() && (#[trigger] actions[i])@.path() == path
}

/// A pull has no conflicts exactly if no path is in conflict.
proof fn conflicts_by_contents(
    actions: Seq<FileAction>,
    base: Seq<ManifestEntry>,
    local: Map<Seq<char>, [u8; 16]>,
    remote: Seq<ManifestEntry>,
)
    requires
        are_verdicts(actions, manifest_hashes(base), local, manifest_hashes(remote)),
    ensures
        conflicts_of(verdicts_view(actions)).len() == 0 <==> forall|path: Seq<char>|
            !(#[trigger] in_conflict(base, local, remote, path)),
{
    let vs = verdicts_view(actions);
    if conflicts_of(vs).len() > 0 {
        conflicts_come_from(vs);
        let i = choose|i: int| 0 <= i < vs.len() && (#[trigger] vs[i]) is Conflict;
        assert(vs[i] == actions[i]@);
        let path = actions[i]@.path();
        verdict_by_contents(base, local, remote, path);
        assert(in_conflict(base, local, remote, path));
    } else {
        assert forall|path: Seq<char>| !(#[trigger] in_conflict(base, local, remote, path)) by {
            if in_conflict(base, local, remote, path) {
                let i = action_on(actions, base, local, remote, path);
                verdict_by_contents(base, local, remote, path);
                assert(vs[i] == actions[i]@);
                no_conflict_within(vs, i);
            }
        }
    }
}

/// The step that carries out an action of a pull without conflicts.
proof fn step_of(
    job: PullJob,
    snapshot_id: Seq<char>,
    vs: Seq<Verdict>,
    modes: Map<Seq<char>, u32>,
    k: int,
)
    requires
        conflicts_of(vs).len() == 0,
    ensures
        pull_steps(job, snapshot_id, vs, modes).len() == vs.len() + 6,
        1 <= k <= vs.len() ==> pull_steps(job, snapshot_id, vs, modes)[k] == file_step(
            job.dir@,
            modes,
            vs[k - 1],
        ),
        pull_steps(job, snapshot_id, vs, modes)[0] == (Step::OpenPacks { dir: job.packs_dir@ }),
        pull_steps(job, snapshot_id, vs, modes)[vs.len() as int + 1] is RefreshIndex,
        pull_steps(job, snapshot_id, vs, modes)[vs.len() as int + 2] == (Step::CheckpointCatalog {
            path: job.local_catalog@,
        }),
        pull_steps(job, snapshot_id, vs, modes)[vs.len() as int + 3] == (Step::CopyCatalog {
            from: job.local_catalog@,
            to: job.remote_catalog@,
        }),
        pull_steps(job, snapshot_id, vs, modes)[vs.len() as int + 4] == (Step::SaveState {
            link_id: job.link_id@,
            snapshot_id,
            revision: opt_text(job.revision),
        }),
        pull_steps(job, snapshot_id, vs, modes)[vs.len() as int + 5] == (Step::AppendLog {
            link_id: job.link_id@,
            action: "pull"@,
            status: "success"@,
            message: None,
        }),
{
}

// ---------------------------------------------------------------------------
// Laws
// ---------------------------------------------------------------------------

/// A pull succeeds exactly if no path is in conflict; otherwise its error reports a conflict.
pub proof fn pull_fails_on_conflicts_only(
    job: PullJob,
    snapshot_id: Seq<char>,
    base: Seq<ManifestEntry>,
    local: Map<Seq<char>, [u8; 16]>,
    remote: Seq<ManifestEntry>,
    plan: SyncPlan<PullSyncResult>,
)
    requires
        job.is_plan(snapshot_id, base, local, remote, plan),
    ensures
        plan.outcome is Ok <==> forall|path: Seq<char>|
            !(#[trigger] in_conflict(base, local, remote, path)),
        plan.outcome matches Err(e) ==> e is Conflict,
        plan.outcome matches Ok(p) ==> p.restored,
{
    let actions = plan_has_actions(job, snapshot_id, base, local, remote, plan);
    conflicts_by_contents(actions, base, local, remote);
}

/// A pull without conflicts brings every path that only the remote side changed: it writes the
/// content and the mode of the remote file at its place in the directory, or deletes the file
/// there where the remote side has none any more.
pub proof fn pull_brings_remote_changes(
    job: PullJob,
    snapshot_id: Seq<char>,
    base: Seq<ManifestEntry>,
    local: Map<Seq<char>, [u8; 16]>,
    remote: Seq<ManifestEntry>,
    plan: SyncPlan<PullSyncResult>,
    path: Seq<char>,
)
    requires
        job.is_plan(snapshot_id, base, local, remote, plan),
        plan.outcome is Ok,
        changed_remotely(base, local, remote, path),
    ensures
        match said_of(remote, path) {
            Some(e) => exists|k: int|
                0 <= k < plan.steps@.len() && writes_entry(
                    #[trigger] plan.steps@[k],
                    job.dir@,
                    path,
                    e,
                ),
            None => exists|k: int|
                0 <= k < plan.steps@.len() && deletes_file(
                    #[trigger] plan.steps@[k],
                    job.dir@,
                    path,
                ),
        },
{
    let actions = plan_has_actions(job, snapshot_id, base, local, remote, plan);
    let vs = verdicts_view(actions);
    let modes = manifest_modes(remote);
    let i = action_on(actions, base, local, remote, path);
    verdict_by_contents(base, local, remote, path);
    maps_say(remote, path);
    step_of(job, snapshot_id, vs, modes, i + 1);
    let s = plan.steps@[i + 1];
    assert(vs[i] == actions[i]@);
    assert(s@ == file_step(job.dir@, modes, vs[i]));
    match said_of(remote, path) {
        Some(e) => {
            assert(writes_entry(s, job.dir@, path, e));
        },
        None => {
            assert(deletes_file(s, job.dir@, path));
        },
    }
}

/// A pull touches nothing else: every file that it writes or deletes is one that only the remote
/// side changed, with the content and the mode of the remote side. A pull with a conflict touches
/// no file at all.
pub proof fn pull_touches_nothing_else(
    job: PullJob,
    snapshot_id: Seq<char>,
    base: Seq<ManifestEntry>,
    local: Map<Seq<char>, [u8; 16]>,
    remote: Seq<ManifestEntry>,
    plan: SyncPlan<PullSyncResult>,
    k: int,
)
    requires
        job.is_plan(snapshot_id, base, local, remote, plan),
        0 <= k < plan.steps@.len(),
    ensures
        plan.steps@[k] is WriteFile ==> plan.outcome is Ok && exists|path: Seq<char>|
            #[trigger] changed_remotely(base, local, remote, path) && (said_of(remote, path)
                matches Some(e) && writes_entry(plan.steps@[k], job.dir@, path, e)),
        plan.steps@[k] is DeleteFile ==> plan.outcome is Ok && exists|path: Seq<char>|
            #[trigger] changed_remotely(base, local, remote, path) && said_of(remote, path) is None
                && deletes_file(plan.steps@[k], job.dir@, path),
{
    let actions = plan_has_actions(job, snapshot_id, base, local, remote, plan);
    let vs = verdicts_view(actions);
    let modes = manifest_modes(remote);
    let s = plan.steps@[k];
    assert(steps_view(plan.steps@)[k] == s@);
    if conflicts_of(vs).len() > 0 {
        crate::sync::engine::conflicting_pull_changes_nothing(job, snapshot_id, vs, modes, k);
    } else {
        step_of(job, snapshot_id, vs, modes, k);
        if 1 <= k <= vs.len() {
            let i = k - 1;
            let path = actions[i]@.path();
            assert(vs[i] == actions[i]@);
            no_conflict_within(vs, i);
            verdict_by_contents(base, local, remote, path);
            assert(verdict_on(manifest_hashes(base), local, manifest_hashes(remote), path) == Some(
                actions[i]@,
            ));
            maps_say(remote, path);
            assert(changed_remotely(base, local, remote, path));
        }
    }
}

/// A pull records every conflict, with the hashes of all three sides, and does nothing else then
/// but to log it.
pub proof fn pull_records_conflicts(
    job: PullJob,
    snapshot_id: Seq<char>,
    base: Seq<ManifestEntry>,
    local: Map<Seq<char>, [u8; 16]>,
    remote: Seq<ManifestEntry>,
    plan: SyncPlan<PullSyncResult>,
    path: Seq<char>,
    k: int,
)
    requires
        job.is_plan(snapshot_id, base, local, remote, plan),
    ensures
        in_conflict(base, local, remote, path) ==> exists|i: int|
            0 <= i < plan.steps@.len() && records_conflict(
                #[trigger] plan.steps@[i],
                job.link_id@,
                base,
                local,
                remote,
                path,
            ),
        in_conflict(base, local, remote, path) && 0 <= k < plan.steps@.len() ==> (plan.steps@[k]
            is RecordConflict || plan.steps@[k] is AppendLog),
        0 <= k < plan.steps@.len() && plan.steps@[k] is RecordConflict ==> exists|p: Seq<char>|
            #[trigger] in_conflict(base, local, remote, p) && records_conflict(
                plan.steps@[k],
                job.link_id@,
                base,
                local,
                remote,
                p,
            ),
{
    let actions = plan_has_actions(job, snapshot_id, base, local, remote, plan);
    let vs = verdicts_view(actions);
    let modes = manifest_modes(remote);
    let cs = conflicts_of(vs);
    conflicts_by_contents(actions, base, local, remote);
    if in_conflict(base, local, remote, path) {
        let i = action_on(actions, base, local, remote, path);
        verdict_by_contents(base, local, remote, path);
        assert(vs[i] == actions[i]@);
        conflict_is_listed(vs, i);
        let j = choose|j: int| 0 <= j < cs.len() && cs[j] == vs[i];
        let s = plan.steps@[j];
        assert(s@ == record_step(job.link_id@, vs[i]));
        assert(records_conflict(s, job.link_id@, base, local, remote, path));
        if 0 <= k < plan.steps@.len() {
            crate::sync::engine::conflicting_pull_changes_nothing(job, snapshot_id, vs, modes, k);
            assert(steps_view(plan.steps@)[k] == plan.steps@[k]@);
        }
    }
    if 0 <= k < plan.steps@.len() && plan.steps@[k] is RecordConflict {
        let s = plan.steps@[k];
        assert(steps_view(plan.steps@)[k] == s@);
        if cs.len() == 0 {
            step_of(job, snapshot_id, vs, modes, k);
        } else {
            assert(k < cs.len());
            is_listed_conflict(vs, k);
            let i = choose|i: int| 0 <= i < vs.len() && vs[i] == cs[k];
            assert(vs[i] == actions[i]@);
            conflicts_are_conflicts(vs, k);
            let p = actions[i]@.path();
            verdict_by_contents(base, local, remote, p);
            assert(verdict_on(manifest_hashes(base), local, manifest_hashes(remote), p) == Some(
                actions[i]@,
            ));
            assert(s@ == record_step(job.link_id@, cs[k]));
            assert(in_conflict(base, local, remote, p));
            assert(records_conflict(s, job.link_id@, base, local, remote, p));
        }
    }
}

/// A pull that succeeds opens the packs before it touches a file. Once all files are in place it
/// refreshes the index, flushes the local catalog, hands it on to the repository, remembers the
/// remote snapshot as the new base, and logs its success; nothing follows.
pub proof fn pull_finishes_in_order(
    job: PullJob,
    snapshot_id: Seq<char>,
    base: Seq<ManifestEntry>,
    local: Map<Seq<char>, [u8; 16]>,
    remote: Seq<ManifestEntry>,
    plan: SyncPlan<PullSyncResult>,
)
    requires
        job.is_plan(snapshot_id, base, local, remote, plan),
        plan.outcome is Ok,
    ensures
        ({
            let steps = plan.steps@;
            let n = steps.len() as int;
            &&& n >= 6
            &&& steps[0] matches SyncStep::OpenPacks { dir } && dir@ == job.packs_dir@
            &&& forall|k: int|
                0 < k < n - 5 ==> (#[trigger] steps[k]) is WriteFile || steps[k] is DeleteFile
            &&& steps[n - 5] is RefreshIndex
            &&& steps[n - 4] matches SyncStep::CheckpointCatalog { path } && path@
                == job.local_catalog@
            &&& steps[n - 3] matches SyncStep::CopyCatalog { from, to } && from@
                == job.local_catalog@ && to@ == job.remote_catalog@
            &&& steps[n - 2] matches SyncStep::SaveState { link_id, snapshot_id: id, revision }
                && link_id@ == job.link_id@ && id@ == snapshot_id && (match job.revision {
                Some(x) => revision matches Some(y) && y@ == x@,
                None => revision is None,
            })
            &&& steps[n - 1] matches SyncStep::AppendLog { link_id, action, status, message }
                && link_id@ == job.link_id@ && action@ == "pull"@ && status@ == "success"@ && message
                is None
        }),
{
    let actions = plan_has_actions(job, snapshot_id, base, local, remote, plan);
    let vs = verdicts_view(actions);
    let modes = manifest_modes(remote);
    let steps = plan.steps@;
    let n = steps.len() as int;
    step_of(job, snapshot_id, vs, modes, 0);
    assert(steps[0]@ == (Step::OpenPacks { dir: job.packs_dir@ }));
    assert(steps[n - 5]@ is RefreshIndex);
    assert(steps[n - 4]@ is CheckpointCatalog);
    assert(steps[n - 3]@ is CopyCatalog);
    assert(steps[n - 2]@ is SaveState);
    assert(steps[n - 1]@ is AppendLog);
    assert forall|k: int| 0 < k < n - 5 implies (#[trigger] steps[k]) is WriteFile || steps[k]
        is DeleteFile by {
        step_of(job, snapshot_id, vs, modes, k);
        assert(steps[k]@ == file_step(job.dir@, modes, vs[k - 1]));
    }
}

/// The files that a pull reports are those that it writes, and it reports them for the directory.
pub proof fn pull_reports_what_it_wrote(
    job: PullJob,
    snapshot_id: Seq<char>,
    base: Seq<ManifestEntry>,
    local: Map<Seq<char>, [u8; 16]>,
    remote: Seq<ManifestEntry>,
    plan: SyncPlan<PullSyncResult>,
)
    requires
        job.is_plan(snapshot_id, base, local, remote, plan),
    ensures
        plan.outcome matches Ok(p) ==> {
            &&& p.files_restored == files_written(plan.steps@)
            &&& p.per_mount@.len() == 1
            &&& p.per_mount@[0].dir@ == job.dir@
            &&& p.per_mount@[0].files_restored == p.files_restored
            &&& p.per_mount@[0].error is None
        },
        plan.outcome matches Err(e) ==> {
            let n = conflicts_recorded(plan.steps@);
            let last = plan.steps@[plan.steps@.len() - 1];
            &&& n > 0
            &&& plan.steps@.len() == n + 1
            &&& e matches SyncorError::Conflict(t)
            &&& t@ == decimal(n) + " file(s) in conflict. Run 'syncor resolve' to fix."@
            &&& last matches SyncStep::AppendLog { link_id, action, status, message }
            &&& link_id@ == job.link_id@ && action@ == "pull"@ && status@ == "conflict"@
            &&& message matches Some(m)
            &&& m@ == decimal(n) + " conflicts"@
        },
{
    let actions = plan_has_actions(job, snapshot_id, base, local, remote, plan);
    let vs = verdicts_view(actions);
    let modes = manifest_modes(remote);
    let steps = plan.steps@;
    let cs = conflicts_of(vs);
    if cs.len() == 0 {
        step_of(job, snapshot_id, vs, modes, 0);
        let n = vs.len() as int;
        let m = steps.len() as int;
        assert forall|k: int| 0 <= k < m implies ((#[trigger] steps[k]) is WriteFile <==> 1 <= k <= n
            && vs[k - 1] is ApplyRemote) by {
            step_of(job, snapshot_id, vs, modes, k);
            assert(steps_view(steps)[k] == steps[k]@);
            if 1 <= k <= n {
                no_conflict_within(vs, k - 1);
            }
            if k > n {
                assert(k == n + 1 || k == n + 2 || k == n + 3 || k == n + 4 || k == n + 5);
            }
        }
        count_writes(steps, vs, m);
        assert(steps.subrange(0, m) =~= steps);
        assert(vs.subrange(0, n) =~= vs);
    } else {
        let m = steps.len() as int;
        assert(m == cs.len() + 1);
        assert forall|k: int| 0 <= k < m implies ((#[trigger] steps[k]) is RecordConflict <==> k
            < cs.len()) by {
            assert(steps_view(steps)[k] == steps[k]@);
            if k < cs.len() {
                conflicts_are_conflicts(vs, k);
            }
        }
        count_records(steps, cs.len() as int, m);
        assert(steps.subrange(0, m) =~= steps);
        assert(steps_view(steps)[m - 1] == steps[m - 1]@);
    }
}

/// The first steps, counted by the verdicts that they carry out.
proof fn count_writes(steps: Seq<SyncStep>, vs: Seq<Verdict>, m: int)
    requires
        0 <= m <= steps.len(),
        forall|k: int|
            0 <= k < steps.len() ==> ((#[trigger] steps[k]) is WriteFile <==> 1 <= k <= vs.len()
                && vs[k - 1] is ApplyRemote),
    ensures
        files_written(steps.subrange(0, m)) == writes_of(
            vs.subrange(
                0,
                if m == 0 {
                    0
                } else if m - 1 <= vs.len() {
                    m - 1
                } else {
                    vs.len() as int
                },
            ),
        ),
    decreases m,
{
    if m > 0 {
        count_writes(steps, vs, m - 1);
        assert(steps.subrange(0, m).drop_last() =~= steps.subrange(0, m - 1));
        let a = if m - 1 == 0 {
            0
        } else if m - 2 <= vs.len() {
            m - 2
        } else {
            vs.len() as int
        };
        let b = if m - 1 <= vs.len() {
            m - 1
        } else {
            vs.len() as int
        };
        if b > a {
            assert(vs.subrange(0, b).drop_last() =~= vs.subrange(0, a));
        }
    }
}

/// The first steps, counted by the conflicts that they record.
proof fn count_records(steps: Seq<SyncStep>, n: int, m: int)
    requires
        0 <= m <= steps.len(),
        0 <= n,
        forall|k: int|
            0 <= k < steps.len() ==> ((#[trigger] steps[k]) is RecordConflict <==> k < n),
    ensures
        conflicts_recorded(steps.subrange(0, m)) == (if m < n {
            m
        } else {
            n
        }),
    decreases m,
{
    if m > 0 {
        count_records(steps, n, m - 1);
        assert(steps.subrange(0, m).drop_last() =~= steps.subrange(0, m - 1));
    }
}

/// What is left without the conflicts are the other verdicts.
proof fn others_are_left(vs: Seq<Verdict>)
    ensures
        conflicts_of(without_conflicts(vs)).len() == 0,
        forall|i: int|
            0 <= i < without_conflicts(vs).len() ==> vs.contains(
                #[trigger] without_conflicts(vs)[i],
            ) && !(without_conflicts(vs)[i] is Conflict),
        forall|i: int|
            0 <= i < vs.len() && !((#[trigger] vs[i]) is Conflict) ==> without_conflicts(
                vs,
            ).contains(vs[i]),
    decreases vs.len(),
{
    if vs.len() > 0 {
        let rest = vs.drop_last();
        others_are_left(rest);
        let was = without_conflicts(rest);
        let now = without_conflicts(vs);
        if !(vs.last() is Conflict) {
            assert(now.drop_last() =~= was);
            assert(now[now.len() - 1] == vs.last());
        }
        assert forall|i: int| 0 <= i < now.len() implies vs.contains(#[trigger] now[i]) && !(now[i]
            is Conflict) by {
            if i < was.len() {
                assert(now[i] == was[i]);
                assert(rest.contains(was[i]));
                let j = choose|j: int| 0 <= j < rest.len() && rest[j] == was[i];
                assert(vs[j] == was[i]);
            } else {
                assert(vs[vs.len() - 1] == now[i]);
            }
        }
        assert forall|i: int| 0 <= i < vs.len() && !((#[trigger] vs[i]) is Conflict) implies now.contains(
            vs[i],
        ) by {
            if i < rest.len() {
                assert(rest[i] == vs[i]);
                let j = choose|j: int| 0 <= j < was.len() && was[j] == vs[i];
                assert(now[j] == vs[i]);
            } else {
                assert(now[now.len() - 1] == vs[i]);
            }
        }
    }
}

/// Once the conflicts of a first sync are settled, the sync succeeds. It brings every file that
/// only the remote side has, with its content and its mode; it touches nothing else, and deletes
/// nothing.
pub proof fn settled_syncs_bring_what_is_missing(
    job: PullJob,
    snapshot_id: Seq<char>,
    local: Map<Seq<char>, [u8; 16]>,
    remote: Seq<ManifestEntry>,
    plan: SyncPlan<PullSyncResult>,
    path: Seq<char>,
    k: int,
)
    requires
        job.is_settled_plan(snapshot_id, local, remote, plan),
    ensures
        plan.outcome is Ok,
        !local.dom().contains(path) ==> (said_of(remote, path) matches Some(e) ==> exists|i: int|
            0 <= i < plan.steps@.len() && writes_entry(
                #[trigger] plan.steps@[i],
                job.dir@,
                path,
                e,
            )),
        0 <= k < plan.steps@.len() && plan.steps@[k] is WriteFile ==> exists|p: Seq<char>|
            !(#[trigger] local.dom().contains(p)) && (said_of(remote, p) matches Some(e)
                && writes_entry(plan.steps@[k], job.dir@, p, e)),
        0 <= k < plan.steps@.len() ==> !(plan.steps@[k] is DeleteFile) && !(plan.steps@[k]
            is RecordConflict),
        plan.steps@.len() >= 2 && (plan.steps@[plan.steps@.len() - 2]
            matches SyncStep::SaveState { link_id, snapshot_id: id, .. } && link_id@ == job.link_id@
            && id@ == snapshot_id),
{
    let none = Seq::<ManifestEntry>::empty();
    let actions = choose|actions: Seq<FileAction>|
        {
            &&& #[trigger] are_verdicts(actions, Map::empty(), local, manifest_hashes(remote))
            &&& steps_view(plan.steps@) == pull_steps(
                job,
                snapshot_id,
                without_conflicts(verdicts_view(actions)),
                manifest_modes(remote),
            )
            &&& is_pull_outcome(job, without_conflicts(verdicts_view(actions)), plan.outcome)
        };
    let vs = verdicts_view(actions);
    let left = without_conflicts(vs);
    let modes = manifest_modes(remote);
    assert(manifest_hashes(none) =~= Map::<Seq<char>, [u8; 16]>::empty());
    others_are_left(vs);
    step_of(job, snapshot_id, left, modes, k);
    assert(steps_view(plan.steps@).len() == plan.steps@.len());
    if !local.dom().contains(path) && said_of(remote, path) is Some {
        let e = said_of(remote, path)->Some_0;
        assert(said_of(none, path) is None);
        assert(changed_remotely(none, local, remote, path));
        let i = action_on(actions, none, local, remote, path);
        verdict_by_contents(none, local, remote, path);
        maps_say(remote, path);
        assert(vs[i] == actions[i]@);
        let j = choose|j: int| 0 <= j < left.len() && left[j] == vs[i];
        step_of(job, snapshot_id, left, modes, j + 1);
        let s = plan.steps@[j + 1];
        assert(steps_view(plan.steps@)[j + 1] == s@);
        assert(writes_entry(s, job.dir@, path, e));
    }
    if 0 <= k < plan.steps@.len() {
        let s = plan.steps@[k];
        assert(steps_view(plan.steps@)[k] == s@);
        if 1 <= k <= left.len() {
            assert(vs.contains(left[k - 1]));
            let i = choose|i: int| 0 <= i < vs.len() && vs[i] == left[k - 1];
            assert(vs[i] == actions[i]@);
            let p = actions[i]@.path();
            verdict_by_contents(none, local, remote, p);
            assert(verdict_on(manifest_hashes(none), local, manifest_hashes(remote), p) == Some(
                actions[i]@,
            ));
            assert(said_of(none, p) is None);
            assert(content_held(local, p) == content_said(none, p));
            assert(!local.dom().contains(p));
            maps_say(remote, p);
            assert(said_of(remote, p) is Some);
            assert(writes_entry(s, job.dir@, p, said_of(remote, p)->Some_0));
        }
    }
    let n = plan.steps@.len() as int;
    assert(steps_view(plan.steps@)[n - 2] == plan.steps@[n - 2]@);
}

/// The files of a directory, by full path: the hash of what each holds, in hexadecimal, and its
/// mode where one was set.
pub type Files = Map<Seq<char>, (Seq<char>, Option<u32>)>;

/// The files after the first `n` steps.
pub open spec fn after_sync(files: Files, steps: Seq<SyncStep>, n: nat) -> Files
    decreases n,
{
    if n == 0 {
        files
    } else {
        let before = after_sync(files, steps, (n - 1) as nat);
        match steps[n - 1] {
            SyncStep::WriteFile { hash_hex, dest, mode } => before.insert(
                dest@,
                (hash_hex@, mode),
            ),
            SyncStep::DeleteFile { dest } => before.remove(dest@),
            _ => before,
        }
    }
}

/// Whether a step writes or deletes the file at `at`.
pub open spec fn touches(s: SyncStep, at: Seq<char>) -> bool {
    ||| s matches SyncStep::WriteFile { dest, .. } && dest@ == at
    ||| s matches SyncStep::DeleteFile { dest } && dest@ == at
}

/// What a step that touches a file leaves there.
pub open spec fn left_by(s: SyncStep) -> Option<(Seq<char>, Option<u32>)> {
    match s {
        SyncStep::WriteFile { hash_hex, mode, .. } => Some((hash_hex@, mode)),
        _ => None,
    }
}

/// A file is what the steps that touch it leave there, if they all leave the same.
proof fn touched_file(
    files: Files,
    steps: Seq<SyncStep>,
    at: Seq<char>,
    left: Option<(Seq<char>, Option<u32>)>,
    n: nat,
)
    requires
        n <= steps.len(),
        forall|k: int|
            0 <= k < n && touches(#[trigger] steps[k], at) ==> left_by(steps[k]) == left,
    ensures
        (exists|k: int| 0 <= k < n && touches(#[trigger] steps[k], at)) ==> file_at(
            after_sync(files, steps, n),
            at,
        ) == left,
        (forall|k: int| 0 <= k < n ==> !touches(#[trigger] steps[k], at)) ==> file_at(
            after_sync(files, steps, n),
            at,
        ) == file_at(files, at),
    decreases n,
{
    if n > 0 {
        let m = (n - 1) as nat;
        touched_file(files, steps, at, left, m);
        let s = steps[m as int];
        if touches(s, at) {
            assert(left_by(steps[m as int]) == left);
        } else if exists|k: int| 0 <= k < n && touches(#[trigger] steps[k], at) {
            let k = choose|k: int| 0 <= k < n && touches(#[trigger] steps[k], at);
            assert(k < m);
        }
    }
}

/// A pull without conflicts leaves the directory merged, content and mode: a file that only the
/// remote side changed is the remote one, with the mode of the remote one, or gone where the
/// remote side has none any more; every other file is what it was.
pub proof fn pulled_directories_are_merged(
    job: PullJob,
    snapshot_id: Seq<char>,
    base: Seq<ManifestEntry>,
    local: Map<Seq<char>, [u8; 16]>,
    remote: Seq<ManifestEntry>,
    plan: SyncPlan<PullSyncResult>,
    files: Files,
    path: Seq<char>,
)
    requires
        job.is_plan(snapshot_id, base, local, remote, plan),
        plan.outcome is Ok,
        forall|i: int| 0 <= i < base.len() ==> !is_absolute((#[trigger] base[i]).path@),
        forall|i: int| 0 <= i < remote.len() ==> !is_absolute((#[trigger] remote[i]).path@),
        !is_absolute(path),
    ensures
        file_at(after_sync(files, plan.steps@, plan.steps@.len()), joined(job.dir@, path)) == (
        if changed_remotely(base, local, remote, path) {
            match said_of(remote, path) {
                Some(e) => Some((hex_text(e.blob_hash@), Some(e.mode))),
                None => None,
            }
        } else {
            file_at(files, joined(job.dir@, path))
        }),
{
    let steps = plan.steps@;
    let at = joined(job.dir@, path);
    let left = match said_of(remote, path) {
        Some(e) => Some((hex_text(e.blob_hash@), Some(e.mode))),
        None => None,
    };
    assert forall|k: int| 0 <= k < steps.len() && touches(#[trigger] steps[k], at) implies {
        &&& left_by(steps[k]) == left
        &&& changed_remotely(base, local, remote, path)
    } by {
        pull_touches_nothing_else(job, snapshot_id, base, local, remote, plan, k);
        let p = if steps[k] is WriteFile {
            choose|p: Seq<char>|
                #[trigger] changed_remotely(base, local, remote, p) && (said_of(remote, p)
                    matches Some(e) && writes_entry(steps[k], job.dir@, p, e))
        } else {
            choose|p: Seq<char>|
                #[trigger] changed_remotely(base, local, remote, p) && said_of(remote, p) is None
                    && deletes_file(steps[k], job.dir@, p)
        };
        assert(changed_remotely(base, local, remote, p));
        said_is_relative(base, p);
        said_is_relative(remote, p);
        if p != path {
            destinations_differ(job.dir@, p, path);
        }
    }
    touched_file(files, steps, at, left, steps.len());
    if changed_remotely(base, local, remote, path) {
        pull_brings_remote_changes(job, snapshot_id, base, local, remote, plan, path);
        match said_of(remote, path) {
            Some(e) => {
                let k = choose|k: int|
                    0 <= k < steps.len() && writes_entry(#[trigger] steps[k], job.dir@, path, e);
                assert(touches(steps[k], at));
            },
            None => {
                let k = choose|k: int|
                    0 <= k < steps.len() && deletes_file(#[trigger] steps[k], job.dir@, path);
                assert(touches(steps[k], at));
            },
        }
    }
}

/// What a manifest speaks of has the path of one of its entries.
proof fn said_is_relative(entries: Seq<ManifestEntry>, path: Seq<char>)
    requires
        forall|i: int| 0 <= i < entries.len() ==> !is_absolute((#[trigger] entries[i]).path@),
    ensures
        said_of(entries, path) is Some ==> !is_absolute(path),
    decreases entries.len(),
{
    if entries.len() > 0 {
        let rest = entries.drop_last();
        assert forall|i: int| 0 <= i < rest.len() implies !is_absolute((#[trigger] rest[i]).path@) by {
            assert(rest[i] == entries[i]);
        }
        said_is_relative(rest, path);
        assert(!is_absolute(entries[entries.len() - 1].path@));
    }
}

} // verus!
