//! What a push, a restore and the connection of a link do: laws over the steps themselves.

use crate::error::SyncorError;
use crate::link::LinkInfo;
use crate::path::joined;
use crate::sync::engine::{
    all_failed, files_in, is_outcome_of, is_push_plan, is_remote_snapshot, is_restore_plan,
    is_round_move, push_steps, steps_view, CatalogStep, ConnectStart, MountRestore, PullJob,
    PullStart, PullSyncResult, PushRound, PushSyncResult, RestoreJob, RestoreStart, RoundEvent,
    RoundStep, Step, SyncEngine, SyncPlan, SyncStep,
};
use crate::transport::{PullResult, PushResult};
use vstd::prelude::*;

verus! {

/// A step, by what the steps say.
proof fn step_at(steps: Seq<SyncStep>, k: int)
    requires
        0 <= k < steps.len(),
    ensures
        steps_view(steps)[k] == steps[k]@,
        steps_view(steps).len() == steps.len(),
{
}

/// A push that went through is remembered, under the snapshot that was saved and at the revision
/// that the transport named, and logged; it reports that snapshot. One that the remote side
/// rejected is logged with the reason and reported as a conflict; nothing is remembered of it.
pub proof fn only_accepted_pushes_are_remembered(
    link_id: Seq<char>,
    snapshot_id: Seq<char>,
    answer: PushResult,
    plan: SyncPlan<PushSyncResult>,
)
    requires
        is_push_plan(link_id, snapshot_id, answer, plan),
    ensures
        answer matches PushResult::Success { revision } ==> {
            &&& plan.outcome matches Ok(p) && p.pushed && (p.snapshot_id matches Some(id) && id@
                == snapshot_id)
            &&& plan.steps@.len() == 2
            &&& plan.steps@[0] matches SyncStep::SaveState { link_id: l, snapshot_id: s, revision: r }
                && l@ == link_id && s@ == snapshot_id && (r matches Some(x) && x@ == revision@)
            &&& plan.steps@[1] matches SyncStep::AppendLog { link_id: l, action, status, message }
                && l@ == link_id && action@ == "push"@ && status@ == "success"@ && message is None
        },
        answer matches PushResult::Conflict { details } ==> {
            &&& plan.outcome matches Err(SyncorError::Conflict(t)) && t@ == details.message@
            &&& plan.steps@.len() == 1
            &&& plan.steps@[0] matches SyncStep::AppendLog { link_id: l, action, status, message }
                && l@ == link_id && action@ == "push"@ && status@ == "conflict"@ && (message
                matches Some(m) && m@ == details.message@)
        },
{
    let n = push_steps(link_id, snapshot_id, answer).len();
    assert(plan.steps@.len() == n);
    step_at(plan.steps@, 0);
    assert(plan.steps@[0]@ == push_steps(link_id, snapshot_id, answer)[0]);
    if n == 2 {
        step_at(plan.steps@, 1);
        assert(plan.steps@[1]@ == push_steps(link_id, snapshot_id, answer)[1]);
    }
}

/// A round of pushing pulls exactly after a push that the remote side rejected for a conflict, and
/// pushes once more exactly after a pull that merged. What came of the last push, or of a pull
/// that failed, is what the round comes to.
pub proof fn rounds_go_by_what_happened(
    st: PushRound,
    event: RoundEvent,
    next: PushRound,
    step: RoundStep,
)
    requires
        is_round_move(st, event, next, step),
    ensures
        step is Pull <==> (st is Pushing && (event matches RoundEvent::Pushed(Err(e)) && e
            is Conflict)),
        step is Push <==> (st is Pulling && (event matches RoundEvent::Pulled(r) && r is Ok)),
        step is Pull ==> next is Pulling,
        step is Push ==> next is PushingAgain,
        step matches RoundStep::Done(r) ==> next is Finished && match event {
            RoundEvent::Pushed(p) => r == p,
            RoundEvent::Pulled(Err(e)) => r == Err::<PushSyncResult, SyncorError>(e),
            RoundEvent::Pulled(Ok(_)) => false,
        },
{
}

/// The files that were restored in the first `n` directories together.
pub open spec fn files_restored_in(mounts: Seq<MountRestore>, n: nat) -> nat
    decreases n,
{
    if n == 0 {
        0
    } else {
        files_restored_in(mounts, (n - 1) as nat) + match mounts[n - 1].result {
            Ok(k) => k as nat,
            Err(_) => 0,
        }
    }
}

/// The files of the first directories, counted one by one.
proof fn files_add_up(mounts: Seq<MountRestore>, n: nat)
    requires
        n <= mounts.len(),
    ensures
        files_in(mounts.subrange(0, n as int)) == files_restored_in(mounts, n),
    decreases n,
{
    if n > 0 {
        files_add_up(mounts, (n - 1) as nat);
        assert(mounts.subrange(0, n as int).drop_last() =~= mounts.subrange(0, n - 1));
    }
}

/// A restore succeeds exactly if one of the directories was restored. It then remembers the
/// snapshot, and reports of every directory how many files it got or what went wrong, and of all
/// together the sum, as far as it can be counted. If all failed it does nothing, and reports the
/// error of the first.
pub proof fn restores_report_every_directory(
    link_id: Seq<char>,
    snapshot_id: Seq<char>,
    mounts: Seq<MountRestore>,
    plan: SyncPlan<PullSyncResult>,
    i: int,
)
    requires
        mounts.len() > 0,
        is_restore_plan(link_id, snapshot_id, mounts, plan),
        0 <= i < mounts.len(),
    ensures
        plan.outcome is Ok <==> exists|k: int|
            0 <= k < mounts.len() && (#[trigger] mounts[k]).result is Ok,
        plan.outcome matches Ok(p) ==> {
            let sum = files_restored_in(mounts, mounts.len());
            &&& p.restored
            &&& sum <= usize::MAX ==> p.files_restored == sum
            &&& sum > usize::MAX ==> p.files_restored == usize::MAX
            &&& p.per_mount@.len() == mounts.len()
            &&& p.per_mount@[i].dir@ == mounts[i].dir@
            &&& mounts[i].result matches Ok(n) ==> p.per_mount@[i].files_restored == n
                && p.per_mount@[i].error is None
            &&& mounts[i].result matches Err(e) ==> p.per_mount@[i].files_restored == 0 && (
            p.per_mount@[i].error matches Some(t) && t@ == e.text())
            &&& plan.steps@.len() == 2
            &&& plan.steps@[0] is RefreshIndex
            &&& plan.steps@[1] matches SyncStep::SaveState { link_id: l, snapshot_id: s, revision }
                && l@ == link_id && s@ == snapshot_id && revision is None
        },
        plan.outcome matches Err(e) ==> plan.steps@.len() == 0 && mounts[0].result == Err::<
            usize,
            SyncorError,
        >(e),
{
    files_add_up(mounts, mounts.len());
    assert(mounts.subrange(0, mounts.len() as int) =~= mounts);
    if all_failed(mounts) {
        assert(steps_view(plan.steps@).len() == 0);
        assert forall|k: int| 0 <= k < mounts.len() implies !((#[trigger] mounts[k]).result is Ok) by {
            assert(mounts[k].result is Err);
        }
    } else {
        let k = choose|k: int| 0 <= k < mounts.len() && !((#[trigger] mounts[k]).result is Err);
        assert(mounts[k].result is Ok);
        assert(steps_view(plan.steps@).len() == 2);
        assert(steps_view(plan.steps@).len() == plan.steps@.len());
        step_at(plan.steps@, 0);
        step_at(plan.steps@, 1);
        assert(plan.steps@[0]@ is RefreshIndex);
        assert(plan.steps@[1]@ == (Step::SaveState { link_id, snapshot_id, revision: None }));
        if let Ok(p) = plan.outcome {
            assert(is_outcome_of(p.per_mount@[i], mounts[i]));
        }
    }
}

/// Where a link is merged: into its first directory, from the packs of its store in the checkout
/// of its repository, with the catalog of the store on the one side and the one beside the store
/// on the other.
pub proof fn merges_take_the_store_of_the_link(
    engine: SyncEngine,
    link: LinkInfo,
    revision: Option<String>,
    job: PullJob,
)
    requires
        engine.is_merge_of(link, revision, job),
    ensures
        ({
            let repo = engine.paths().repo_of(link.id@);
            let store = joined(joined(repo, "stores"@), link.name@);
            &&& job.link_id@ == link.id@
            &&& job.dir@ == link.local_dirs@[0]@
            &&& job.packs_dir@ == joined(store, "packs"@)
            &&& job.remote_catalog@ == joined(store, "catalog.sqlite"@)
            &&& job.local_catalog@ == joined(repo, "catalog.sqlite"@)
            &&& job.revision == revision
        }),
{
}

/// A pull merges whenever the transport brought something, at the revision that it brought. Where
/// the transport had nothing new, it merges exactly if the store has a snapshot and the link was
/// never synced. A conflict of the transport is passed on.
pub proof fn whatever_came_is_merged(
    engine: SyncEngine,
    link: LinkInfo,
    base: Option<String>,
    latest: Option<String>,
    answer: PullResult,
    r: crate::error::Result<PullStart>,
)
    requires
        engine.is_pull_start(link, base, latest, answer, r),
    ensures
        answer matches PullResult::Success { revision } ==> (r matches Ok(PullStart::Merge(job))
            && job.dir@ == link.local_dirs@[0]@ && job.link_id@ == link.id@ && job.revision == Some(
            revision,
        )),
        answer is UpToDate && base is None && latest is Some ==> (r matches Ok(
            PullStart::Merge(job),
        ) && job.dir@ == link.local_dirs@[0]@ && job.link_id@ == link.id@ && job.revision is None),
        answer is UpToDate && (base is Some || latest is None) ==> (r matches Ok(
            PullStart::Finished(p),
        ) && !p.restored && p.files_restored == 0 && p.per_mount@.len() == 0),
        answer matches PullResult::Conflict { details } ==> (r matches Err(
            SyncorError::Conflict(t),
        ) && t@ == details.message@),
{
}

/// A link that is connected to a store with a snapshot gets all of it if its directory is empty.
/// If the directory holds as much as one file, nothing is restored over it: it is merged. A store
/// without a snapshot changes nothing.
pub proof fn connecting_restores_into_empty_directories_only(
    engine: SyncEngine,
    link: LinkInfo,
    latest: Option<String>,
    found: Map<Seq<char>, [u8; 16]>,
    r: ConnectStart,
    path: Seq<char>,
)
    requires
        engine.is_connect_start(link, latest, found, r),
    ensures
        latest is Some && found.dom().contains(path) ==> (r matches ConnectStart::Merge(job)
            && job.link_id@ == link.id@ && job.dir@ == link.local_dirs@[0]@ && job.revision is None),
        latest matches Some(id) ==> ((forall|p: Seq<char>| !(#[trigger] found.dom().contains(p)))
            ==> (r matches ConnectStart::Restore(job) && job.snapshot_id@ == id@ && job.store_dir@
            == joined(joined(engine.paths().repo_of(link.id@), "stores"@), link.name@)
            && job.dirs@.len() == link.local_dirs@.len() && forall|i: int|
            0 <= i < job.dirs@.len() ==> (#[trigger] job.dirs@[i])@ == link.local_dirs@[i]@)),
        latest is None ==> (r matches ConnectStart::Finished(p) && !p.restored && p.files_restored
            == 0 && p.per_mount@.len() == 0),
{
    if latest is Some && (forall|p: Seq<char>| !(#[trigger] found.dom().contains(p))) {
        assert(found.dom() =~= Set::empty());
        if let ConnectStart::Restore(job) = r {
            restores_take_all_directories(engine, link, latest->Some_0, job);
        }
    }
}

/// A restore takes the snapshot from the store of the link, into all directories of the link, in
/// their order.
pub proof fn restores_take_all_directories(
    engine: SyncEngine,
    link: LinkInfo,
    snapshot_id: String,
    job: RestoreJob,
)
    requires
        engine.is_restore_of(link, snapshot_id, job),
    ensures
        job.snapshot_id@ == snapshot_id@,
        job.store_dir@ == joined(joined(engine.paths().repo_of(link.id@), "stores"@), link.name@),
        job.dirs@.len() == link.local_dirs@.len(),
        forall|i: int|
            0 <= i < job.dirs@.len() ==> (#[trigger] job.dirs@[i])@ == link.local_dirs@[i]@,
{
    let a = crate::text::texts(job.dirs@);
    let b = crate::text::texts(link.local_dirs@);
    assert(a.len() == job.dirs@.len());
    assert(b.len() == link.local_dirs@.len());
    assert forall|i: int| 0 <= i < job.dirs@.len() implies (#[trigger] job.dirs@[i])@
        == link.local_dirs@[i]@ by {
        assert(a[i] == b[i]);
    }
}

/// The latest snapshot is restored wherever there is one, and nothing where there is none.
pub proof fn the_latest_snapshot_is_restored(
    engine: SyncEngine,
    link: LinkInfo,
    latest: Option<String>,
    r: RestoreStart,
)
    requires
        engine.is_restore_start(link, latest, r),
    ensures
        latest matches Some(id) ==> (r matches RestoreStart::Restore(job) && job.snapshot_id@ == id@
            && job.dirs@.len() == link.local_dirs@.len()),
        latest is None ==> (r matches RestoreStart::Finished(p) && !p.restored && p.files_restored
            == 0 && p.per_mount@.len() == 0),
{
    if let RestoreStart::Restore(job) = r {
        restores_take_all_directories(engine, link, latest->Some_0, job);
    }
}

/// Once its conflicts are settled, a link has something left to merge exactly if its store has a
/// snapshot and it was never synced.
pub proof fn first_syncs_are_finished_after_resolving(
    engine: SyncEngine,
    link: LinkInfo,
    base: Option<String>,
    latest: Option<String>,
    r: Option<PullJob>,
)
    requires
        engine.is_left_to_merge(link, base, latest, r),
    ensures
        r is Some <==> base is None && latest is Some,
        r matches Some(job) ==> job.link_id@ == link.id@ && job.dir@ == link.local_dirs@[0]@
            && job.revision is None,
{
}

/// A machine without a catalog of its own starts with a copy of the remote one; a machine that has
/// one takes in what the remote one has. The remote one is never what changes.
pub proof fn catalogs_take_in_the_remote_one(job: PullJob, local_exists: bool, r: CatalogStep)
    requires
        job.is_catalog_step(local_exists, r),
    ensures
        r is Merge <==> local_exists,
        r matches CatalogStep::Merge { local, remote } ==> local@ == job.local_catalog@ && remote@
            == job.remote_catalog@,
        r matches CatalogStep::Copy { from, to } ==> from@ == job.remote_catalog@ && to@
            == job.local_catalog@,
{
}

/// A pull merges the latest snapshot of the remote catalog, and fails where there is none.
pub proof fn the_latest_snapshot_is_merged(
    latest: Option<String>,
    r: crate::error::Result<String>,
)
    requires
        is_remote_snapshot(latest, r),
    ensures
        r is Ok <==> latest is Some,
        r matches Ok(id) ==> latest == Some(id),
        r matches Err(e) ==> (e matches SyncorError::Other(t) && t@
            == "no snapshots in remote catalog"@),
{
}

} // verus!
