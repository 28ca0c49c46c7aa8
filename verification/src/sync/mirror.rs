//! What a directory holds in the end: laws that span saving, restoring, connecting and pulling.

use crate::digest::{content_hash, hex_text, lz4_content};
use crate::error::Result;
use crate::path::{is_absolute, joined};
use crate::sort::is_order;
use crate::sync::conflict::{are_verdicts, hash_at, verdict_on, FileAction, Verdict};
use crate::sync::engine::{
    changes_a_file, conflicting_pull_changes_nothing, conflicts_come_from, conflicts_of,
    every_conflict_is_recorded, file_step, manifest_hashes, manifest_modes, no_conflict_within,
    is_pull_outcome, opt_hex, opt_text, pull_steps, settling_leaves_no_conflict, verdicts_view,
    without_conflicts, writes_of, PullJob, PullSyncResult, Step,
};
use crate::sync::restore::{
    extra_among, extras_are_positions, harmless, is_destination, is_safe, lists,
    only_unlisted_files_are_removed, remove_extras, restore_all, restores, safe_is_harmless,
    RestoreStep,
};
use crate::sync::save::{
    are_hashed, are_read, distinct_paths, found, is_snapshot, is_sorted, listing, paths_of,
    remembers, snapshot_counts_the_scan, snapshot_describes_the_scan, snapshot_lists_the_scan,
    FileEntry, ManifestEntry, ScannedFile, Snapshot,
};
use crate::text::before_irreflexive;
use vstd::prelude::*;

verus! {

// ---------------------------------------------------------------------------
// Model
// ---------------------------------------------------------------------------

/// The file at a full path, if there is one.
pub open spec fn file_at<V>(files: Map<Seq<char>, V>, at: Seq<char>) -> Option<V> {
    if files.dom().contains(at) {
        Some(files[at])
    } else {
        None
    }
}

/// Whether the files below `dir` are those of a manifest. Of each file, the hash of what it holds
/// is looked at, in hexadecimal.
pub open spec fn shows(
    files: Map<Seq<char>, Seq<char>>,
    dir: Seq<char>,
    m: Map<Seq<char>, [u8; 16]>,
) -> bool {
    forall|p: Seq<char>|
        !is_absolute(p) ==> file_at(files, joined(dir, p)) == opt_hex(#[trigger] hash_at(m, p))
}

/// Whether all paths of a manifest are relative.
pub open spec fn relative_paths(m: Map<Seq<char>, [u8; 16]>) -> bool {
    forall|p: Seq<char>| #[trigger] m.dom().contains(p) ==> !is_absolute(p)
}

/// The files after a step of a sync.
pub open spec fn after_step(files: Map<Seq<char>, Seq<char>>, s: Step) -> Map<Seq<char>, Seq<char>> {
    match s {
        Step::WriteFile { hash_hex, dest, .. } => files.insert(dest, hash_hex),
        Step::DeleteFile { dest } => files.remove(dest),
        _ => files,
    }
}

/// The files after the steps of a sync.
pub open spec fn after_steps(files: Map<Seq<char>, Seq<char>>, steps: Seq<Step>) -> Map<
    Seq<char>,
    Seq<char>,
>
    decreases steps.len(),
{
    if steps.len() == 0 {
        files
    } else {
        after_step(after_steps(files, steps.drop_last()), steps.last())
    }
}

/// What a verdict makes of its file.
pub open spec fn outcome(v: Verdict) -> Option<Seq<char>> {
    match v {
        Verdict::ApplyRemote { remote_hash, .. } => Some(hex_text(remote_hash)),
        _ => None,
    }
}

/// What the last of the verdicts on `path` makes of its file, which was `was` before.
pub open spec fn last_word(vs: Seq<Verdict>, path: Seq<char>, was: Option<Seq<char>>) -> Option<
    Seq<char>,
>
    decreases vs.len(),
{
    if vs.len() == 0 {
        was
    } else if vs.last().path() == path {
        outcome(vs.last())
    } else {
        last_word(vs.drop_last(), path, was)
    }
}

// ---------------------------------------------------------------------------
// Lemmas
// ---------------------------------------------------------------------------

/// Different relative paths lead to different files.
pub proof fn destinations_differ(dir: Seq<char>, p: Seq<char>, q: Seq<char>)
    requires
        !is_absolute(p),
        !is_absolute(q),
        joined(dir, p) == joined(dir, q),
    ensures
        p == q,
{
    let front = if dir.len() == 0 || dir.last() == '/' {
        dir
    } else {
        dir + "/"@
    };
    let n = front.len() as int;
    assert(joined(dir, p) == front + p);
    assert(joined(dir, q) == front + q);
    assert((front + p).subrange(n, (front + p).len() as int) =~= p);
    assert((front + q).subrange(n, (front + q).len() as int) =~= q);
}

/// Steps one after the other.
proof fn after_both(files: Map<Seq<char>, Seq<char>>, a: Seq<Step>, b: Seq<Step>)
    ensures
        after_steps(files, a + b) == after_steps(after_steps(files, a), b),
    decreases b.len(),
{
    if b.len() == 0 {
        assert(a + b =~= a);
    } else {
        assert((a + b).drop_last() =~= a + b.drop_last());
        after_both(files, a, b.drop_last());
    }
}

/// Steps that change no file leave the files alone.
proof fn after_quiet_steps(files: Map<Seq<char>, Seq<char>>, steps: Seq<Step>)
    requires
        forall|i: int| 0 <= i < steps.len() ==> !changes_a_file(#[trigger] steps[i]),
    ensures
        after_steps(files, steps) == files,
    decreases steps.len(),
{
    if steps.len() > 0 {
        assert(!changes_a_file(steps[steps.len() - 1]));
        after_quiet_steps(files, steps.drop_last());
    }
}

/// What carrying verdicts out makes of the file at `path`.
proof fn after_file_steps(
    files: Map<Seq<char>, Seq<char>>,
    dir: Seq<char>,
    modes: Map<Seq<char>, u32>,
    vs: Seq<Verdict>,
    steps: Seq<Step>,
    path: Seq<char>,
)
    requires
        steps.len() == vs.len(),
        forall|i: int|
            0 <= i < vs.len() ==> #[trigger] steps[i] == file_step(dir, modes, vs[i]),
        forall|i: int|
            0 <= i < vs.len() ==> !is_absolute((#[trigger] vs[i]).path()) && !(vs[i] is Conflict),
        !is_absolute(path),
    ensures
        file_at(after_steps(files, steps), joined(dir, path)) == last_word(
            vs,
            path,
            file_at(files, joined(dir, path)),
        ),
    decreases vs.len(),
{
    if vs.len() > 0 {
        let v = vs.last();
        assert(vs[vs.len() - 1] == v);
        assert(steps[steps.len() - 1] == file_step(dir, modes, v));
        after_file_steps(files, dir, modes, vs.drop_last(), steps.drop_last(), path);
        if v.path() != path && joined(dir, v.path()) == joined(dir, path) {
            destinations_differ(dir, v.path(), path);
        }
    }
}

/// The last word on a path is the one verdict on it, if there is one.
proof fn one_word(
    actions: Seq<FileAction>,
    base: Map<Seq<char>, [u8; 16]>,
    local: Map<Seq<char>, [u8; 16]>,
    remote: Map<Seq<char>, [u8; 16]>,
    path: Seq<char>,
    was: Option<Seq<char>>,
)
    requires
        are_verdicts(actions, base, local, remote),
    ensures
        last_word(verdicts_view(actions), path, was) == (match verdict_on(
            base,
            local,
            remote,
            path,
        ) {
            Some(v) => outcome(v),
            None => was,
        }),
{
    let vs = verdicts_view(actions);
    match verdict_on(base, local, remote, path) {
        Some(v) => {
            let i = choose|i: int| 0 <= i < actions.len() && (#[trigger] actions[i])@.path() == path;
            assert(vs[i] == v);
            assert forall|j: int| i < j < vs.len() implies (#[trigger] vs[j]).path() != path by {
                assert(crate::text::before(actions[i]@.path(), actions[j]@.path()));
                before_irreflexive(path);
            }
            word_of(vs, path, was, i);
        },
        None => {
            assert forall|j: int| 0 <= j < vs.len() implies (#[trigger] vs[j]).path() != path by {
                assert(verdict_on(base, local, remote, actions[j]@.path()) == Some(actions[j]@));
            }
            no_word(vs, path, was);
        },
    }
}

/// The last word on a path, by its position.
proof fn word_of(vs: Seq<Verdict>, path: Seq<char>, was: Option<Seq<char>>, i: int)
    requires
        0 <= i < vs.len(),
        vs[i].path() == path,
        forall|j: int| i < j < vs.len() ==> (#[trigger] vs[j]).path() != path,
    ensures
        last_word(vs, path, was) == outcome(vs[i]),
    decreases vs.len(),
{
    if i < vs.len() - 1 {
        assert(vs[vs.len() - 1].path() != path);
        word_of(vs.drop_last(), path, was, i);
    }
}

/// A path without a verdict keeps its file.
proof fn no_word(vs: Seq<Verdict>, path: Seq<char>, was: Option<Seq<char>>)
    requires
        forall|j: int| 0 <= j < vs.len() ==> (#[trigger] vs[j]).path() != path,
    ensures
        last_word(vs, path, was) == was,
    decreases vs.len(),
{
    if vs.len() > 0 {
        assert(vs[vs.len() - 1].path() != path);
        no_word(vs.drop_last(), path, was);
    }
}

/// What a pull that decides on `vs` makes of the file at `path`.
proof fn pulled_file(
    job: PullJob,
    snapshot_id: Seq<char>,
    vs: Seq<Verdict>,
    modes: Map<Seq<char>, u32>,
    files: Map<Seq<char>, Seq<char>>,
    path: Seq<char>,
)
    requires
        conflicts_of(vs).len() == 0,
        forall|i: int| 0 <= i < vs.len() ==> !is_absolute((#[trigger] vs[i]).path()),
        !is_absolute(path),
    ensures
        file_at(
            after_steps(files, pull_steps(job, snapshot_id, vs, modes)),
            joined(job.dir@, path),
        ) == last_word(vs, path, file_at(files, joined(job.dir@, path))),
{
    let steps = pull_steps(job, snapshot_id, vs, modes);
    let n = vs.len() as int;
    let head = steps.subrange(0, 1);
    let body = steps.subrange(1, n + 1);
    let tail = steps.subrange(n + 1, n + 6);
    assert(steps =~= head + body + tail);
    after_both(files, head + body, tail);
    after_both(files, head, body);
    after_quiet_steps(files, head);
    after_quiet_steps(after_steps(files, head + body), tail);
    assert forall|i: int| 0 <= i < n implies #[trigger] body[i] == file_step(
        job.dir@,
        modes,
        vs[i],
    ) by {
        assert(body[i] == steps[i + 1]);
    }
    assert forall|i: int| 0 <= i < n implies !is_absolute((#[trigger] vs[i]).path()) && !(vs[i]
        is Conflict) by {
        no_conflict_within(vs, i);
    }
    after_file_steps(files, job.dir@, modes, vs, body, path);
}

/// Verdicts on relative paths are about relative paths.
proof fn verdicts_are_relative(
    actions: Seq<FileAction>,
    base: Map<Seq<char>, [u8; 16]>,
    local: Map<Seq<char>, [u8; 16]>,
    remote: Map<Seq<char>, [u8; 16]>,
)
    requires
        are_verdicts(actions, base, local, remote),
        relative_paths(base),
        relative_paths(remote),
    ensures
        forall|i: int|
            0 <= i < verdicts_view(actions).len() ==> !is_absolute(
                (#[trigger] verdicts_view(actions)[i]).path(),
            ),
{
    let vs = verdicts_view(actions);
    assert forall|i: int| 0 <= i < vs.len() implies !is_absolute((#[trigger] vs[i]).path()) by {
        assert(vs[i] == actions[i]@);
        let p = actions[i]@.path();
        assert(verdict_on(base, local, remote, p) == Some(actions[i]@));
        if !remote.dom().contains(p) && !base.dom().contains(p) {
            assert(hash_at(remote, p) == hash_at(base, p));
        }
    }
}

/// What is left without the conflicts was there before.
proof fn left_is_among(vs: Seq<Verdict>, i: int)
    requires
        0 <= i < without_conflicts(vs).len(),
    ensures
        exists|j: int| 0 <= j < vs.len() && (#[trigger] vs[j]) == without_conflicts(vs)[i],
    decreases vs.len(),
{
    if vs.len() > 0 {
        let rest = vs.drop_last();
        if !(vs.last() is Conflict) && i == without_conflicts(vs).len() - 1 {
            assert(vs[vs.len() - 1] == without_conflicts(vs)[i]);
        } else {
            left_is_among(rest, i);
            let j = choose|j: int|
                0 <= j < rest.len() && (#[trigger] rest[j]) == without_conflicts(rest)[i];
            assert(vs[j] == rest[j]);
        }
    }
}

/// A path without a verdict has none without the conflicts either.
proof fn no_word_left(vs: Seq<Verdict>, path: Seq<char>, was: Option<Seq<char>>)
    requires
        forall|j: int| 0 <= j < vs.len() ==> (#[trigger] vs[j]).path() != path,
    ensures
        last_word(without_conflicts(vs), path, was) == was,
{
    let left = without_conflicts(vs);
    assert forall|i: int| 0 <= i < left.len() implies (#[trigger] left[i]).path() != path by {
        left_is_among(vs, i);
    }
    no_word(left, path, was);
}

/// Without the conflicts, the one verdict on a path has the last word unless it is a conflict.
proof fn word_left(vs: Seq<Verdict>, path: Seq<char>, was: Option<Seq<char>>, i: int)
    requires
        0 <= i < vs.len(),
        vs[i].path() == path,
        forall|j: int| 0 <= j < vs.len() && j != i ==> (#[trigger] vs[j]).path() != path,
    ensures
        last_word(without_conflicts(vs), path, was) == (if vs[i] is Conflict {
            was
        } else {
            outcome(vs[i])
        }),
    decreases vs.len(),
{
    let rest = vs.drop_last();
    let left = without_conflicts(rest);
    assert(left.push(vs.last()).drop_last() =~= left);
    if i == vs.len() - 1 {
        assert forall|j: int| 0 <= j < rest.len() implies (#[trigger] rest[j]).path() != path by {
            assert(vs[j].path() != path);
        }
        no_word_left(rest, path, was);
    } else {
        assert(vs[vs.len() - 1].path() != path);
        assert forall|j: int| 0 <= j < rest.len() && j != i implies (#[trigger] rest[j]).path()
            != path by {
            assert(vs[j].path() != path);
        }
        word_left(rest, path, was, i);
    }
}

// ---------------------------------------------------------------------------
// Laws
// ---------------------------------------------------------------------------

/// A pull without conflicts merges: a file that the remote side changed becomes the remote one,
/// and every other file stays what it is locally.
pub proof fn pull_merges(
    job: PullJob,
    snapshot_id: Seq<char>,
    actions: Seq<FileAction>,
    modes: Map<Seq<char>, u32>,
    base: Map<Seq<char>, [u8; 16]>,
    local: Map<Seq<char>, [u8; 16]>,
    remote: Map<Seq<char>, [u8; 16]>,
    files: Map<Seq<char>, Seq<char>>,
    path: Seq<char>,
)
    requires
        are_verdicts(actions, base, local, remote),
        conflicts_of(verdicts_view(actions)).len() == 0,
        relative_paths(base),
        relative_paths(local),
        relative_paths(remote),
        shows(files, job.dir@, local),
        !is_absolute(path),
    ensures
        file_at(
            after_steps(files, pull_steps(job, snapshot_id, verdicts_view(actions), modes)),
            joined(job.dir@, path),
        ) == opt_hex(
            if hash_at(remote, path) == hash_at(base, path) {
                hash_at(local, path)
            } else {
                hash_at(remote, path)
            },
        ),
{
    let vs = verdicts_view(actions);
    verdicts_are_relative(actions, base, local, remote);
    pulled_file(job, snapshot_id, vs, modes, files, path);
    let was = file_at(files, joined(job.dir@, path));
    one_word(actions, base, local, remote, path, was);
    assert(was == opt_hex(hash_at(local, path)));
    match verdict_on(base, local, remote, path) {
        Some(v) => {
            let i = choose|i: int| 0 <= i < actions.len() && (#[trigger] actions[i])@.path() == path;
            assert(vs[i] == v);
            no_conflict_within(vs, i);
        },
        None => {},
    }
}

/// A pull into a directory without local edits mirrors the remote side: the directory becomes
/// what the remote snapshot is.
pub proof fn unedited_pull_mirrors_the_remote(
    job: PullJob,
    snapshot_id: Seq<char>,
    actions: Seq<FileAction>,
    modes: Map<Seq<char>, u32>,
    base: Map<Seq<char>, [u8; 16]>,
    remote: Map<Seq<char>, [u8; 16]>,
    files: Map<Seq<char>, Seq<char>>,
)
    requires
        are_verdicts(actions, base, base, remote),
        relative_paths(base),
        relative_paths(remote),
        shows(files, job.dir@, base),
    ensures
        shows(
            after_steps(files, pull_steps(job, snapshot_id, verdicts_view(actions), modes)),
            job.dir@,
            remote,
        ),
{
    let vs = verdicts_view(actions);
    assert(conflicts_of(vs).len() == 0) by {
        if conflicts_of(vs).len() > 0 {
            conflicts_come_from(vs);
            let i = choose|i: int| 0 <= i < vs.len() && (#[trigger] vs[i]) is Conflict;
            assert(vs[i] == actions[i]@);
            assert(verdict_on(base, base, remote, actions[i]@.path()) == Some(actions[i]@));
        }
    }
    let end = after_steps(files, pull_steps(job, snapshot_id, vs, modes));
    assert forall|p: Seq<char>| !is_absolute(p) implies file_at(end, joined(job.dir@, p)) == opt_hex(
        #[trigger] hash_at(remote, p),
    ) by {
        pull_merges(job, snapshot_id, actions, modes, base, base, remote, files, p);
    }
}

// --- first syncs ------------------------------------------------------------

/// Connecting to a directory that holds files already loses none of them: whatever comes of the
/// merge, a file that is there stays what it is. Where the remote side has another one under its
/// path, the conflict is recorded.
pub proof fn connecting_keeps_local_files(
    job: PullJob,
    snapshot_id: Seq<char>,
    actions: Seq<FileAction>,
    modes: Map<Seq<char>, u32>,
    local: Map<Seq<char>, [u8; 16]>,
    remote: Map<Seq<char>, [u8; 16]>,
    files: Map<Seq<char>, Seq<char>>,
    path: Seq<char>,
)
    requires
        are_verdicts(actions, Map::empty(), local, remote),
        relative_paths(local),
        relative_paths(remote),
        shows(files, job.dir@, local),
        local.dom().contains(path),
    ensures
        file_at(
            after_steps(files, pull_steps(job, snapshot_id, verdicts_view(actions), modes)),
            joined(job.dir@, path),
        ) == Some(hex_text(local[path]@)),
        remote.dom().contains(path) && remote[path]@ != local[path]@ ==> pull_steps(
            job,
            snapshot_id,
            verdicts_view(actions),
            modes,
        ).contains(
            (Step::RecordConflict {
                link_id: job.link_id@,
                path,
                local_hash: Some(hex_text(local[path]@)),
                remote_hash: Some(hex_text(remote[path]@)),
                base_hash: None,
            }),
        ),
{
    let base = Map::<Seq<char>, [u8; 16]>::empty();
    let vs = verdicts_view(actions);
    let steps = pull_steps(job, snapshot_id, vs, modes);
    assert(hash_at(base, path) is None);
    assert(hash_at(local, path) == Some(local[path]@));
    if remote.dom().contains(path) && remote[path]@ != local[path]@ {
        let v = verdict_on(base, local, remote, path)->0;
        let i = choose|i: int| 0 <= i < actions.len() && (#[trigger] actions[i])@.path() == path;
        assert(vs[i] == v);
        every_conflict_is_recorded(job, snapshot_id, vs, modes, i);
    }
    if conflicts_of(vs).len() > 0 {
        assert forall|i: int| 0 <= i < steps.len() implies !changes_a_file(#[trigger] steps[i]) by {
            conflicting_pull_changes_nothing(job, snapshot_id, vs, modes, i);
        }
        after_quiet_steps(files, steps);
    } else {
        pull_merges(job, snapshot_id, actions, modes, base, local, remote, files, path);
        if remote.dom().contains(path) && remote[path]@ != local[path]@ {
            let i = choose|i: int| 0 <= i < actions.len() && (#[trigger] actions[i])@.path() == path;
            no_conflict_within(vs, i);
        }
    }
}

/// The first pull into an empty directory restores all of the remote snapshot.
pub proof fn first_pull_restores_the_snapshot(
    job: PullJob,
    snapshot_id: Seq<char>,
    actions: Seq<FileAction>,
    modes: Map<Seq<char>, u32>,
    remote: Map<Seq<char>, [u8; 16]>,
    files: Map<Seq<char>, Seq<char>>,
)
    requires
        are_verdicts(actions, Map::empty(), Map::empty(), remote),
        relative_paths(remote),
        shows(files, job.dir@, Map::empty()),
    ensures
        shows(
            after_steps(files, pull_steps(job, snapshot_id, verdicts_view(actions), modes)),
            job.dir@,
            remote,
        ),
{
    unedited_pull_mirrors_the_remote(
        job,
        snapshot_id,
        actions,
        modes,
        Map::empty(),
        remote,
        files,
    );
}

/// Verdicts that all write a file are counted as such.
proof fn all_write(vs: Seq<Verdict>)
    requires
        forall|i: int| 0 <= i < vs.len() ==> (#[trigger] vs[i]) is ApplyRemote,
    ensures
        writes_of(vs) == vs.len(),
        conflicts_of(vs).len() == 0,
    decreases vs.len(),
{
    if vs.len() > 0 {
        assert(vs[vs.len() - 1] is ApplyRemote);
        assert forall|i: int| 0 <= i < vs.drop_last().len() implies (#[trigger] vs.drop_last()[i])
            is ApplyRemote by {
            assert(vs[i] is ApplyRemote);
        }
        all_write(vs.drop_last());
    }
}

/// The first pull into an empty directory succeeds, and reports as many files as the remote
/// snapshot has.
pub proof fn first_pull_counts_the_snapshot(
    job: PullJob,
    actions: Seq<FileAction>,
    remote: Map<Seq<char>, [u8; 16]>,
    r: Result<PullSyncResult>,
)
    requires
        are_verdicts(actions, Map::empty(), Map::empty(), remote),
        is_pull_outcome(job, verdicts_view(actions), r),
    ensures
        r matches Ok(p) && p.restored && p.files_restored == remote.dom().len(),
{
    let none = Map::<Seq<char>, [u8; 16]>::empty();
    let vs = verdicts_view(actions);
    assert forall|i: int| 0 <= i < vs.len() implies (#[trigger] vs[i]) is ApplyRemote
        && remote.dom().contains(vs[i].path()) by {
        let p = actions[i]@.path();
        assert(vs[i] == actions[i]@);
        assert(verdict_on(none, none, remote, p) == Some(actions[i]@));
        assert(hash_at(none, p) is None);
    }
    all_write(vs);
    let paths = vs.map_values(|v: Verdict| v.path());
    assert(paths.no_duplicates()) by {
        assert forall|i: int, j: int| 0 <= i < j < paths.len() implies paths[i] != paths[j] by {
            assert(crate::text::before(actions[i]@.path(), actions[j]@.path()));
            before_irreflexive(paths[i]);
        }
    }
    assert(paths.to_set() =~= remote.dom()) by {
        assert forall|p: Seq<char>| paths.to_set().contains(p) <==> remote.dom().contains(p) by {
            if paths.contains(p) {
                let i = choose|i: int| 0 <= i < paths.len() && paths[i] == p;
                assert(vs[i].path() == p);
            }
            if remote.dom().contains(p) {
                assert(hash_at(none, p) is None);
                assert(verdict_on(none, none, remote, p) is Some);
                let i = choose|i: int| 0 <= i < actions.len() && (#[trigger] actions[i])@.path() == p;
                assert(paths[i] == p);
            }
        }
    }
    paths.unique_seq_to_set();
}

/// Once the conflicts of a first sync are settled, the rest of the merge keeps every local file,
/// brings every file that only the remote side has, and remembers the snapshot as the base of the
/// next comparison.
pub proof fn settling_merges_the_rest(
    job: PullJob,
    snapshot_id: Seq<char>,
    actions: Seq<FileAction>,
    modes: Map<Seq<char>, u32>,
    local: Map<Seq<char>, [u8; 16]>,
    remote: Map<Seq<char>, [u8; 16]>,
    files: Map<Seq<char>, Seq<char>>,
    path: Seq<char>,
)
    requires
        are_verdicts(actions, Map::empty(), local, remote),
        relative_paths(local),
        relative_paths(remote),
        shows(files, job.dir@, local),
        !is_absolute(path),
    ensures
        ({
            let steps = pull_steps(
                job,
                snapshot_id,
                without_conflicts(verdicts_view(actions)),
                modes,
            );
            &&& file_at(after_steps(files, steps), joined(job.dir@, path)) == opt_hex(
                if local.dom().contains(path) {
                    hash_at(local, path)
                } else {
                    hash_at(remote, path)
                },
            )
            &&& steps.contains(
                (Step::SaveState {
                    link_id: job.link_id@,
                    snapshot_id,
                    revision: opt_text(job.revision),
                }),
            )
        }),
{
    let base = Map::<Seq<char>, [u8; 16]>::empty();
    let all = verdicts_view(actions);
    let vs = without_conflicts(all);
    let steps = pull_steps(job, snapshot_id, vs, modes);
    let was = file_at(files, joined(job.dir@, path));
    settling_leaves_no_conflict(all);
    assert(steps[vs.len() as int + 4] == (Step::SaveState {
        link_id: job.link_id@,
        snapshot_id,
        revision: opt_text(job.revision),
    }));
    verdicts_are_relative(actions, base, local, remote);
    assert forall|i: int| 0 <= i < vs.len() implies !is_absolute((#[trigger] vs[i]).path()) by {
        left_is_among(all, i);
    }
    pulled_file(job, snapshot_id, vs, modes, files, path);
    assert(was == opt_hex(hash_at(local, path)));
    assert(hash_at(base, path) is None);
    match verdict_on(base, local, remote, path) {
        Some(v) => {
            let i = choose|i: int| 0 <= i < actions.len() && (#[trigger] actions[i])@.path() == path;
            assert(all[i] == v);
            assert forall|j: int| 0 <= j < all.len() && j != i implies (#[trigger] all[j]).path()
                != path by {
                before_irreflexive(path);
                if i < j {
                    assert(crate::text::before(actions[i]@.path(), actions[j]@.path()));
                } else {
                    assert(crate::text::before(actions[j]@.path(), actions[i]@.path()));
                }
            }
            word_left(all, path, was, i);
        },
        None => {
            assert forall|j: int| 0 <= j < all.len() implies (#[trigger] all[j]).path() != path by {
                assert(verdict_on(base, local, remote, actions[j]@.path()) == Some(actions[j]@));
            }
            no_word_left(all, path, was);
        },
    }
}

// --- restoring --------------------------------------------------------------

/// A file as it stands in a directory.
pub ghost struct Held {
    pub bytes: Seq<u8>,
    pub mode: u32,
}

/// What restoring the blob `hash_hex` puts into a file. `blobs` are the frames of the packs, by
/// the hexadecimal hash of what they unpack to.
pub open spec fn unpacked(blobs: Map<Seq<char>, Seq<u8>>, hash_hex: Seq<char>, mode: u32) -> Held {
    Held { bytes: lz4_content(blobs[hash_hex]), mode }
}

/// The files after the steps of a restore that meets no refused path.
pub open spec fn after_writes(
    files: Map<Seq<char>, Held>,
    blobs: Map<Seq<char>, Seq<u8>>,
    steps: Seq<RestoreStep>,
) -> Map<Seq<char>, Held>
    decreases steps.len(),
{
    if steps.len() == 0 {
        files
    } else {
        let before = after_writes(files, blobs, steps.drop_last());
        match steps.last().dest {
            Ok(dest) => before.insert(
                dest@,
                unpacked(blobs, steps.last().hash_hex@, steps.last().mode),
            ),
            Err(_) => before,
        }
    }
}

/// The files after a restore has removed what does not belong there.
pub open spec fn after_removals(files: Map<Seq<char>, Held>, dests: Seq<Result<String>>) -> Map<
    Seq<char>,
    Held,
>
    decreases dests.len(),
{
    if dests.len() == 0 {
        files
    } else {
        let before = after_removals(files, dests.drop_last());
        match dests.last() {
            Ok(dest) => before.remove(dest@),
            Err(_) => before,
        }
    }
}

/// Whether no path of a scan does harm.
pub open spec fn safe_paths(scanned: Seq<ScannedFile>) -> bool {
    forall|i: int| 0 <= i < scanned.len() ==> harmless((#[trigger] scanned[i]).relative_path@)
}

/// An accepted path is relative.
proof fn safe_is_relative(path: Seq<char>)
    requires
        is_safe(path),
    ensures
        !is_absolute(path),
{
    reveal_strlit("/");
    if is_absolute(path) {
        assert(path.subrange(0, 1) =~= "/"@);
    }
}

/// What the steps of a restore make of the file at `path`.
proof fn writes_show(
    manifest: Seq<ManifestEntry>,
    steps: Seq<RestoreStep>,
    target: Seq<char>,
    files: Map<Seq<char>, Held>,
    blobs: Map<Seq<char>, Seq<u8>>,
    path: Seq<char>,
)
    requires
        restore_all(steps, manifest, target),
        forall|i: int| 0 <= i < manifest.len() ==> is_safe((#[trigger] manifest[i]).path@),
        is_safe(path),
    ensures
        file_at(after_writes(files, blobs, steps), joined(target, path)) == (if lists(
            manifest,
            path,
        ) {
            Some(
                unpacked(
                    blobs,
                    hex_text(manifest_hashes(manifest)[path]@),
                    manifest_modes(manifest)[path],
                ),
            )
        } else {
            file_at(files, joined(target, path))
        }),
    decreases manifest.len(),
{
    if manifest.len() > 0 {
        let k = manifest.len() - 1;
        let rest = manifest.drop_last();
        let last = manifest.last();
        assert(restores(steps[k], manifest[k], target));
        assert(is_safe(manifest[k].path@));
        assert forall|i: int| 0 <= i < rest.len() implies is_safe((#[trigger] rest[i]).path@) by {
            assert(is_safe(manifest[i].path@));
        }
        assert forall|i: int| 0 <= i < rest.len() implies restores(
            #[trigger] steps.drop_last()[i],
            rest[i],
            target,
        ) by {
            assert(restores(steps[i], manifest[i], target));
        }
        writes_show(rest, steps.drop_last(), target, files, blobs, path);
        safe_is_relative(path);
        safe_is_relative(last.path@);
        if last.path@ == path {
            assert(manifest[k].path@ == path);
        } else {
            if joined(target, last.path@) == joined(target, path) {
                destinations_differ(target, last.path@, path);
            }
            if lists(manifest, path) {
                let j = choose|j: int|
                    0 <= j < manifest.len() && (#[trigger] manifest[j]).path@ == path;
                assert(rest[j].path@ == path);
            }
            if lists(rest, path) {
                let j = choose|j: int| 0 <= j < rest.len() && (#[trigger] rest[j]).path@ == path;
                assert(manifest[j].path@ == path);
            }
        }
    }
}

/// What the removals of a restore make of the file at `path`.
proof fn removals_show(
    which: Seq<int>,
    scanned: Seq<ScannedFile>,
    dests: Seq<Result<String>>,
    target: Seq<char>,
    files: Map<Seq<char>, Held>,
    path: Seq<char>,
)
    requires
        dests.len() == which.len(),
        forall|i: int|
            0 <= i < dests.len() ==> is_destination(
                target,
                scanned[which[i]].relative_path@,
                #[trigger] dests[i],
            ) && is_safe(scanned[which[i]].relative_path@),
        is_safe(path),
    ensures
        file_at(after_removals(files, dests), joined(target, path)) == (if exists|i: int|
            0 <= i < which.len() && scanned[#[trigger] which[i]].relative_path@ == path {
            None
        } else {
            file_at(files, joined(target, path))
        }),
    decreases dests.len(),
{
    if dests.len() > 0 {
        let k = dests.len() - 1;
        let rest = which.drop_last();
        assert(is_destination(target, scanned[which[k]].relative_path@, dests[k]));
        let gone = scanned[which[k]].relative_path@;
        removals_show(rest, scanned, dests.drop_last(), target, files, path);
        safe_is_relative(path);
        safe_is_relative(gone);
        if gone != path {
            if joined(target, gone) == joined(target, path) {
                destinations_differ(target, gone, path);
            }
            if exists|i: int|
                0 <= i < which.len() && scanned[#[trigger] which[i]].relative_path@ == path {
                let i = choose|i: int|
                    0 <= i < which.len() && scanned[#[trigger] which[i]].relative_path@ == path;
                assert(scanned[rest[i]].relative_path@ == path);
            }
            if exists|i: int|
                0 <= i < rest.len() && scanned[#[trigger] rest[i]].relative_path@ == path {
                let i = choose|i: int|
                    0 <= i < rest.len() && scanned[#[trigger] rest[i]].relative_path@ == path;
                assert(scanned[which[i]].relative_path@ == path);
            }
        }
    }
}

/// A restore mirrors its snapshot: a file that the manifest lists becomes what the manifest
/// says, with the mode that it says; of the others, those that the scan finds are removed, and
/// those that it passes over, because they are ignored, stay what they were.
pub proof fn restore_mirrors_the_snapshot(
    manifest: Seq<ManifestEntry>,
    steps: Seq<RestoreStep>,
    scanned: Seq<ScannedFile>,
    removed: Seq<Result<String>>,
    target: Seq<char>,
    files: Map<Seq<char>, Held>,
    blobs: Map<Seq<char>, Seq<u8>>,
    path: Seq<char>,
)
    requires
        restore_all(steps, manifest, target),
        forall|i: int| 0 <= i < manifest.len() ==> harmless((#[trigger] manifest[i]).path@),
        remove_extras(removed, scanned, manifest, target),
        safe_paths(scanned),
        harmless(path),
    ensures
        ({
            let end = file_at(
                after_removals(after_writes(files, blobs, steps), removed),
                joined(target, path),
            );
            if lists(manifest, path) {
                end == Some(
                    unpacked(
                        blobs,
                        hex_text(manifest_hashes(manifest)[path]@),
                        manifest_modes(manifest)[path],
                    ),
                )
            } else if found(scanned, path) {
                end is None
            } else {
                end == file_at(files, joined(target, path))
            }
        }),
{
    safe_is_harmless();
    let which = extra_among(scanned, manifest, scanned.len());
    let written = after_writes(files, blobs, steps);
    extras_are_positions(scanned, manifest, scanned.len());
    writes_show(manifest, steps, target, files, blobs, path);
    assert forall|i: int| 0 <= i < removed.len() implies is_destination(
        target,
        scanned[which[i]].relative_path@,
        #[trigger] removed[i],
    ) && is_safe(scanned[which[i]].relative_path@) by {
        assert(0 <= which[i] < scanned.len());
        assert(is_safe(scanned[which[i]].relative_path@));
    }
    removals_show(which, scanned, removed, target, written, path);
    if exists|i: int| 0 <= i < which.len() && scanned[#[trigger] which[i]].relative_path@ == path {
        let i = choose|i: int|
            0 <= i < which.len() && scanned[#[trigger] which[i]].relative_path@ == path;
        let p = which[i];
        assert(0 <= p < scanned.len());
        only_unlisted_files_are_removed(scanned, manifest, scanned.len(), p);
        assert(which.contains(p));
        assert(scanned[p].relative_path@ == path);
        assert(found(scanned, path));
    }
    if found(scanned, path) && !lists(manifest, path) {
        let p = choose|p: int|
            0 <= p < scanned.len() && (#[trigger] scanned[p]).relative_path@ == path;
        only_unlisted_files_are_removed(scanned, manifest, scanned.len(), p);
        let i = choose|i: int| 0 <= i < which.len() && which[i] == p;
        assert(scanned[which[i]].relative_path@ == path);
    }
}

// --- saving, then restoring -------------------------------------------------

/// Whether the packs hold a content, under its hash.
pub open spec fn holds_content(blobs: Map<Seq<char>, Seq<u8>>, content: Seq<u8>) -> bool {
    let key = hex_text(content_hash(content));
    blobs.dom().contains(key) && lz4_content(blobs[key]) == content
}

/// What a manifest says of a path that it lists is what one of its entries says.
proof fn listed_is_an_entry(manifest: Seq<ManifestEntry>, path: Seq<char>)
    requires
        lists(manifest, path),
    ensures
        exists|i: int|
            0 <= i < manifest.len() && (#[trigger] manifest[i]).path@ == path
                && manifest_hashes(manifest)[path] == manifest[i].blob_hash && manifest_modes(
                manifest,
            )[path] == manifest[i].mode,
    decreases manifest.len(),
{
    if manifest.len() > 0 {
        let rest = manifest.drop_last();
        if manifest.last().path@ == path {
            assert(manifest[manifest.len() - 1].path@ == path);
        } else {
            let j = choose|j: int| 0 <= j < manifest.len() && (#[trigger] manifest[j]).path@ == path;
            assert(rest[j].path@ == path);
            listed_is_an_entry(rest, path);
            let i = choose|i: int|
                0 <= i < rest.len() && (#[trigger] rest[i]).path@ == path && manifest_hashes(
                    rest,
                )[path] == rest[i].blob_hash && manifest_modes(rest)[path] == rest[i].mode;
            assert(manifest[i] == rest[i]);
        }
    }
}

/// What was saved is what is restored. A directory was saved: every file of the scan was read and
/// packed, or the index kept it. Whatever became of the directory afterwards, restoring the
/// snapshot gives every file of the scan the bytes and the mode that it had, and leaves no other
/// file that a scan finds. As many files are restored as were scanned.
pub proof fn saved_files_are_restored(
    scanned: Seq<ScannedFile>,
    contents: Seq<Seq<u8>>,
    index: Map<Seq<char>, FileEntry>,
    fresh: Seq<FileEntry>,
    pack_hash: Option<String>,
    parent: Option<String>,
    snap: Snapshot,
    blobs: Map<Seq<char>, Seq<u8>>,
    steps: Seq<RestoreStep>,
    later: Seq<ScannedFile>,
    removed: Seq<Result<String>>,
    target: Seq<char>,
    files: Map<Seq<char>, Held>,
    path: Seq<char>,
)
    requires
        scanned.len() <= usize::MAX,
        distinct_paths(scanned),
        safe_paths(scanned),
        forall|k: Seq<char>| #[trigger] index.dom().contains(k) ==> index[k].path@ == k,
        are_read(fresh, scanned, index),
        are_hashed(fresh, scanned, index, contents),
        remembers(index, scanned, contents),
        is_snapshot(snap, scanned, index, fresh, pack_hash, parent),
        forall|p: int| 0 <= p < scanned.len() ==> holds_content(blobs, #[trigger] contents[p]),
        restore_all(steps, snap.manifest@, target),
        remove_extras(removed, later, snap.manifest@, target),
        safe_paths(later),
        harmless(path),
    ensures
        steps.len() == scanned.len(),
        ({
            let end = file_at(
                after_removals(after_writes(files, blobs, steps), removed),
                joined(target, path),
            );
            &&& forall|p: int|
                0 <= p < scanned.len() && (#[trigger] scanned[p]).relative_path@ == path ==> end
                    == Some(Held { bytes: contents[p], mode: scanned[p].mode })
            &&& !found(scanned, path) && found(later, path) ==> end is None
            &&& !found(scanned, path) && !found(later, path) ==> end == file_at(
                files,
                joined(target, path),
            )
        }),
{
    let all = listing(scanned, index, fresh);
    let manifest = snap.manifest@;
    snapshot_counts_the_scan(scanned, index, fresh);
    snapshot_lists_the_scan(scanned, index, fresh, path);
    assert(is_sorted(manifest, all));
    let o = choose|o: Seq<usize>| #[trigger]
        is_order(paths_of(all), o) && manifest == o.map_values(|i: usize| all[i as int]);
    assert forall|j: int| 0 <= j < manifest.len() implies o[j] < all.len() && #[trigger] manifest[j]
        == all[o[j] as int] by {
        assert(o.contains(o[j]));
    }
    assert forall|j: int| 0 <= j < manifest.len() implies harmless((#[trigger] manifest[j]).path@) by {
        let at = manifest[j].path@;
        assert(all[o[j] as int].path@ == at);
        snapshot_lists_the_scan(scanned, index, fresh, at);
        let p = choose|p: int| 0 <= p < scanned.len() && (#[trigger] scanned[p]).relative_path@ == at;
        assert(harmless(scanned[p].relative_path@));
    }
    if found(scanned, path) {
        let i = choose|i: int| 0 <= i < all.len() && (#[trigger] all[i]).path@ == path;
        assert(o.contains(i as usize));
        let j = choose|j: int| 0 <= j < o.len() && o[j] == i as usize;
        assert(manifest[j].path@ == path);
    }
    if lists(manifest, path) {
        let j = choose|j: int| 0 <= j < manifest.len() && (#[trigger] manifest[j]).path@ == path;
        assert(all[o[j] as int].path@ == path);
    }
    assert(lists(manifest, path) <==> found(scanned, path));
    restore_mirrors_the_snapshot(manifest, steps, later, removed, target, files, blobs, path);
    let end = file_at(
        after_removals(after_writes(files, blobs, steps), removed),
        joined(target, path),
    );
    assert forall|p: int|
        0 <= p < scanned.len() && (#[trigger] scanned[p]).relative_path@ == path implies end == Some(
        Held { bytes: contents[p], mode: scanned[p].mode },
    ) by {
        assert(found(scanned, path));
        listed_is_an_entry(manifest, path);
        let j = choose|j: int|
            0 <= j < manifest.len() && (#[trigger] manifest[j]).path@ == path && manifest_hashes(
                manifest,
            )[path] == manifest[j].blob_hash && manifest_modes(manifest)[path] == manifest[j].mode;
        snapshot_describes_the_scan(scanned, contents, index, fresh, p, o[j] as int);
        assert(holds_content(blobs, contents[p]));
    }
}

} // verus!
