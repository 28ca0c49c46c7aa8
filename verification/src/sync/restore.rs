//! Restoring a snapshot into a directory.

use crate::digest::hex_text;
use crate::error::{Result, SyncorError};
use crate::path::{
    closed_parts, components, counting, counts, is_absolute, join, joined, open_part, parts,
};
use crate::sync::save::{ManifestEntry, ScannedFile};
use crate::text::{
    before, before_irreflexive, before_transitive, chars_of, contains_text, join2, occurs_at,
    occurs_in, slice_text, starts_with, texts,
};
use crate::text_map::{lists_keys, TextMap};
use chkpt_core::store::blob::bytes_to_hex;
use vstd::prelude::*;

verus! {

/// Whether a path from a manifest may be used: it is relative and does not climb.
pub open spec fn is_safe(relative: Seq<char>) -> bool {
    !occurs_at(relative, "/"@, 0) && !occurs_at(relative, "\\"@, 0) && !occurs_in(relative, ".."@)
}

/// Whether `r` is the outcome of looking up `relative` under `base`.
pub open spec fn is_destination(base: Seq<char>, relative: Seq<char>, r: Result<String>) -> bool {
    match r {
        Ok(dest) => is_safe(relative) && dest@ == joined(base, relative),
        Err(e) => !is_safe(relative) && (e matches SyncorError::Other(t) && t@
            == "unsafe path in manifest: "@ + relative),
    }
}

/// Validate that a path from a manifest doesn't escape the target directory.
pub fn validate_path(base: &str, relative: &str) -> (r: Result<String>)
    ensures
        is_destination(base@, relative@, r),
{
    if starts_with(relative, "/") || starts_with(relative, "\\") || contains_text(relative, "..") {
        return Err(SyncorError::Other(join2("unsafe path in manifest: ", relative)));
    }
    Ok(join(base, relative))
}

/// What a restore did.
#[derive(Debug)]
pub struct RestoreResult {
    pub files_restored: usize,
    pub files_removed: usize,
}

/// One file to write: read the blob, then write it to the destination with the mode. A
/// destination that is refused ends the restore.
#[derive(Debug)]
pub struct RestoreStep {
    pub hash_hex: String,
    pub dest: Result<String>,
    pub mode: u32,
}

/// Whether `step` restores `entry` under `target`.
pub open spec fn restores(step: RestoreStep, entry: ManifestEntry, target: Seq<char>) -> bool {
    &&& step.hash_hex@ == hex_text(entry.blob_hash@)
    &&& is_destination(target, entry.path@, step.dest)
    &&& step.mode == entry.mode
}

/// Whether a manifest lists `path`.
pub open spec fn lists(manifest: Seq<ManifestEntry>, path: Seq<char>) -> bool {
    exists|i: int| 0 <= i < manifest.len() && (#[trigger] manifest[i]).path@ == path
}

/// The positions of the files, among the first `n` of a scan, that the manifest does not list.
pub open spec fn extra_among(
    scanned: Seq<ScannedFile>,
    manifest: Seq<ManifestEntry>,
    n: nat,
) -> Seq<int>
    decreases n,
{
    if n == 0 {
        Seq::empty()
    } else if lists(manifest, scanned[n - 1].relative_path@) {
        extra_among(scanned, manifest, (n - 1) as nat)
    } else {
        extra_among(scanned, manifest, (n - 1) as nat).push(n - 1)
    }
}

/// Whether `path` lies below the directory `dir`, at whatever depth. Both are seen from the same
/// place.
pub open spec fn lies_below(path: Seq<char>, dir: Seq<char>) -> bool {
    occurs_at(path, dir + "/"@, 0)
}

/// Whether one of the files lies below a directory.
pub open spec fn holds_a_file(dir: Seq<char>, files: Seq<String>) -> bool {
    exists|i: int| 0 <= i < files.len() && lies_below((#[trigger] files[i])@, dir)
}

/// Whether `r` are the directories without any file below them, each once, and each behind those
/// that lie below it.
pub open spec fn are_empty_dirs(r: Seq<String>, dirs: Seq<String>, files: Seq<String>) -> bool {
    &&& forall|d: Seq<char>| #[trigger]
        texts(r).contains(d) <==> texts(dirs).contains(d) && !holds_a_file(d, files)
    &&& forall|i: int, j: int|
        0 <= i < j < r.len() ==> before((#[trigger] r[j])@, (#[trigger] r[i])@)
    &&& forall|i: int, j: int|
        0 <= i < j < r.len() ==> !lies_below((#[trigger] r[j])@, (#[trigger] r[i])@)
}

/// Whether the steps restore a manifest.
pub open spec fn restore_all(
    steps: Seq<RestoreStep>,
    manifest: Seq<ManifestEntry>,
    target: Seq<char>,
) -> bool {
    &&& steps.len() == manifest.len()
    &&& forall|i: int| 0 <= i < steps.len() ==> restores(#[trigger] steps[i], manifest[i], target)
}

/// Whether `removed` are the files of a scan that a restore removes.
pub open spec fn remove_extras(
    removed: Seq<Result<String>>,
    scanned: Seq<ScannedFile>,
    manifest: Seq<ManifestEntry>,
    target: Seq<char>,
) -> bool {
    let which = extra_among(scanned, manifest, scanned.len());
    &&& removed.len() == which.len()
    &&& forall|i: int|
        0 <= i < removed.len() ==> is_destination(
            target,
            scanned[which[i]].relative_path@,
            #[trigger] removed[i],
        )
}

/// Restores snapshots.
pub struct RestorePipeline;

impl RestorePipeline {
    /// What has to be written, in the order of the manifest.
    pub fn steps(manifest: &Vec<ManifestEntry>, target_dir: &str) -> (r: Vec<RestoreStep>)
        ensures
            restore_all(r@, manifest@, target_dir@),
    {
        let mut r: Vec<RestoreStep> = Vec::new();
        let mut i: usize = 0;
        while i < manifest.len()
            invariant
                i <= manifest@.len(),
                r@.len() == i,
                forall|j: int|
                    0 <= j < i ==> restores(#[trigger] r@[j], manifest@[j], target_dir@),
            decreases manifest@.len() - i,
        {
            let entry = &manifest[i];
            r.push(
                RestoreStep {
                    hash_hex: bytes_to_hex(&entry.blob_hash),
                    dest: validate_path(target_dir, entry.path.as_str()),
                    mode: entry.mode,
                },
            );
            i = i + 1;
        }
        r
    }

    /// What has to be removed afterwards: the files of a scan that the manifest does not list.
    /// The scan leaves ignored files out, so they are never removed.
    pub fn extras(
        scanned: &Vec<ScannedFile>,
        manifest: &Vec<ManifestEntry>,
        target_dir: &str,
    ) -> (r: Vec<Result<String>>)
        ensures
            remove_extras(r@, scanned@, manifest@, target_dir@),
    {
        let listed = manifest_paths(manifest);
        let mut r: Vec<Result<String>> = Vec::new();
        let mut i: usize = 0;
        while i < scanned.len()
            invariant
                i <= scanned@.len(),
                forall|path: Seq<char>| #[trigger]
                    listed@.dom().contains(path) <==> lists(manifest@, path),
                r@.len() == extra_among(scanned@, manifest@, i as nat).len(),
                forall|j: int|
                    0 <= j < r@.len() ==> is_destination(
                        target_dir@,
                        scanned@[extra_among(scanned@, manifest@, i as nat)[j]].relative_path@,
                        #[trigger] r@[j],
                    ),
            decreases scanned@.len() - i,
        {
            let path = scanned[i].relative_path.as_str();
            if !listed.contains(path) {
                r.push(validate_path(target_dir, path));
            }
            i = i + 1;
        }
        r
    }

    /// What is left to remove in the end: the directories without any file below them, the
    /// deepest first. `dirs` and `files` are all directories and all files below the target, the
    /// ignored ones among them.
    pub fn empty_dirs(dirs: &Vec<String>, files: &Vec<String>) -> (r: Vec<String>)
        ensures
            are_empty_dirs(r@, dirs@, files@),
    {
        let taken = dirs_above(files);
        let mut empty: TextMap<()> = TextMap::new();
        let mut i: usize = 0;
        while i < dirs.len()
            invariant
                i <= dirs@.len(),
                forall|d: Seq<char>| #[trigger]
                    taken@.dom().contains(d) <==> holds_a_file(d, files@),
                forall|d: Seq<char>| #[trigger]
                    empty@.dom().contains(d) <==> texts(dirs@.subrange(0, i as int)).contains(d)
                        && !holds_a_file(d, files@),
            decreases dirs@.len() - i,
        {
            let ghost was = empty@;
            let dir = &dirs[i];
            if !taken.contains(dir.as_str()) {
                empty.insert(dir.clone(), ());
            }
            proof {
                let p = texts(dirs@.subrange(0, i as int));
                let q = texts(dirs@.subrange(0, i + 1));
                assert(q =~= p.push(dir@));
                assert forall|d: Seq<char>| #[trigger]
                    empty@.dom().contains(d) <==> q.contains(d) && !holds_a_file(d, files@) by {
                    pushed_contains(p, dir@, d);
                    assert(was.dom().contains(d) <==> p.contains(d) && !holds_a_file(d, files@));
                    assert(taken@.dom().contains(dir@) <==> holds_a_file(dir@, files@));
                }
            }
            i = i + 1;
        }
        assert(dirs@.subrange(0, i as int) =~= dirs@);
        let n: usize = empty.len();
        let mut r: Vec<String> = Vec::new();
        let mut k: usize = n;
        while k > 0
            invariant
                k <= n,
                n == empty.keys().len(),
                lists_keys(empty.keys(), empty@),
                r@.len() == n - k,
                forall|j: int| 0 <= j < r@.len() ==> (#[trigger] r@[j])@ == empty.keys()[n - 1 - j],
            decreases k,
        {
            k = k - 1;
            r.push(empty.key(k).clone());
        }
        proof {
            let keys = empty.keys();
            assert forall|d: Seq<char>| #[trigger] texts(r@).contains(d) <==> texts(dirs@).contains(
                d,
            ) && !holds_a_file(d, files@) by {
                if texts(r@).contains(d) {
                    let j = choose|j: int| 0 <= j < texts(r@).len() && texts(r@)[j] == d;
                    assert(r@[j]@ == keys[n - 1 - j]);
                    assert(empty@.dom().contains(keys[n - 1 - j]));
                }
                if empty@.dom().contains(d) {
                    let a = choose|a: int| 0 <= a < keys.len() && keys[a] == d;
                    assert(r@[n - 1 - a]@ == keys[a]);
                    assert(texts(r@)[n - 1 - a] == d);
                }
                assert(empty@.dom().contains(d) <==> texts(dirs@).contains(d) && !holds_a_file(
                    d,
                    files@,
                ));
            }
            assert forall|i: int, j: int| 0 <= i < j < r@.len() implies before(
                (#[trigger] r@[j])@,
                (#[trigger] r@[i])@,
            ) by {
                assert(before(keys[n - 1 - j], keys[n - 1 - i]));
            }
            assert forall|i: int, j: int| 0 <= i < j < r@.len() implies !lies_below(
                (#[trigger] r@[j])@,
                (#[trigger] r@[i])@,
            ) by {
                assert(before(keys[n - 1 - j], keys[n - 1 - i]));
                if lies_below(r@[j]@, r@[i]@) {
                    below_comes_later(r@[j]@, r@[i]@);
                    before_transitive(r@[j]@, r@[i]@, r@[j]@);
                    before_irreflexive(r@[j]@);
                }
            }
        }
        r
    }
}

/// What a sequence holds once something was put behind it.
proof fn pushed_contains(s: Seq<Seq<char>>, x: Seq<char>, d: Seq<char>)
    ensures
        s.push(x).contains(d) <==> s.contains(d) || d == x,
{
    if s.contains(d) {
        let i = choose|i: int| 0 <= i < s.len() && s[i] == d;
        assert(s.push(x)[i] == d);
    }
    assert(s.push(x)[s.len() as int] == x);
    if s.push(x).contains(d) {
        let i = choose|i: int| 0 <= i < s.push(x).len() && s.push(x)[i] == d;
        if i < s.len() {
            assert(s[i] == d);
        }
    }
}

/// A directory comes before what lies below it.
proof fn below_comes_later(path: Seq<char>, dir: Seq<char>)
    requires
        lies_below(path, dir),
    ensures
        before(dir, path),
        dir.len() < path.len(),
    decreases dir.len(),
{
    reveal_strlit("/");
    let front = dir + "/"@;
    assert(path.subrange(0, front.len() as int) == front);
    if dir.len() > 0 {
        assert(path[0] == front[0]);
        let p = path.drop_first();
        let d = dir.drop_first();
        assert(p.subrange(0, (d + "/"@).len() as int) =~= d + "/"@) by {
            assert forall|i: int| 0 <= i < (d + "/"@).len() implies #[trigger] p[i] == (d + "/"@)[i] by {
                assert(path.subrange(0, front.len() as int)[i + 1] == front[i + 1]);
            }
        }
        below_comes_later(p, d);
    }
}

/// A path lies below the directories that its separators cut off.
proof fn below_by_separator(path: Seq<char>, dir: Seq<char>)
    ensures
        lies_below(path, dir) <==> exists|k: int|
            0 <= k < path.len() && #[trigger] path[k] == '/' && path.subrange(0, k) == dir,
{
    reveal_strlit("/");
    let n = dir.len() as int;
    let front = dir + "/"@;
    assert(front.len() == n + 1);
    if lies_below(path, dir) {
        let s = path.subrange(0, n + 1);
        assert(s == front);
        assert(s[n] == path[n] && front[n] == '/');
        assert(path.subrange(0, n) =~= dir) by {
            assert forall|i: int| 0 <= i < n implies #[trigger] path[i] == dir[i] by {
                assert(s[i] == front[i]);
            }
        }
        assert(path[n] == '/');
    }
    if exists|k: int| 0 <= k < path.len() && #[trigger] path[k] == '/' && path.subrange(0, k) == dir {
        let k = choose|k: int|
            0 <= k < path.len() && #[trigger] path[k] == '/' && path.subrange(0, k) == dir;
        assert(k == n);
        assert(path.subrange(0, n + 1) =~= front) by {
            assert forall|i: int| 0 <= i < n + 1 implies #[trigger] path[i] == front[i] by {
                if i < n {
                    assert(path.subrange(0, k)[i] == dir[i]);
                }
            }
        }
    }
}

/// Takes in the directories that a path lies below.
fn add_dirs_above(taken: &mut TextMap<()>, path: &str)
    ensures
        forall|d: Seq<char>| #[trigger]
            final(taken)@.dom().contains(d) <==> old(taken)@.dom().contains(d) || lies_below(
                path@,
                d,
            ),
{
    let cs = chars_of(path);
    let mut k: usize = 0;
    while k < cs.len()
        invariant
            k <= cs@.len(),
            forall|d: Seq<char>| #[trigger]
                taken@.dom().contains(d) <==> old(taken)@.dom().contains(d) || exists|a: int|
                    0 <= a < k && #[trigger] cs@[a] == '/' && cs@.subrange(0, a) == d,
        decreases cs@.len() - k,
    {
        let ghost was = taken@;
        if cs[k] == '/' {
            taken.insert(slice_text(&cs, 0, k), ());
        }
        proof {
            assert forall|d: Seq<char>| #[trigger]
                taken@.dom().contains(d) <==> old(taken)@.dom().contains(d) || exists|a: int|
                    0 <= a < k + 1 && #[trigger] cs@[a] == '/' && cs@.subrange(0, a) == d by {
                assert(was.dom().contains(d) <==> old(taken)@.dom().contains(d) || exists|a: int|
                    0 <= a < k && #[trigger] cs@[a] == '/' && cs@.subrange(0, a) == d);
                if cs@[k as int] == '/' && cs@.subrange(0, k as int) == d {
                    assert(taken@.dom().contains(d));
                }
            }
        }
        k = k + 1;
    }
    proof {
        assert forall|d: Seq<char>| #[trigger]
            taken@.dom().contains(d) <==> old(taken)@.dom().contains(d) || lies_below(path@, d) by {
            below_by_separator(path@, d);
        }
    }
}

/// The set of the directories that files lie below.
fn dirs_above(files: &Vec<String>) -> (r: TextMap<()>)
    ensures
        forall|d: Seq<char>| #[trigger] r@.dom().contains(d) <==> holds_a_file(d, files@),
{
    let mut r: TextMap<()> = TextMap::new();
    let mut i: usize = 0;
    while i < files.len()
        invariant
            i <= files@.len(),
            forall|d: Seq<char>| #[trigger]
                r@.dom().contains(d) <==> holds_a_file(d, files@.subrange(0, i as int)),
        decreases files@.len() - i,
    {
        let ghost was = r@;
        add_dirs_above(&mut r, files[i].as_str());
        proof {
            let p = files@.subrange(0, i as int);
            let q = files@.subrange(0, i + 1);
            assert forall|d: Seq<char>| #[trigger]
                r@.dom().contains(d) <==> holds_a_file(d, q) by {
                assert(was.dom().contains(d) <==> holds_a_file(d, p));
                if holds_a_file(d, p) {
                    let j = choose|j: int| 0 <= j < p.len() && lies_below((#[trigger] p[j])@, d);
                    assert(lies_below(q[j]@, d));
                }
                if lies_below(files@[i as int]@, d) {
                    assert(lies_below(q[i as int]@, d));
                }
                if holds_a_file(d, q) {
                    let j = choose|j: int| 0 <= j < q.len() && lies_below((#[trigger] q[j])@, d);
                    if j < i {
                        assert(lies_below(p[j]@, d));
                    }
                }
            }
        }
        i = i + 1;
    }
    assert(files@.subrange(0, files@.len() as int) =~= files@);
    r
}

/// The set of the paths of a manifest.
fn manifest_paths(manifest: &Vec<ManifestEntry>) -> (r: TextMap<()>)
    ensures
        forall|path: Seq<char>| #[trigger] r@.dom().contains(path) <==> lists(manifest@, path),
{
    let mut r: TextMap<()> = TextMap::new();
    let mut i: usize = 0;
    while i < manifest.len()
        invariant
            i <= manifest@.len(),
            forall|path: Seq<char>| #[trigger]
                r@.dom().contains(path) <==> lists(manifest@.subrange(0, i as int), path),
        decreases manifest@.len() - i,
    {
        let ghost was = r@;
        r.insert(manifest[i].path.clone(), ());
        proof {
            let p = manifest@.subrange(0, i as int);
            let q = manifest@.subrange(0, i + 1);
            let last = manifest@[i as int].path@;
            assert forall|path: Seq<char>| #[trigger]
                r@.dom().contains(path) <==> lists(q, path) by {
                assert(r@.dom().contains(path) <==> was.dom().contains(path) || path == last);
                if lists(p, path) {
                    let j = choose|j: int| 0 <= j < p.len() && (#[trigger] p[j]).path@ == path;
                    assert(q[j].path@ == path);
                }
                assert(q[i as int].path@ == last);
                if lists(q, path) {
                    let j = choose|j: int| 0 <= j < q.len() && (#[trigger] q[j]).path@ == path;
                    if j < i {
                        assert(p[j].path@ == path);
                    }
                }
            }
        }
        i = i + 1;
    }
    assert(manifest@.subrange(0, manifest@.len() as int) =~= manifest@);
    r
}

// ---------------------------------------------------------------------------
// Laws
// ---------------------------------------------------------------------------

/// A file of the scan is removed if and only if the manifest does not list it.
pub proof fn only_unlisted_files_are_removed(
    scanned: Seq<ScannedFile>,
    manifest: Seq<ManifestEntry>,
    n: nat,
    p: int,
)
    requires
        n <= scanned.len(),
        0 <= p < n,
    ensures
        extra_among(scanned, manifest, n).contains(p) <==> !lists(
            manifest,
            scanned[p].relative_path@,
        ),
    decreases n,
{
    let now = extra_among(scanned, manifest, n);
    let before = extra_among(scanned, manifest, (n - 1) as nat);
    extras_are_positions(scanned, manifest, (n - 1) as nat);
    if p < n - 1 {
        only_unlisted_files_are_removed(scanned, manifest, (n - 1) as nat, p);
        if before.contains(p) {
            let i = choose|i: int| 0 <= i < before.len() && before[i] == p;
            assert(now[i] == p);
        }
        if now.contains(p) {
            let i = choose|i: int| 0 <= i < now.len() && now[i] == p;
            assert(before[i] == p);
        }
    } else {
        if !lists(manifest, scanned[p].relative_path@) {
            assert(now[before.len() as int] == p);
        }
    }
}

/// The positions of extra files lie within the files looked at.
pub proof fn extras_are_positions(scanned: Seq<ScannedFile>, manifest: Seq<ManifestEntry>, n: nat)
    requires
        n <= scanned.len(),
    ensures
        forall|i: int|
            0 <= i < extra_among(scanned, manifest, n).len() ==> 0 <= #[trigger] extra_among(
                scanned,
                manifest,
                n,
            )[i] < n,
    decreases n,
{
    if n > 0 {
        extras_are_positions(scanned, manifest, (n - 1) as nat);
        let before = extra_among(scanned, manifest, (n - 1) as nat);
        let now = extra_among(scanned, manifest, n);
        assert forall|i: int| 0 <= i < now.len() implies 0 <= #[trigger] now[i] < n by {
            if i < before.len() {
                assert(now[i] == before[i]);
            }
        }
    }
}

/// No empty directory is left below the target: a directory that is not removed has a file below
/// it.
pub proof fn no_empty_directory_is_left(
    removed: Seq<String>,
    dirs: Seq<String>,
    files: Seq<String>,
    d: Seq<char>,
)
    requires
        are_empty_dirs(removed, dirs, files),
        texts(dirs).contains(d),
        !texts(removed).contains(d),
    ensures
        holds_a_file(d, files),
{
}

/// A directory is empty when its turn to be removed comes: no file lies below it, and the
/// directories below it are gone by then.
pub proof fn removed_directories_are_empty(
    removed: Seq<String>,
    dirs: Seq<String>,
    files: Seq<String>,
    i: int,
    inner: Seq<char>,
)
    requires
        are_empty_dirs(removed, dirs, files),
        0 <= i < removed.len(),
    ensures
        texts(dirs).contains(removed[i]@),
        !holds_a_file(removed[i]@, files),
        texts(dirs).contains(inner) && lies_below(inner, removed[i]@) ==> exists|j: int|
            0 <= j < i && (#[trigger] removed[j])@ == inner,
{
    let outer = removed[i]@;
    assert(texts(removed)[i] == outer);
    assert(texts(removed).contains(outer));
    if texts(dirs).contains(inner) && lies_below(inner, outer) {
        if holds_a_file(inner, files) {
            let k = choose|k: int| 0 <= k < files.len() && lies_below((#[trigger] files[k])@, inner);
            below_is_transitive(files[k]@, inner, outer);
        }
        assert(texts(removed).contains(inner));
        let j = choose|j: int| 0 <= j < texts(removed).len() && texts(removed)[j] == inner;
        assert(removed[j]@ == inner);
        below_comes_later(inner, outer);
        if i < j {
            assert(!lies_below(removed[j]@, removed[i]@));
        }
    }
}

/// What lies below a directory that lies below another lies below that too.
proof fn below_is_transitive(path: Seq<char>, inner: Seq<char>, outer: Seq<char>)
    requires
        lies_below(path, inner),
        lies_below(inner, outer),
    ensures
        lies_below(path, outer),
{
    let a = outer + "/"@;
    let b = inner + "/"@;
    assert(path.subrange(0, a.len() as int) =~= a) by {
        assert forall|i: int| 0 <= i < a.len() implies #[trigger] path[i] == a[i] by {
            assert(path.subrange(0, b.len() as int)[i] == b[i]);
            assert(inner.subrange(0, a.len() as int)[i] == a[i]);
        }
    }
}

/// The parts of two paths with a separator between them.
proof fn parts_of_joined(a: Seq<char>, b: Seq<char>)
    ensures
        closed_parts(a + seq!['/'] + b) == parts(a) + closed_parts(b),
        open_part(a + seq!['/'] + b) == open_part(b),
    decreases b.len(),
{
    let x = a + seq!['/'] + b;
    if b.len() == 0 {
        assert(x.drop_last() =~= a);
        assert(closed_parts(x) =~= parts(a) + closed_parts(b));
    } else {
        parts_of_joined(a, b.drop_last());
        assert(x.drop_last() =~= a + seq!['/'] + b.drop_last());
        if b.last() == '/' {
            assert(closed_parts(x) =~= parts(a) + closed_parts(b));
        }
    }
}

/// The parts that count behind the first one.
pub open spec fn counting_behind(ps: Seq<Seq<char>>) -> Seq<Seq<char>>
    decreases ps.len(),
{
    if ps.len() == 0 {
        Seq::empty()
    } else if counts(ps.last(), 1) {
        counting_behind(ps.drop_last()).push(ps.last())
    } else {
        counting_behind(ps.drop_last())
    }
}

/// The counting parts of a concatenation.
proof fn counting_of_both(x: Seq<Seq<char>>, y: Seq<Seq<char>>)
    requires
        x.len() > 0,
    ensures
        counting(x + y) == counting(x) + counting_behind(y),
    decreases y.len(),
{
    if y.len() == 0 {
        assert(x + y =~= x);
        assert(counting(x) + counting_behind(y) =~= counting(x));
    } else {
        counting_of_both(x, y.drop_last());
        assert((x + y).drop_last() =~= x + y.drop_last());
        assert(counting(x + y) =~= counting(x) + counting_behind(y));
    }
}

/// The part behind the last separator stands in the path.
proof fn open_part_occurs(p: Seq<char>)
    ensures
        open_part(p).len() <= p.len(),
        p.subrange(p.len() - open_part(p).len(), p.len() as int) == open_part(p),
    decreases p.len(),
{
    if p.len() > 0 && p.last() != '/' {
        open_part_occurs(p.drop_last());
        let q = p.drop_last();
        let n = open_part(q).len();
        assert(p.subrange(p.len() - open_part(p).len(), p.len() as int) =~= q.subrange(
            q.len() - n,
            q.len() as int,
        ).push(p.last()));
    } else {
        assert(p.subrange(p.len() as int, p.len() as int) =~= Seq::<char>::empty());
    }
}

/// Every part of a path stands in it.
proof fn parts_occur(p: Seq<char>, i: int)
    requires
        0 <= i < parts(p).len(),
    ensures
        occurs_in(p, parts(p)[i]),
    decreases p.len(),
{
    if i == closed_parts(p).len() {
        open_part_occurs(p);
        assert(occurs_at(p, open_part(p), p.len() - open_part(p).len()));
    } else {
        let q = p.drop_last();
        if p.last() == '/' {
            assert(parts(q)[i] == parts(p)[i]);
        } else {
            assert(parts(q)[i] == parts(p)[i]);
        }
        parts_occur(q, i);
        let at = choose|at: int| occurs_at(q, parts(q)[i], at);
        let part = parts(q)[i];
        assert(p.subrange(at, at + part.len()) =~= q.subrange(at, at + part.len()));
        assert(occurs_at(p, part, at));
    }
}

/// What counts of some parts is among them.
proof fn counting_is_among(ps: Seq<Seq<char>>, x: Seq<char>)
    requires
        counting_behind(ps).contains(x),
    ensures
        ps.contains(x),
    decreases ps.len(),
{
    let c = counting_behind(ps);
    let i = choose|i: int| 0 <= i < c.len() && c[i] == x;
    if ps.len() > 0 {
        if counts(ps.last(), 1) && i == c.len() - 1 {
            assert(ps[ps.len() - 1] == x);
        } else {
            assert(counting_behind(ps.drop_last())[i] == x);
            counting_is_among(ps.drop_last(), x);
            let j = choose|j: int| 0 <= j < ps.drop_last().len() && ps.drop_last()[j] == x;
            assert(ps[j] == x);
        }
    }
}

/// What counts of all parts is among them.
proof fn component_is_among(ps: Seq<Seq<char>>, x: Seq<char>)
    requires
        counting(ps).contains(x),
    ensures
        ps.contains(x),
    decreases ps.len(),
{
    let c = counting(ps);
    let i = choose|i: int| 0 <= i < c.len() && c[i] == x;
    if ps.len() > 0 {
        if counts(ps.last(), ps.len() - 1) && i == c.len() - 1 {
            assert(ps[ps.len() - 1] == x);
        } else {
            assert(counting(ps.drop_last())[i] == x);
            component_is_among(ps.drop_last(), x);
            let j = choose|j: int| 0 <= j < ps.drop_last().len() && ps.drop_last()[j] == x;
            assert(ps[j] == x);
        }
    }
}

/// The components of the destination: those of the directory, then some of the parts of the
/// relative path.
proof fn components_of_joined(base: Seq<char>, relative: Seq<char>)
    requires
        !is_absolute(relative),
    ensures
        ({
            let dest = components(joined(base, relative));
            let dir = components(base);
            &&& is_absolute(joined(base, relative)) == is_absolute(base)
            &&& dir.len() <= dest.len()
            &&& dest.subrange(0, dir.len() as int) == dir
            &&& forall|i: int|
                dir.len() <= i < dest.len() ==> parts(relative).contains(#[trigger] dest[i])
        }),
{
    reveal_strlit("/");
    let whole = joined(base, relative);
    let dest = components(whole);
    let dir = components(base);
    let slash = seq!['/'];
    assert("/"@ =~= slash);
    if base.len() == 0 {
        assert(whole =~= relative);
        assert(parts(base).drop_last() =~= Seq::<Seq<char>>::empty());
        assert(counting(parts(base).drop_last()).len() == 0);
        assert(dest.subrange(0, 0) =~= dir);
        assert forall|i: int| dir.len() <= i < dest.len() implies parts(relative).contains(
            #[trigger] dest[i],
        ) by {
            component_is_among(parts(relative), dest[i]);
        }
    } else {
        let head = if base.last() == '/' {
            base.drop_last()
        } else {
            base
        };
        assert(whole =~= head + slash + relative);
        parts_of_joined(head, relative);
        assert(parts(whole) =~= parts(head) + parts(relative));
        counting_of_both(parts(head), parts(relative));
        if base.last() == '/' {
            let none = Seq::<char>::empty();
            parts_of_joined(head, none);
            assert(head + slash + none =~= base);
            assert(parts(base) =~= parts(head).push(none));
            assert(parts(base).drop_last() =~= parts(head));
        }
        assert(dest == dir + counting_behind(parts(relative)));
        assert(dest.subrange(0, dir.len() as int) =~= dir);
        assert forall|i: int| dir.len() <= i < dest.len() implies parts(relative).contains(
            #[trigger] dest[i],
        ) by {
            assert(counting_behind(parts(relative))[i - dir.len()] == dest[i]);
            counting_is_among(parts(relative), dest[i]);
        }
    }
}

/// A path that is accepted stays inside the directory: its destination has all components of the
/// directory first, and none of those that follow climbs.
pub proof fn accepted_paths_stay_inside(base: Seq<char>, relative: Seq<char>)
    requires
        is_safe(relative),
    ensures
        ({
            let dest = components(joined(base, relative));
            let dir = components(base);
            &&& is_absolute(joined(base, relative)) == is_absolute(base)
            &&& dir.len() <= dest.len()
            &&& dest.subrange(0, dir.len() as int) == dir
            &&& forall|i: int| dir.len() <= i < dest.len() ==> #[trigger] dest[i] != ".."@
        }),
{
    reveal_strlit("/");
    let dest = components(joined(base, relative));
    let dir = components(base);
    assert(!is_absolute(relative)) by {
        if is_absolute(relative) {
            assert(relative.subrange(0, 1) =~= "/"@);
        }
    }
    components_of_joined(base, relative);
    assert forall|i: int| dir.len() <= i < dest.len() implies #[trigger] dest[i] != ".."@ by {
        let j = choose|j: int| 0 <= j < parts(relative).len() && parts(relative)[j] == dest[i];
        parts_occur(relative, j);
    }
}

/// Whether a path does no harm: it does not start with a separator of either kind, and no two dots
/// follow each other in it.
pub open spec fn harmless(relative: Seq<char>) -> bool {
    &&& relative.len() > 0 ==> relative[0] != '/' && relative[0] != '\\'
    &&& forall|i: int|
        0 <= i && i + 1 < relative.len() ==> !(#[trigger] relative[i] == '.' && relative[i + 1]
            == '.')
}

/// A path is accepted exactly if it does no harm. Its destination is then the path behind the
/// directory, with one separator between them; a path that is refused is named in the error.
pub proof fn harmless_paths_are_accepted(
    base: Seq<char>,
    relative: Seq<char>,
    r: Result<String>,
)
    requires
        is_destination(base, relative, r),
    ensures
        r is Ok <==> harmless(relative),
        r matches Ok(dest) ==> dest@ == (if base.len() == 0 || base[base.len() - 1] == '/' {
            base + relative
        } else {
            base + seq!['/'] + relative
        }),
        r matches Err(e) ==> (e matches SyncorError::Other(t) && t@ == "unsafe path in manifest: "@
            + relative),
{
    safe_by_characters(relative);
    reveal_strlit("/");
    assert("/"@ =~= seq!['/']);
}

/// What is safe, character by character.
proof fn safe_by_characters(relative: Seq<char>)
    ensures
        is_safe(relative) <==> harmless(relative),
{
    reveal_strlit("/");
    reveal_strlit("\\");
    reveal_strlit("..");
    if relative.len() > 0 {
        let first = relative.subrange(0, 1);
        assert(first =~= seq![relative[0]]);
        if relative[0] == '/' {
            assert(first =~= "/"@);
        } else if first == "/"@ {
            assert(first[0] == "/"@[0]);
        }
        if relative[0] == '\\' {
            assert(first =~= "\\"@);
        } else if first == "\\"@ {
            assert(first[0] == "\\"@[0]);
        }
    }
    if is_safe(relative) {
        assert forall|i: int| 0 <= i && i + 1 < relative.len() implies !(#[trigger] relative[i] == '.'
            && relative[i + 1] == '.') by {
            if relative[i] == '.' && relative[i + 1] == '.' {
                assert(relative.subrange(i, i + 2) =~= ".."@);
                assert(occurs_at(relative, ".."@, i));
            }
        }
    }
    if harmless(relative) && occurs_in(relative, ".."@) {
        let i = choose|i: int| occurs_at(relative, ".."@, i);
        let s = relative.subrange(i, i + 2);
        assert(s[0] == relative[i] && s[1] == relative[i + 1]);
        assert(s == ".."@);
        assert(relative[i] == '.' && relative[i + 1] == '.');
    }
}

/// What is safe is what does no harm.
pub proof fn safe_is_harmless()
    ensures
        forall|relative: Seq<char>| #[trigger] is_safe(relative) <==> harmless(relative),
        forall|relative: Seq<char>| #[trigger] harmless(relative) <==> is_safe(relative),
{
    assert forall|relative: Seq<char>| #[trigger] is_safe(relative) <==> harmless(relative) by {
        safe_by_characters(relative);
    }
    assert forall|relative: Seq<char>| #[trigger] harmless(relative) <==> is_safe(relative) by {
        safe_by_characters(relative);
    }
}

/// A restore writes what the manifest says: a file whose path does no harm is written to its
/// place in the directory with the content and the mode of its entry; another path is refused.
pub proof fn restored_files_are_the_listed_ones(
    steps: Seq<RestoreStep>,
    manifest: Seq<ManifestEntry>,
    target: Seq<char>,
    i: int,
)
    requires
        restore_all(steps, manifest, target),
        0 <= i < manifest.len(),
    ensures
        steps.len() == manifest.len(),
        steps[i].hash_hex@ == hex_text(manifest[i].blob_hash@),
        steps[i].mode == manifest[i].mode,
        steps[i].dest is Ok <==> harmless(manifest[i].path@),
        steps[i].dest matches Ok(dest) ==> dest@ == joined(target, manifest[i].path@),
        steps[i].dest matches Err(e) ==> (e matches SyncorError::Other(t) && t@
            == "unsafe path in manifest: "@ + manifest[i].path@),
{
    assert(restores(steps[i], manifest[i], target));
    harmless_paths_are_accepted(target, manifest[i].path@, steps[i].dest);
}

/// A restore removes a file of the scan exactly if no entry of the manifest has its path; it
/// removes it from its place in the directory, and removes nothing else. The files go in the
/// order of the scan.
pub proof fn restore_removes_what_is_not_listed(
    scanned: Seq<ScannedFile>,
    manifest: Seq<ManifestEntry>,
    target: Seq<char>,
    removed: Seq<Result<String>>,
    p: int,
    k: int,
)
    requires
        remove_extras(removed, scanned, manifest, target),
        0 <= p < scanned.len(),
        0 <= k < removed.len(),
    ensures
        (forall|i: int|
            0 <= i < manifest.len() ==> (#[trigger] manifest[i]).path@ != scanned[p].relative_path@)
            && harmless(scanned[p].relative_path@) ==> exists|i: int|
            0 <= i < removed.len() && ((#[trigger] removed[i]) matches Ok(dest) && dest@ == joined(
                target,
                scanned[p].relative_path@,
            )),
        exists|q: int|
            #![trigger scanned[q]]
            {
                let path = scanned[q].relative_path@;
                &&& 0 <= q < scanned.len()
                &&& q >= k
                &&& forall|i: int| 0 <= i < manifest.len() ==> (#[trigger] manifest[i]).path@ != path
                &&& removed[k] is Ok <==> harmless(path)
                &&& removed[k] matches Ok(dest) ==> dest@ == joined(target, path)
            },
{
    let which = extra_among(scanned, manifest, scanned.len());
    extras_are_positions(scanned, manifest, scanned.len());
    let path = scanned[p].relative_path@;
    if (forall|i: int| 0 <= i < manifest.len() ==> (#[trigger] manifest[i]).path@ != path)
        && harmless(path) {
        assert(!lists(manifest, path));
        only_unlisted_files_are_removed(scanned, manifest, scanned.len(), p);
        let i = choose|i: int| 0 <= i < which.len() && which[i] == p;
        assert(is_destination(target, path, removed[i]));
        safe_by_characters(path);
        assert(removed[i] is Ok);
    }
    let q = which[k];
    assert(0 <= q < scanned.len());
    extras_ascend(scanned, manifest, scanned.len());
    only_unlisted_files_are_removed(scanned, manifest, scanned.len(), q);
    assert(which.contains(q));
    assert(is_destination(target, scanned[q].relative_path@, removed[k]));
    safe_by_characters(scanned[q].relative_path@);
    assert forall|i: int| 0 <= i < manifest.len() implies (#[trigger] manifest[i]).path@
        != scanned[q].relative_path@ by {
        if manifest[i].path@ == scanned[q].relative_path@ {
            assert(lists(manifest, scanned[q].relative_path@));
        }
    }
}

/// The positions of extra files ascend.
proof fn extras_ascend(scanned: Seq<ScannedFile>, manifest: Seq<ManifestEntry>, n: nat)
    requires
        n <= scanned.len(),
    ensures
        extra_among(scanned, manifest, n).len() <= n,
        forall|i: int|
            0 <= i < extra_among(scanned, manifest, n).len() ==> #[trigger] extra_among(
                scanned,
                manifest,
                n,
            )[i] >= i,
    decreases n,
{
    if n > 0 {
        extras_ascend(scanned, manifest, (n - 1) as nat);
        let before = extra_among(scanned, manifest, (n - 1) as nat);
        let now = extra_among(scanned, manifest, n);
        assert forall|i: int| 0 <= i < now.len() implies #[trigger] now[i] >= i by {
            if i < before.len() {
                assert(now[i] == before[i]);
            }
        }
    }
}

/// A directory is removed exactly if no file lies below it, at whatever depth: none whose path has
/// the directory's path in front of one of its separators.
pub proof fn only_directories_without_files_are_removed(
    removed: Seq<String>,
    dirs: Seq<String>,
    files: Seq<String>,
    d: Seq<char>,
)
    requires
        are_empty_dirs(removed, dirs, files),
    ensures
        (exists|i: int| 0 <= i < removed.len() && (#[trigger] removed[i])@ == d) <==> {
            &&& exists|i: int| 0 <= i < dirs.len() && (#[trigger] dirs[i])@ == d
            &&& forall|f: int, k: int|
                0 <= f < files.len() && 0 <= k < files[f]@.len() && #[trigger] files[f]@[k] == '/'
                    ==> files[f]@.subrange(0, k) != d
        },
{
    let all = texts(dirs);
    let gone = texts(removed);
    if exists|i: int| 0 <= i < removed.len() && (#[trigger] removed[i])@ == d {
        let i = choose|i: int| 0 <= i < removed.len() && (#[trigger] removed[i])@ == d;
        assert(gone[i] == d);
        assert(gone.contains(d));
        let j = choose|j: int| 0 <= j < all.len() && all[j] == d;
        assert(dirs[j]@ == d);
        assert forall|f: int, k: int|
            0 <= f < files.len() && 0 <= k < files[f]@.len() && #[trigger] files[f]@[k]
                == '/' implies files[f]@.subrange(0, k) != d by {
            below_by_separator(files[f]@, d);
        }
    }
    if (exists|i: int| 0 <= i < dirs.len() && (#[trigger] dirs[i])@ == d) && forall|f: int, k: int|
        0 <= f < files.len() && 0 <= k < files[f]@.len() && #[trigger] files[f]@[k] == '/'
            ==> files[f]@.subrange(0, k) != d {
        let i = choose|i: int| 0 <= i < dirs.len() && (#[trigger] dirs[i])@ == d;
        assert(all[i] == d);
        if holds_a_file(d, files) {
            let f = choose|f: int| 0 <= f < files.len() && lies_below((#[trigger] files[f])@, d);
            below_by_separator(files[f]@, d);
            let k = choose|k: int|
                0 <= k < files[f]@.len() && #[trigger] files[f]@[k] == '/' && files[f]@.subrange(
                    0,
                    k,
                ) == d;
            assert(files[f]@[k] == '/');
        }
        assert(gone.contains(d));
        let j = choose|j: int| 0 <= j < gone.len() && gone[j] == d;
        assert(removed[j]@ == d);
    }
}

} // verus!
