//! Three-point comparison of manifests.

use crate::text::{ascending_texts_determined, before};
use crate::text_map::{lists_keys, TextMap};
use vstd::prelude::*;

verus! {

/// A map from file path to the content hash of the file (16 bytes).
pub type ManifestMap = TextMap<[u8; 16]>;

/// A conflict between base, local, and remote versions of a file.
#[derive(Debug, Clone, PartialEq)]
pub struct Conflict {
    pub path: String,
    pub base_hash: Option<[u8; 16]>,
    pub local_hash: Option<[u8; 16]>,
    pub remote_hash: Option<[u8; 16]>,
}

/// How a conflict was resolved.
#[derive(Debug, Clone, PartialEq)]
pub enum Resolution {
    KeepLocal,
    KeepRemote,
    Merged(Vec<u8>),
    Skip,
}

/// An action to take for a given file after three-point comparison.
#[derive(Debug, Clone, PartialEq)]
pub enum FileAction {
    /// Pull the remote version of this file locally.
    ApplyRemote { path: String, remote_hash: [u8; 16] },
    /// Delete the local copy (remote deleted it, local was unchanged).
    DeleteLocal { path: String },
    /// Both sides changed in incompatible ways; needs manual resolution.
    Conflict(Conflict),
}

/// Trait for resolving conflicts programmatically.
pub trait ConflictResolver {
    fn resolve(&self, conflict: &Conflict) -> Resolution;
}

/// Always keeps the local version when a conflict is detected.
pub struct KeepLocalResolver;

impl ConflictResolver for KeepLocalResolver {
    fn resolve(&self, _conflict: &Conflict) -> (r: Resolution)
        ensures
            r == Resolution::KeepLocal,
    {
        Resolution::KeepLocal
    }
}

// ---------------------------------------------------------------------------
// Model
// ---------------------------------------------------------------------------

/// What a file action says, over mathematical values.
#[allow(inconsistent_fields)]
pub ghost enum Verdict {
    ApplyRemote { path: Seq<char>, remote_hash: Seq<u8> },
    DeleteLocal { path: Seq<char> },
    Conflict {
        path: Seq<char>,
        base_hash: Option<Seq<u8>>,
        local_hash: Option<Seq<u8>>,
        remote_hash: Option<Seq<u8>>,
    },
}

/// A hash as a sequence of bytes.
pub open spec fn hash_view(h: Option<[u8; 16]>) -> Option<Seq<u8>> {
    match h {
        Some(h) => Some(h@),
        None => None,
    }
}

impl View for FileAction {
    type V = Verdict;

    open spec fn view(&self) -> Verdict {
        match *self {
            FileAction::ApplyRemote { path, remote_hash } => Verdict::ApplyRemote {
                path: path@,
                remote_hash: remote_hash@,
            },
            FileAction::DeleteLocal { path } => Verdict::DeleteLocal { path: path@ },
            FileAction::Conflict(c) => Verdict::Conflict {
                path: c.path@,
                base_hash: hash_view(c.base_hash),
                local_hash: hash_view(c.local_hash),
                remote_hash: hash_view(c.remote_hash),
            },
        }
    }
}

impl Verdict {
    /// The path that the verdict is about.
    pub open spec fn path(self) -> Seq<char> {
        match self {
            Verdict::ApplyRemote { path, .. } => path,
            Verdict::DeleteLocal { path } => path,
            Verdict::Conflict { path, .. } => path,
        }
    }
}

/// The hash that a manifest gives a path.
pub open spec fn hash_at(m: Map<Seq<char>, [u8; 16]>, path: Seq<char>) -> Option<Seq<u8>> {
    if m.dom().contains(path) {
        Some(m[path]@)
    } else {
        None
    }
}

/// The three-point rule for one path: nothing is done where the remote side did not change or
/// where both sides agree; a remote change is taken over where the local side did not change;
/// everything else is a conflict.
pub open spec fn verdict(
    path: Seq<char>,
    base: Option<Seq<u8>>,
    local: Option<Seq<u8>>,
    remote: Option<Seq<u8>>,
) -> Option<Verdict> {
    if remote == base || local == remote {
        None
    } else if local == base {
        match remote {
            Some(h) => Some(Verdict::ApplyRemote { path, remote_hash: h }),
            None => Some(Verdict::DeleteLocal { path }),
        }
    } else {
        Some(
            Verdict::Conflict {
                path,
                base_hash: base,
                local_hash: local,
                remote_hash: remote,
            },
        )
    }
}

/// The verdict on `path` in three manifests.
pub open spec fn verdict_on(
    base: Map<Seq<char>, [u8; 16]>,
    local: Map<Seq<char>, [u8; 16]>,
    remote: Map<Seq<char>, [u8; 16]>,
    path: Seq<char>,
) -> Option<Verdict> {
    verdict(path, hash_at(base, path), hash_at(local, path), hash_at(remote, path))
}

/// Whether `actions` are the verdicts on three manifests: one for each path that needs one, in
/// the order of the paths.
pub open spec fn are_verdicts(
    actions: Seq<FileAction>,
    base: Map<Seq<char>, [u8; 16]>,
    local: Map<Seq<char>, [u8; 16]>,
    remote: Map<Seq<char>, [u8; 16]>,
) -> bool {
    &&& forall|i: int, j: int|
        0 <= i < j < actions.len() ==> before(
            (#[trigger] actions[i])@.path(),
            (#[trigger] actions[j])@.path(),
        )
    &&& forall|i: int|
        0 <= i < actions.len() ==> verdict_on(base, local, remote, (#[trigger] actions[i])@.path())
            == Some(actions[i]@)
    &&& forall|path: Seq<char>|
        (#[trigger] verdict_on(base, local, remote, path)) is Some ==> acts_on(actions, path)
}

/// Whether one of `actions` is about `path`.
pub open spec fn acts_on(actions: Seq<FileAction>, path: Seq<char>) -> bool {
    exists|i: int| 0 <= i < actions.len() && (#[trigger] actions[i])@.path() == path
}

// ---------------------------------------------------------------------------
// Comparison
// ---------------------------------------------------------------------------

/// Whether two hashes hold the same bytes.
pub fn same_hash(a: &[u8; 16], b: &[u8; 16]) -> (r: bool)
    ensures
        r == (a@ == b@),
{
    let mut i: usize = 0;
    while i < 16
        invariant
            i <= 16,
            forall|j: int| 0 <= j < i ==> a@[j] == b@[j],
        decreases 16 - i,
    {
        if a[i] != b[i] {
            assert(a@[i as int] != b@[i as int]);
            return false;
        }
        i = i + 1;
    }
    assert(a@ =~= b@);
    true
}

/// Whether two optional hashes are the same.
fn same_version(a: Option<&[u8; 16]>, b: Option<&[u8; 16]>) -> (r: bool)
    ensures
        r == (match (a, b) {
            (Some(x), Some(y)) => x@ == y@,
            (None, None) => true,
            _ => false,
        }),
{
    match (a, b) {
        (Some(x), Some(y)) => same_hash(x, y),
        (None, None) => true,
        _ => false,
    }
}

/// A copy of an optional hash.
fn version(h: Option<&[u8; 16]>) -> (r: Option<[u8; 16]>)
    ensures
        r == (match h {
            Some(x) => Some(*x),
            None => None,
        }),
{
    match h {
        Some(x) => Some(*x),
        None => None,
    }
}

/// Adds the paths of `m` to `all`.
fn add_paths(all: &mut TextMap<()>, m: &ManifestMap)
    ensures
        final(all)@.dom() == old(all)@.dom().union(m@.dom()),
{
    let n: usize = m.len();
    let mut i: usize = 0;
    while i < n
        invariant
            i <= n,
            n == m.keys().len(),
            lists_keys(m.keys(), m@),
            forall|k: Seq<char>| #[trigger]
                all@.dom().contains(k) <==> old(all)@.dom().contains(k)
                    || m.keys().subrange(0, i as int).contains(k),
        decreases n - i,
    {
        let ghost was = all@;
        all.insert(m.key(i).clone(), ());
        proof {
            let p = m.keys().subrange(0, i as int);
            let q = m.keys().subrange(0, i + 1);
            assert(q =~= p.push(m.keys()[i as int]));
            assert forall|k: Seq<char>| #[trigger]
                all@.dom().contains(k) <==> old(all)@.dom().contains(k) || q.contains(k) by {
                assert(all@.dom().contains(k) <==> was.dom().contains(k) || k == m.keys()[i as int]);
                if p.contains(k) {
                    let j = choose|j: int| 0 <= j < p.len() && p[j] == k;
                    assert(q[j] == k);
                }
                if k == m.keys()[i as int] {
                    assert(q[i as int] == k);
                }
                if q.contains(k) {
                    let j = choose|j: int| 0 <= j < q.len() && q[j] == k;
                    if j < i {
                        assert(p[j] == k);
                    }
                }
            }
        }
        i = i + 1;
    }
    proof {
        assert(m.keys().subrange(0, n as int) =~= m.keys());
        assert(all@.dom() =~= old(all)@.dom().union(m@.dom())) by {
            assert forall|k: Seq<char>| m.keys().contains(k) implies m@.dom().contains(k) by {
                let j = choose|j: int| 0 <= j < m.keys().len() && m.keys()[j] == k;
                assert(m@.dom().contains(m.keys()[j]));
            }
        }
    }
}

/// Applies the three-point rule to one path.
fn decide(
    path: &String,
    base: Option<&[u8; 16]>,
    local: Option<&[u8; 16]>,
    remote: Option<&[u8; 16]>,
) -> (r: Option<FileAction>)
    ensures
        (match r {
            Some(a) => Some(a@),
            None => None,
        }) == verdict(
            path@,
            hash_view(opt_copy(base)),
            hash_view(opt_copy(local)),
            hash_view(opt_copy(remote)),
        ),
{
    if same_version(remote, base) || same_version(local, remote) {
        None
    } else if same_version(local, base) {
        match remote {
            Some(h) => Some(FileAction::ApplyRemote { path: path.clone(), remote_hash: *h }),
            None => Some(FileAction::DeleteLocal { path: path.clone() }),
        }
    } else {
        Some(
            FileAction::Conflict(
                Conflict {
                    path: path.clone(),
                    base_hash: version(base),
                    local_hash: version(local),
                    remote_hash: version(remote),
                },
            ),
        )
    }
}

/// The hash behind an optional reference.
pub open spec fn opt_copy(h: Option<&[u8; 16]>) -> Option<[u8; 16]> {
    match h {
        Some(x) => Some(*x),
        None => None,
    }
}

/// Three-point merge: compare base, local, and remote manifests and return the actions that
/// need to be taken, in the order of their paths.
///
/// | base | local | remote | action                                   |
/// |------|-------|--------|------------------------------------------|
/// | A    | A     | A      | none                                     |
/// | A    | A     | B      | `ApplyRemote`                            |
/// | A    | B     | A      | none (keep local)                        |
/// | A    | B     | B      | none (both made the same change)         |
/// | A    | B     | C      | `Conflict`                               |
/// | -    | B     | -      | none (local added)                       |
/// | -    | -     | B      | `ApplyRemote`                            |
/// | -    | B     | B      | none (both added the same)               |
/// | -    | B     | C      | `Conflict` (both added differently)      |
/// | A    | -     | A      | none (local deleted)                     |
/// | A    | A     | -      | `DeleteLocal`                            |
/// | A    | -     | -      | none (both deleted)                      |
/// | A    | B     | -      | `Conflict` (local changed, remote gone)  |
/// | A    | -     | B      | `Conflict` (local gone, remote changed)  |
pub fn detect_conflicts(base: &ManifestMap, local: &ManifestMap, remote: &ManifestMap) -> (r: Vec<
    FileAction,
>)
    ensures
        are_verdicts(r@, base@, local@, remote@),
{
    let mut all: TextMap<()> = TextMap::new();
    add_paths(&mut all, base);
    add_paths(&mut all, local);
    add_paths(&mut all, remote);
    let mut actions: Vec<FileAction> = Vec::new();
    let n: usize = all.len();
    let mut i: usize = 0;
    while i < n
        invariant
            i <= n,
            n == all.keys().len(),
            lists_keys(all.keys(), all@),
            forall|a: int, b: int|
                0 <= a < b < actions@.len() ==> before(
                    (#[trigger] actions@[a])@.path(),
                    (#[trigger] actions@[b])@.path(),
                ),
            forall|a: int|
                0 <= a < actions@.len() ==> verdict_on(
                    base@,
                    local@,
                    remote@,
                    (#[trigger] actions@[a])@.path(),
                ) == Some(actions@[a]@),
            forall|a: int, b: int|
                0 <= a < actions@.len() && i <= b < n ==> before(
                    (#[trigger] actions@[a])@.path(),
                    #[trigger] all.keys()[b],
                ),
            forall|b: int|
                0 <= b < i && verdict_on(base@, local@, remote@, #[trigger] all.keys()[b]) is Some
                    ==> acts_on(actions@, all.keys()[b]),
        decreases n - i,
    {
        let path = all.key(i);
        let action = decide(
            path,
            base.get(path.as_str()),
            local.get(path.as_str()),
            remote.get(path.as_str()),
        );
        let ghost was = actions@;
        match action {
            Some(a) => {
                actions.push(a);
                assert(actions@[was.len() as int]@.path() == path@);
            },
            None => {},
        }
        proof {
            assert forall|b: int|
                0 <= b < i + 1 && verdict_on(base@, local@, remote@, #[trigger] all.keys()[b])
                    is Some implies acts_on(actions@, all.keys()[b]) by {
                if b < i {
                    let a = choose|a: int|
                        0 <= a < was.len() && (#[trigger] was[a])@.path() == all.keys()[b];
                    assert(actions@[a]@.path() == all.keys()[b]);
                } else {
                    assert(actions@[was.len() as int]@.path() == all.keys()[b]);
                }
            }
        }
        i = i + 1;
    }
    proof {
        assert forall|path: Seq<char>|
            (#[trigger] verdict_on(base@, local@, remote@, path)) is Some implies acts_on(
            actions@,
            path,
        ) by {
            assert(base@.dom().contains(path) || local@.dom().contains(path)
                || remote@.dom().contains(path));
            assert(all@.dom().contains(path));
            let b = choose|b: int| 0 <= b < all.keys().len() && all.keys()[b] == path;
            assert(verdict_on(base@, local@, remote@, all.keys()[b]) is Some);
        }
    }
    actions
}

// ---------------------------------------------------------------------------
// Laws
// ---------------------------------------------------------------------------

/// The hash that a path has locally once a verdict on it has been carried out. A conflict leaves
/// the local file as it is.
pub open spec fn carried_out(v: Option<Verdict>, local: Option<Seq<u8>>) -> Option<Seq<u8>> {
    match v {
        Some(Verdict::ApplyRemote { remote_hash, .. }) => Some(remote_hash),
        Some(Verdict::DeleteLocal { .. }) => None,
        _ => local,
    }
}

/// A remote side that did not change since the last sync asks for nothing, whatever happened
/// locally.
pub proof fn unchanged_remote_asks_for_nothing(
    actions: Seq<FileAction>,
    base: Map<Seq<char>, [u8; 16]>,
    local: Map<Seq<char>, [u8; 16]>,
)
    requires
        are_verdicts(actions, base, local, base),
    ensures
        actions.len() == 0,
{
    if actions.len() > 0 {
        let p = actions[0]@.path();
        assert(verdict_on(base, local, base, p) == Some(actions[0]@));
    }
}

/// Two sides with the same content have nothing to do, whatever the base was.
pub proof fn equal_sides_ask_for_nothing(
    actions: Seq<FileAction>,
    base: Map<Seq<char>, [u8; 16]>,
    both: Map<Seq<char>, [u8; 16]>,
)
    requires
        are_verdicts(actions, base, both, both),
    ensures
        actions.len() == 0,
{
    if actions.len() > 0 {
        let p = actions[0]@.path();
        assert(verdict_on(base, both, both, p) == Some(actions[0]@));
    }
}

/// A local file is overwritten or deleted only if it is as it was at the last sync: local edits
/// are never lost.
pub proof fn local_edits_are_kept(
    path: Seq<char>,
    base: Option<Seq<u8>>,
    local: Option<Seq<u8>>,
    remote: Option<Seq<u8>>,
)
    ensures
        local != base ==> carried_out(verdict(path, base, local, remote), local) == local,
{
}

/// Without a conflict the outcome is the side that changed: the remote version where the remote
/// side changed, the local version elsewhere.
pub proof fn merge_takes_the_changed_side(
    path: Seq<char>,
    base: Option<Seq<u8>>,
    local: Option<Seq<u8>>,
    remote: Option<Seq<u8>>,
)
    requires
        !(verdict(path, base, local, remote) matches Some(Verdict::Conflict { .. })),
    ensures
        carried_out(verdict(path, base, local, remote), local) == (if remote == base {
            local
        } else {
            remote
        }),
{
}

/// A directory without local edits becomes what the remote side is.
pub proof fn unedited_directory_becomes_remote(
    path: Seq<char>,
    base: Option<Seq<u8>>,
    remote: Option<Seq<u8>>,
)
    ensures
        carried_out(verdict(path, base, base, remote), base) == remote,
{
}

/// Once a path has been synced without conflict, comparing it again from the new base finds
/// nothing to do.
pub proof fn synced_path_stays_quiet(
    path: Seq<char>,
    base: Option<Seq<u8>>,
    local: Option<Seq<u8>>,
    remote: Option<Seq<u8>>,
)
    ensures
        verdict(path, remote, carried_out(verdict(path, base, local, remote), local), remote)
            is None,
{
}

/// A conflict does not depend on which side one stands on.
pub proof fn conflicts_are_mutual(
    path: Seq<char>,
    base: Option<Seq<u8>>,
    local: Option<Seq<u8>>,
    remote: Option<Seq<u8>>,
)
    ensures
        (verdict(path, base, local, remote) matches Some(Verdict::Conflict { .. })) <==> (verdict(
            path,
            base,
            remote,
            local,
        ) matches Some(Verdict::Conflict { .. })),
{
}

/// Three manifests leave no choice in what has to be done, nor in the order.
pub proof fn verdicts_are_determined(
    a: Seq<FileAction>,
    b: Seq<FileAction>,
    base: Map<Seq<char>, [u8; 16]>,
    local: Map<Seq<char>, [u8; 16]>,
    remote: Map<Seq<char>, [u8; 16]>,
)
    requires
        are_verdicts(a, base, local, remote),
        are_verdicts(b, base, local, remote),
    ensures
        a.len() == b.len(),
        forall|i: int| 0 <= i < a.len() ==> (#[trigger] a[i])@ == b[i]@,
{
    let p = a.map_values(|x: FileAction| x@.path());
    let q = b.map_values(|x: FileAction| x@.path());
    assert forall|x: Seq<char>| #[trigger] p.contains(x) <==> q.contains(x) by {
        if p.contains(x) {
            let i = choose|i: int| 0 <= i < p.len() && p[i] == x;
            assert(verdict_on(base, local, remote, a[i]@.path()) is Some);
            assert(acts_on(b, x));
            let j = choose|j: int| 0 <= j < b.len() && (#[trigger] b[j])@.path() == x;
            assert(q[j] == x);
        }
        if q.contains(x) {
            let i = choose|i: int| 0 <= i < q.len() && q[i] == x;
            assert(verdict_on(base, local, remote, b[i]@.path()) is Some);
            assert(acts_on(a, x));
            let j = choose|j: int| 0 <= j < a.len() && (#[trigger] a[j])@.path() == x;
            assert(p[j] == x);
        }
    }
    ascending_texts_determined(p, q);
    assert forall|i: int| 0 <= i < a.len() implies (#[trigger] a[i])@ == b[i]@ by {
        assert(p[i] == q[i]);
    }
}

/// What has to be done about a path, by its content on the three sides. Nothing, where the remote
/// side left it alone or both sides agree. Where only the remote side changed it, its content is
/// taken over, or the file is deleted if the remote side has it no more. Where both changed it and
/// differ, it is a conflict, which names all three contents.
pub proof fn actions_follow_the_three_sides(
    actions: Seq<FileAction>,
    base: Map<Seq<char>, [u8; 16]>,
    local: Map<Seq<char>, [u8; 16]>,
    remote: Map<Seq<char>, [u8; 16]>,
    i: int,
)
    requires
        are_verdicts(actions, base, local, remote),
        0 <= i < actions.len(),
    ensures
        match actions[i] {
            FileAction::ApplyRemote { path, remote_hash } => {
                &&& remote.dom().contains(path@) && remote[path@]@ == remote_hash@
                &&& local.dom().contains(path@) == base.dom().contains(path@)
                &&& local.dom().contains(path@) ==> local[path@]@ == base[path@]@ && local[path@]@
                    != remote_hash@
            },
            FileAction::DeleteLocal { path } => {
                &&& !remote.dom().contains(path@)
                &&& local.dom().contains(path@)
                &&& base.dom().contains(path@)
                &&& local[path@]@ == base[path@]@
            },
            FileAction::Conflict(c) => {
                let p = c.path@;
                &&& c.base_hash is Some <==> base.dom().contains(p)
                &&& c.local_hash is Some <==> local.dom().contains(p)
                &&& c.remote_hash is Some <==> remote.dom().contains(p)
                &&& c.base_hash matches Some(h) ==> h@ == base[p]@
                &&& c.local_hash matches Some(h) ==> h@ == local[p]@
                &&& c.remote_hash matches Some(h) ==> h@ == remote[p]@
                &&& hash_view(c.local_hash) != hash_view(c.remote_hash)
                &&& hash_view(c.local_hash) != hash_view(c.base_hash)
                &&& hash_view(c.remote_hash) != hash_view(c.base_hash)
            },
        },
{
    let v = actions[i]@;
    assert(verdict_on(base, local, remote, v.path()) == Some(v));
}

/// Every path that the remote side changed, and that is not the same on both sides, is acted upon,
/// and once only; the actions are in the order of the paths.
pub proof fn every_remote_change_is_acted_upon(
    actions: Seq<FileAction>,
    base: Map<Seq<char>, [u8; 16]>,
    local: Map<Seq<char>, [u8; 16]>,
    remote: Map<Seq<char>, [u8; 16]>,
    path: Seq<char>,
)
    requires
        are_verdicts(actions, base, local, remote),
        remote.dom().contains(path) != base.dom().contains(path) || (remote.dom().contains(path)
            && remote[path]@ != base[path]@),
        remote.dom().contains(path) != local.dom().contains(path) || (remote.dom().contains(path)
            && remote[path]@ != local[path]@),
    ensures
        exists|i: int| 0 <= i < actions.len() && #[trigger] is_about(actions[i], path),
        forall|i: int, j: int|
            0 <= i < j < actions.len() ==> !(#[trigger] is_about(actions[i], path)
                && #[trigger] is_about(actions[j], path)),
{
    assert(verdict_on(base, local, remote, path) is Some);
    assert(acts_on(actions, path));
    let i = choose|i: int| 0 <= i < actions.len() && (#[trigger] actions[i])@.path() == path;
    assert(is_about(actions[i], path));
    assert forall|i: int, j: int| 0 <= i < j < actions.len() implies !(#[trigger] is_about(
        actions[i],
        path,
    ) && #[trigger] is_about(actions[j], path)) by {
        assert(before(actions[i]@.path(), actions[j]@.path()));
        crate::text::before_irreflexive(path);
    }
}

/// Whether an action is about a path.
pub open spec fn is_about(a: FileAction, p: Seq<char>) -> bool {
    match a {
        FileAction::ApplyRemote { path, .. } => path@ == p,
        FileAction::DeleteLocal { path } => path@ == p,
        FileAction::Conflict(c) => c.path@ == p,
    }
}

} // verus!
