//! The list of links that a repository carries (`syncor.toml`).

use crate::clock::{is_utc, now_rfc3339};
use crate::text::same_text;
use crate::transport::RemoteLinkInfo;
use vstd::prelude::*;

verus! {

/// One link of a repository.
#[derive(Debug)]
pub struct RepoLink {
    pub name: String,
    pub created_at: Option<String>,
}

/// The links of a repository.
#[derive(Debug)]
pub struct RepoManifest {
    pub links: Vec<RepoLink>,
}

impl Default for RepoManifest {
    fn default() -> (r: Self)
        ensures
            r.links@ == Seq::<RepoLink>::empty(),
    {
        RepoManifest { links: Vec::new() }
    }
}

/// Whether a list of links has `name`.
pub open spec fn has_link(links: Seq<RepoLink>, name: Seq<char>) -> bool {
    exists|i: int| 0 <= i < links.len() && (#[trigger] links[i]).name@ == name
}

/// Whether `now` is `was` with `name` in it: unchanged where it was there, and otherwise with one
/// more link at the end, created at a given moment.
pub open spec fn is_with_link(
    was: Seq<RepoLink>,
    now: Seq<RepoLink>,
    name: Seq<char>,
    at: String,
) -> bool {
    if has_link(was, name) {
        now == was
    } else {
        &&& now.len() == was.len() + 1
        &&& now.drop_last() == was
        &&& now.last().name@ == name
        &&& now.last().created_at == Some(at)
    }
}

impl RepoManifest {
    /// Whether the repository has a link called `name`.
    pub fn has(&self, name: &str) -> (r: bool)
        ensures
            r == has_link(self.links@, name@),
    {
        let mut i: usize = 0;
        while i < self.links.len()
            invariant
                i <= self.links@.len(),
                forall|j: int| 0 <= j < i ==> (#[trigger] self.links@[j]).name@ != name@,
            decreases self.links@.len() - i,
        {
            if same_text(self.links[i].name.as_str(), name) {
                return true;
            }
            i = i + 1;
        }
        false
    }

    /// Makes sure that the link `name` is listed; says whether it had to be added.
    pub fn ensure_at(&mut self, name: &str, at: String) -> (r: bool)
        ensures
            r == !has_link(old(self).links@, name@),
            is_with_link(old(self).links@, final(self).links@, name@, at),
    {
        if self.has(name) {
            return false;
        }
        self.links.push(RepoLink { name: name.to_owned(), created_at: Some(at) });
        assert(self.links@.drop_last() =~= old(self).links@);
        true
    }

    /// Makes sure that the link `name` is listed, as created now; says whether it had to be
    /// added, so that the list has to be written back.
    pub fn ensure(&mut self, name: &str) -> (r: bool)
        ensures
            r == !has_link(old(self).links@, name@),
            exists|at: String|
                is_utc(at@) && #[trigger] is_with_link(
                    old(self).links@,
                    final(self).links@,
                    name@,
                    at,
                ),
    {
        let at = now_rfc3339();
        self.ensure_at(name, at)
    }

    /// The links as a remote repository offers them. A link without a date has an empty one.
    pub fn remote_links(&self) -> (r: Vec<RemoteLinkInfo>)
        ensures
            r@.len() == self.links@.len(),
            forall|i: int|
                0 <= i < r@.len() ==> (#[trigger] r@[i]).name@ == self.links@[i].name@
                    && r@[i].created_at@ == (match self.links@[i].created_at {
                    Some(t) => t@,
                    None => Seq::<char>::empty(),
                }),
    {
        let mut r: Vec<RemoteLinkInfo> = Vec::new();
        let mut i: usize = 0;
        while i < self.links.len()
            invariant
                i <= self.links@.len(),
                r@.len() == i,
                forall|j: int|
                    0 <= j < i ==> (#[trigger] r@[j]).name@ == self.links@[j].name@
                        && r@[j].created_at@ == (match self.links@[j].created_at {
                        Some(t) => t@,
                        None => Seq::<char>::empty(),
                    }),
            decreases self.links@.len() - i,
        {
            let link = &self.links[i];
            r.push(
                RemoteLinkInfo {
                    name: link.name.clone(),
                    created_at: match &link.created_at {
                        Some(t) => t.clone(),
                        None => String::new(),
                    },
                },
            );
            i = i + 1;
        }
        r
    }
}

// ---------------------------------------------------------------------------
// Laws
// ---------------------------------------------------------------------------

/// Listing a link twice is listing it once, and no listed link is ever lost.
pub proof fn listing_is_idempotent(
    was: Seq<RepoLink>,
    now: Seq<RepoLink>,
    again: Seq<RepoLink>,
    name: Seq<char>,
    at: String,
    later: String,
)
    requires
        is_with_link(was, now, name, at),
        is_with_link(now, again, name, later),
    ensures
        has_link(now, name),
        again == now,
        forall|other: Seq<char>| #[trigger] has_link(was, other) ==> has_link(now, other),
{
    assert(has_link(now, name)) by {
        if !has_link(was, name) {
            assert(now[now.len() - 1].name@ == name);
        }
    }
    assert forall|other: Seq<char>| #[trigger] has_link(was, other) implies has_link(now, other) by {
        let i = choose|i: int| 0 <= i < was.len() && (#[trigger] was[i]).name@ == other;
        if !has_link(was, name) {
            assert(now.drop_last()[i] == now[i]);
        }
        assert(now[i].name@ == other);
    }
}

/// A link is added to the list exactly if none of its entries has the name: at the end, with the
/// moment of its creation. The entries that were there stay as they are, where they are.
pub proof fn links_are_listed_once(
    was: Seq<RepoLink>,
    now: Seq<RepoLink>,
    name: Seq<char>,
    at: String,
)
    requires
        is_with_link(was, now, name, at),
    ensures
        forall|i: int| 0 <= i < was.len() ==> #[trigger] now[i] == was[i],
        (exists|i: int| 0 <= i < was.len() && (#[trigger] was[i]).name@ == name) ==> now.len()
            == was.len(),
        (forall|i: int| 0 <= i < was.len() ==> (#[trigger] was[i]).name@ != name) ==> now.len()
            == was.len() + 1 && now[was.len() as int].name@ == name && now[was.len() as int].created_at
            == Some(at),
{
    if !has_link(was, name) {
        assert forall|i: int| 0 <= i < was.len() implies #[trigger] now[i] == was[i] by {
            assert(now.drop_last()[i] == was[i]);
        }
    }
}

} // verus!
