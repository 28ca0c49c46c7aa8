//! Links: which directory is synced with which repository.

use crate::digest::{
    content_hash, hex_text, hex_text_digits, hex_text_is_injective, hex_text_len, is_hex_digit,
};
use crate::text::{join3, texts};
use chkpt_core::store::blob::{bytes_to_hex, hash_content_bytes};
use vstd::prelude::*;
use vstd::utf8::{encode_utf8, encode_utf8_decode_utf8};

verus! {

/// A stable, deterministic identifier for a link derived from (repo, name).
#[derive(Debug, PartialEq, Eq, Hash)]
pub struct LinkId(String);

impl View for LinkId {
    type V = Seq<char>;

    closed spec fn view(&self) -> Seq<char> {
        self.0@
    }
}

impl Clone for LinkId {
    fn clone(&self) -> (r: Self)
        ensures
            r == *self,
    {
        LinkId(self.0.clone())
    }
}

/// What the identifier of (repo, name) is a hash of.
pub open spec fn id_input(repo: Seq<char>, name: Seq<char>) -> Seq<char> {
    repo + "\0"@ + name
}

/// The identifier of (repo, name): the hexadecimal hash of both, a NUL between them.
pub open spec fn id_text(repo: Seq<char>, name: Seq<char>) -> Seq<char> {
    hex_text(content_hash(encode_utf8(id_input(repo, name))))
}

impl LinkId {
    /// Create a deterministic ID from repo and name components.
    pub fn from_parts(repo: &str, name: &str) -> (r: Self)
        ensures
            r@ == id_text(repo@, name@),
            r@.len() == 32,
            forall|i: int| 0 <= i < r@.len() ==> is_hex_digit(#[trigger] r@[i]),
    {
        let input = join3(repo, "\0", name);
        let hash = hash_content_bytes(input.as_str().as_bytes());
        proof {
            hex_text_len(hash@);
            hex_text_digits(hash@);
        }
        LinkId(bytes_to_hex(&hash))
    }

    /// An identifier read from the registry file.
    pub fn from_text(text: String) -> (r: Self)
        ensures
            r@ == text@,
    {
        LinkId(text)
    }

    /// The identifier as text.
    pub fn as_str(&self) -> (r: &str)
        ensures
            r@ == self@,
    {
        self.0.as_str()
    }
}

/// How the link syncs changes between the local directory and the repo.
#[derive(Debug, Clone, Copy, PartialEq, Eq, Structural)]
pub enum LinkMode {
    /// Local changes are pushed to the repo.
    Push,
    /// Repo changes are pulled to the local directory.
    Pull,
}

/// All persistent metadata about a single link.
#[derive(Debug)]
pub struct LinkInfo {
    pub id: LinkId,
    pub name: String,
    pub repo: String,
    pub local_dirs: Vec<String>,
    pub mode: LinkMode,
    pub poll_interval_secs: Option<u64>,
}

/// A copy of a vector of strings.
pub fn copy_texts(v: &Vec<String>) -> (r: Vec<String>)
    ensures
        r@ == v@,
{
    let mut r: Vec<String> = Vec::new();
    let mut i: usize = 0;
    while i < v.len()
        invariant
            i <= v@.len(),
            r@ == v@.subrange(0, i as int),
        decreases v@.len() - i,
    {
        r.push(v[i].clone());
        i = i + 1;
        assert(r@ =~= v@.subrange(0, i as int));
    }
    assert(v@.subrange(0, v@.len() as int) =~= v@);
    r
}

impl LinkInfo {
    /// Whether two descriptions say the same.
    pub open spec fn same(&self, other: &LinkInfo) -> bool {
        &&& self.id@ == other.id@
        &&& self.name@ == other.name@
        &&& self.repo@ == other.repo@
        &&& texts(self.local_dirs@) == texts(other.local_dirs@)
        &&& self.mode == other.mode
        &&& self.poll_interval_secs == other.poll_interval_secs
    }

    /// The first mount.
    pub fn primary_dir(&self) -> (r: &String)
        requires
            self.local_dirs@.len() > 0,
        ensures
            *r == self.local_dirs@[0],
    {
        &self.local_dirs[0]
    }
}

impl Clone for LinkInfo {
    fn clone(&self) -> (r: Self)
        ensures
            r.same(self),
    {
        LinkInfo {
            id: self.id.clone(),
            name: self.name.clone(),
            repo: self.repo.clone(),
            local_dirs: copy_texts(&self.local_dirs),
            mode: self.mode,
            poll_interval_secs: self.poll_interval_secs,
        }
    }
}

/// A link as it stands in the registry file, where older entries name one `local_dir` instead of
/// `local_dirs`.
#[derive(Debug)]
pub struct RawLinkInfo {
    pub id: LinkId,
    pub name: String,
    pub repo: String,
    pub local_dir: Option<String>,
    pub local_dirs: Option<Vec<String>>,
    pub mode: LinkMode,
    pub poll_interval_secs: Option<u64>,
}

/// The directories that an entry of the registry file names, or what is wrong with it.
pub open spec fn dirs_of(dir: Option<String>, dirs: Option<Vec<String>>) -> Result<
    Seq<Seq<char>>,
    Seq<char>,
> {
    match (dir, dirs) {
        (Some(_), Some(_)) => Err(
            "link entry has both `local_dir` and `local_dirs`; use `local_dirs` only"@,
        ),
        (Some(d), None) => Ok(seq![d@]),
        (None, Some(v)) => Ok(texts(v@)),
        (None, None) => Err("link entry is missing `local_dirs` (or legacy `local_dir`)"@),
    }
}

impl RawLinkInfo {
    /// Settles which directories the entry names.
    pub fn into_info(self) -> (r: Result<LinkInfo, String>)
        ensures
            match r {
                Ok(info) => {
                    &&& dirs_of(self.local_dir, self.local_dirs) == Ok::<Seq<Seq<char>>, Seq<char>>(
                        texts(info.local_dirs@),
                    )
                    &&& info.id == self.id
                    &&& info.name == self.name
                    &&& info.repo == self.repo
                    &&& info.mode == self.mode
                    &&& info.poll_interval_secs == self.poll_interval_secs
                },
                Err(e) => dirs_of(self.local_dir, self.local_dirs) == Err::<
                    Seq<Seq<char>>,
                    Seq<char>,
                >(e@),
            },
    {
        let local_dirs = match (self.local_dir, self.local_dirs) {
            (Some(_), Some(_)) => {
                return Err(
                    "link entry has both `local_dir` and `local_dirs`; use `local_dirs` only".to_owned(),
                );
            },
            (Some(d), None) => {
                let ghost text = d@;
                let mut v: Vec<String> = Vec::new();
                v.push(d);
                assert(texts(v@) =~= seq![text]);
                v
            },
            (None, Some(v)) => v,
            (None, None) => {
                return Err(
                    "link entry is missing `local_dirs` (or legacy `local_dir`)".to_owned(),
                );
            },
        };
        Ok(
            LinkInfo {
                id: self.id,
                name: self.name,
                repo: self.repo,
                local_dirs,
                mode: self.mode,
                poll_interval_secs: self.poll_interval_secs,
            },
        )
    }
}

/// Runtime state of a link.
#[derive(Debug, Clone, PartialEq, Eq)]
pub enum LinkState {
    Idle,
    Syncing,
    Conflict,
    Error(String),
}

impl Default for LinkState {
    fn default() -> (r: Self)
        ensures
            r == LinkState::Idle,
    {
        LinkState::Idle
    }
}

// ---------------------------------------------------------------------------
// Laws
// ---------------------------------------------------------------------------

/// The NUL keeps repository and name apart: no two pairs are hashed alike, as long as the
/// repositories hold no NUL themselves.
pub proof fn separator_keeps_parts_apart(
    repo1: Seq<char>,
    name1: Seq<char>,
    repo2: Seq<char>,
    name2: Seq<char>,
)
    requires
        !repo1.contains('\0'),
        !repo2.contains('\0'),
        id_input(repo1, name1) == id_input(repo2, name2),
    ensures
        repo1 == repo2,
        name1 == name2,
{
    reveal_strlit("\0");
    let x = id_input(repo1, name1);
    let n1 = repo1.len() as int;
    let n2 = repo2.len() as int;
    assert(x[n1] == '\0');
    assert(id_input(repo2, name2)[n2] == '\0');
    if n1 < n2 {
        assert(repo2[n1] == x[n1]);
        assert(repo2.contains('\0'));
    }
    if n2 < n1 {
        assert(repo1[n2] == x[n2]);
        assert(repo1.contains('\0'));
    }
    assert(repo1 =~= x.subrange(0, n1));
    assert(repo2 =~= x.subrange(0, n1));
    assert(name1 =~= x.skip(n1 + 1));
    assert(name2 =~= x.skip(n1 + 1));
}

/// Two links have the same identifier only if they have the same repository and name, or if the
/// hashes of two different inputs collide.
pub proof fn equal_ids_mean_equal_links(
    repo1: Seq<char>,
    name1: Seq<char>,
    repo2: Seq<char>,
    name2: Seq<char>,
)
    requires
        !repo1.contains('\0'),
        !repo2.contains('\0'),
        id_text(repo1, name1) == id_text(repo2, name2),
    ensures
        (repo1 == repo2 && name1 == name2) || {
            let a = encode_utf8(id_input(repo1, name1));
            let b = encode_utf8(id_input(repo2, name2));
            a != b && content_hash(a) == content_hash(b)
        },
{
    let a = encode_utf8(id_input(repo1, name1));
    let b = encode_utf8(id_input(repo2, name2));
    hex_text_is_injective(content_hash(a), content_hash(b));
    if a == b {
        encode_utf8_decode_utf8(id_input(repo1, name1));
        encode_utf8_decode_utf8(id_input(repo2, name2));
        separator_keeps_parts_apart(repo1, name1, repo2, name2);
    }
}

/// An entry of the registry file names its directories in one of two ways, and in one only: a
/// single directory, or a list, which is taken as it is.
pub proof fn entries_name_directories_once(dir: Option<String>, dirs: Option<Vec<String>>)
    ensures
        dirs_of(dir, dirs) is Ok <==> (dir is Some) != (dirs is Some),
        dirs is None ==> (dir matches Some(d) ==> dirs_of(dir, dirs) == Ok::<
            Seq<Seq<char>>,
            Seq<char>,
        >(seq![d@])),
        dir is None ==> (dirs matches Some(v) ==> (dirs_of(dir, dirs) matches Ok(ds) && ds.len()
            == v@.len() && forall|i: int| 0 <= i < ds.len() ==> #[trigger] ds[i] == v@[i]@)),
{
}

/// Two descriptions of a link that say the same agree in everything.
pub proof fn same_links_agree(a: LinkInfo, b: LinkInfo)
    requires
        a.same(&b),
    ensures
        a.id@ == b.id@,
        a.name@ == b.name@,
        a.repo@ == b.repo@,
        a.mode == b.mode,
        a.poll_interval_secs == b.poll_interval_secs,
        a.local_dirs@.len() == b.local_dirs@.len(),
        forall|i: int|
            0 <= i < a.local_dirs@.len() ==> (#[trigger] a.local_dirs@[i])@ == b.local_dirs@[i]@,
{
    let x = texts(a.local_dirs@);
    let y = texts(b.local_dirs@);
    assert(x.len() == a.local_dirs@.len());
    assert(y.len() == b.local_dirs@.len());
    assert forall|i: int| 0 <= i < a.local_dirs@.len() implies (#[trigger] a.local_dirs@[i])@
        == b.local_dirs@[i]@ by {
        assert(x[i] == y[i]);
    }
}

/// The identifier of a link is the hash of its repository and its name, with a character between
/// them that neither has.
pub proof fn ids_are_hashes_of_both_parts(repo: Seq<char>, name: Seq<char>)
    ensures
        id_text(repo, name) == hex_text(content_hash(encode_utf8(repo + seq!['\0'] + name))),
{
    reveal_strlit("\0");
    assert("\0"@ =~= seq!['\0']);
}

} // verus!
