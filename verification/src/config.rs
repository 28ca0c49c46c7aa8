//! Where things are kept, the settings, and the registry of links.

use crate::error::{Result, SyncorError};
use crate::link::{LinkId, LinkInfo};
use crate::path::{join, joined, same_location, same_path};
use crate::text::{
    all_digits, before, decimal, digits_value, is_digit, join2, join3, number,
    numbers_read_back, parse_unsigned, same_text, unsigned,
};
use crate::text_map::{lists_keys, TextMap};
use vstd::prelude::*;

verus! {

// ---------------------------------------------------------------------------
// SyncorPaths
// ---------------------------------------------------------------------------

/// Canonical filesystem layout for Syncor's config and data directories.
///
/// Follows an XDG-like convention:
///   config: $HOME/.config/syncor/
///   data:   $HOME/.local/share/syncor/
#[derive(Debug)]
pub struct SyncorPaths {
    config_dir: String,
    data_dir: String,
}

impl Clone for SyncorPaths {
    fn clone(&self) -> (r: Self)
        ensures
            r == *self,
    {
        SyncorPaths { config_dir: self.config_dir.clone(), data_dir: self.data_dir.clone() }
    }
}

/// Where the settings are kept.
pub open spec fn config_dir_of(home: Seq<char>) -> Seq<char> {
    joined(joined(home, ".config"@), "syncor"@)
}

/// Where the data are kept.
pub open spec fn data_dir_of(home: Seq<char>) -> Seq<char> {
    joined(joined(joined(home, ".local"@), "share"@), "syncor"@)
}

impl SyncorPaths {
    /// The directory of the settings.
    pub closed spec fn config(&self) -> Seq<char> {
        self.config_dir@
    }

    /// The directory of the data.
    pub closed spec fn data(&self) -> Seq<char> {
        self.data_dir@
    }

    /// The directory of the links.
    pub open spec fn links(&self) -> Seq<char> {
        joined(self.data(), "links"@)
    }

    /// The repository checkout of a link.
    pub open spec fn repo_of(&self, id: Seq<char>) -> Seq<char> {
        joined(self.links(), id)
    }

    /// The file of the settings.
    pub open spec fn settings_path(&self) -> Seq<char> {
        joined(self.config(), "config.toml"@)
    }

    /// The file of the registry of links.
    pub open spec fn registry_path(&self) -> Seq<char> {
        joined(self.config(), "links.toml"@)
    }

    /// The daemon's socket.
    pub open spec fn socket(&self) -> Seq<char> {
        joined(self.data(), "syncor.sock"@)
    }

    /// The file of the daemon's process id.
    pub open spec fn pid_path(&self) -> Seq<char> {
        joined(self.data(), "daemon.pid"@)
    }

    /// The daemon's log.
    pub open spec fn log_path(&self) -> Seq<char> {
        joined(self.data(), "daemon.log"@)
    }

    /// The database of what was synced.
    pub open spec fn state_path(&self) -> Seq<char> {
        joined(self.data(), "state.db"@)
    }

    /// The lock of a link.
    pub open spec fn lock_of(&self, id: Seq<char>) -> Seq<char> {
        joined(self.links(), id + ".lock"@)
    }

    /// Derive paths from an explicit home directory.
    pub fn with_home(home: &str) -> (r: Self)
        ensures
            r.config() == config_dir_of(home@),
            r.data() == data_dir_of(home@),
    {
        let config_home = join(home, ".config");
        let local = join(home, ".local");
        let share = join(local.as_str(), "share");
        SyncorPaths {
            config_dir: join(config_home.as_str(), "syncor"),
            data_dir: join(share.as_str(), "syncor"),
        }
    }

    pub fn config_dir(&self) -> (r: &str)
        ensures
            r@ == self.config(),
    {
        self.config_dir.as_str()
    }

    pub fn config_file(&self) -> (r: String)
        ensures
            r@ == self.settings_path(),
    {
        join(self.config_dir.as_str(), "config.toml")
    }

    pub fn links_file(&self) -> (r: String)
        ensures
            r@ == self.registry_path(),
    {
        join(self.config_dir.as_str(), "links.toml")
    }

    pub fn data_dir(&self) -> (r: &str)
        ensures
            r@ == self.data(),
    {
        self.data_dir.as_str()
    }

    /// Unix-domain socket for daemon IPC.
    pub fn socket_path(&self) -> (r: String)
        ensures
            r@ == self.socket(),
    {
        join(self.data_dir.as_str(), "syncor.sock")
    }

    /// PID file used to track the running daemon.
    pub fn pid_file(&self) -> (r: String)
        ensures
            r@ == self.pid_path(),
    {
        join(self.data_dir.as_str(), "daemon.pid")
    }

    /// Log file for the daemon.
    pub fn log_file(&self) -> (r: String)
        ensures
            r@ == self.log_path(),
    {
        join(self.data_dir.as_str(), "daemon.log")
    }

    /// Root directory that holds per-link working directories.
    pub fn link_dir(&self) -> (r: String)
        ensures
            r@ == self.links(),
    {
        join(self.data_dir.as_str(), "links")
    }

    /// Working directory for a specific link's repo checkout.
    pub fn link_repo_dir(&self, link_id: &LinkId) -> (r: String)
        ensures
            r@ == self.repo_of(link_id@),
    {
        join(self.link_dir().as_str(), link_id.as_str())
    }

    /// SQLite database that holds link state / checkpoints.
    pub fn link_state_db(&self) -> (r: String)
        ensures
            r@ == self.state_path(),
    {
        join(self.data_dir.as_str(), "state.db")
    }

    /// Advisory lock file for a specific link.
    pub fn link_lock_file(&self, link_id: &LinkId) -> (r: String)
        ensures
            r@ == self.lock_of(link_id@),
    {
        let file = join2(link_id.as_str(), ".lock");
        join(self.link_dir().as_str(), file.as_str())
    }
}

// ---------------------------------------------------------------------------
// SyncorConfig
// ---------------------------------------------------------------------------

/// Top-level application configuration (stored in `config.toml`).
#[derive(Debug, Clone, Copy, PartialEq, Eq, Structural)]
pub struct SyncorConfig {
    /// How long (seconds) to debounce filesystem events before acting.
    pub debounce_secs: u64,
    /// Default poll interval (seconds) for links that don't override it.
    pub default_poll_interval_secs: u64,
}

impl Default for SyncorConfig {
    fn default() -> (r: Self)
        ensures
            r.debounce_secs == 2,
            r.default_poll_interval_secs == 60,
    {
        SyncorConfig { debounce_secs: 2, default_poll_interval_secs: 60 }
    }
}

/// What setting `key` to `value` makes of a configuration, or why it cannot be set.
pub open spec fn configured(config: SyncorConfig, key: Seq<char>, value: Seq<char>) -> std::result::Result<
    SyncorConfig,
    Seq<char>,
> {
    if key == "debounce_secs"@ {
        match unsigned(value) {
            Some(n) => Ok(SyncorConfig { debounce_secs: n, ..config }),
            None => Err("invalid value for debounce_secs"@),
        }
    } else if key == "default_poll_interval_secs"@ {
        match unsigned(value) {
            Some(n) => Ok(SyncorConfig { default_poll_interval_secs: n, ..config }),
            None => Err("invalid value for default_poll_interval_secs"@),
        }
    } else {
        Err(
            "unknown config key: "@ + key
                + ". Valid keys: debounce_secs, default_poll_interval_secs"@,
        )
    }
}

impl SyncorConfig {
    /// This configuration with one value set.
    pub fn with_value(&self, key: &str, value: &str) -> (r: std::result::Result<Self, String>)
        ensures
            match r {
                Ok(c) => configured(*self, key@, value@) == Ok::<SyncorConfig, Seq<char>>(c),
                Err(e) => configured(*self, key@, value@) == Err::<SyncorConfig, Seq<char>>(e@),
            },
    {
        if same_text(key, "debounce_secs") {
            match parse_unsigned(value) {
                Some(n) => Ok(
                    SyncorConfig {
                        debounce_secs: n,
                        default_poll_interval_secs: self.default_poll_interval_secs,
                    },
                ),
                None => Err("invalid value for debounce_secs".to_owned()),
            }
        } else if same_text(key, "default_poll_interval_secs") {
            match parse_unsigned(value) {
                Some(n) => Ok(
                    SyncorConfig {
                        debounce_secs: self.debounce_secs,
                        default_poll_interval_secs: n,
                    },
                ),
                None => Err("invalid value for default_poll_interval_secs".to_owned()),
            }
        } else {
            Err(
                join3(
                    "unknown config key: ",
                    key,
                    ". Valid keys: debounce_secs, default_poll_interval_secs",
                ),
            )
        }
    }
}

// ---------------------------------------------------------------------------
// LinksRegistry
// ---------------------------------------------------------------------------

/// In-memory registry of all configured links, by id.
#[derive(Debug)]
pub struct LinksRegistry {
    by_id: TextMap<LinkInfo>,
}

/// The links of a registry, by id.
pub type Links = Map<Seq<char>, LinkInfo>;

/// Whether every link stands under its own id.
pub open spec fn under_own_id(m: Links) -> bool {
    forall|id: Seq<char>| #[trigger] m.dom().contains(id) ==> m[id].id@ == id
}

/// Whether a link is mounted at `dir`.
pub open spec fn mounted_at(info: LinkInfo, dir: Seq<char>) -> bool {
    exists|i: int|
        0 <= i < info.local_dirs@.len() && same_location(#[trigger] info.local_dirs@[i]@, dir)
}

/// Whether a link of the registry is mounted at `dir`.
pub open spec fn managed(m: Links, dir: Seq<char>) -> bool {
    exists|id: Seq<char>| #[trigger] m.dom().contains(id) && mounted_at(m[id], dir)
}

/// Why a registry refuses a link.
pub ghost enum Refusal {
    /// The id is taken.
    SameId,
    /// The link has no directory.
    NoDirectory,
    /// A directory belongs to another link.
    Taken { dir: Seq<char> },
}

/// The first of the directories, from `i` on, that belongs to a link of the registry.
pub open spec fn first_taken(m: Links, dirs: Seq<String>, i: int) -> Option<Seq<char>>
    decreases dirs.len() - i,
{
    if 0 <= i < dirs.len() {
        if managed(m, dirs[i]@) {
            Some(dirs[i]@)
        } else {
            first_taken(m, dirs, i + 1)
        }
    } else {
        None
    }
}

/// Why the registry refuses `info`, if it does.
pub open spec fn refusal(m: Links, info: LinkInfo) -> Option<Refusal> {
    if m.dom().contains(info.id@) {
        Some(Refusal::SameId)
    } else if info.local_dirs@.len() == 0 {
        Some(Refusal::NoDirectory)
    } else {
        match first_taken(m, info.local_dirs@, 0) {
            Some(dir) => Some(Refusal::Taken { dir }),
            None => None,
        }
    }
}

/// Whether `e` reports `why`.
pub open spec fn reports(e: SyncorError, why: Refusal, info: LinkInfo) -> bool {
    match why {
        Refusal::SameId => e matches SyncorError::LinkAlreadyExists(t) && t@ == "id "@ + info.id@
            + " already registered"@,
        Refusal::NoDirectory => e matches SyncorError::Config(t) && t@
            == "link has no local directory"@,
        Refusal::Taken { dir } => e matches SyncorError::LinkAlreadyExists(t) && t@ == "directory "@
            + dir + " is already managed by another link"@,
    }
}

/// Whether an attempt to add a link makes `n` of the registry.
pub open spec fn is_addition(m: Links, info: LinkInfo, n: Links, r: Result<()>) -> bool {
    match r {
        Ok(()) => refusal(m, info) is None && n == m.insert(info.id@, info),
        Err(e) => {
            &&& refusal(m, info) is Some
            &&& reports(e, refusal(m, info)->0, info)
            &&& n == m
        },
    }
}

/// Whether an attempt to remove a link makes `n` of the registry.
pub open spec fn is_removal(m: Links, id: Seq<char>, n: Links, r: Result<()>) -> bool {
    &&& r is Ok == m.dom().contains(id)
    &&& n == m.remove(id)
    &&& r matches Err(e) ==> e matches SyncorError::LinkNotFound(t) && t@ == id
}

/// Whether `r` is the link with the id, if there is one.
pub open spec fn is_under(m: Links, id: Seq<char>, r: Option<&LinkInfo>) -> bool {
    match r {
        Some(l) => m.dom().contains(id) && *l == m[id] && l.id@ == id,
        None => !m.dom().contains(id),
    }
}

/// Whether `r` is the link called `name`, if there is one: of several the one with the smallest
/// id.
pub open spec fn is_called(m: Links, name: Seq<char>, r: Option<&LinkInfo>) -> bool {
    match r {
        Some(l) => {
            &&& m.dom().contains(l.id@)
            &&& *l == m[l.id@]
            &&& l.name@ == name
            &&& forall|id: Seq<char>| #[trigger]
                m.dom().contains(id) && m[id].name@ == name ==> !before(id, l.id@)
        },
        None => forall|id: Seq<char>| #[trigger] m.dom().contains(id) ==> m[id].name@ != name,
    }
}

/// Whether `r` is the link mounted at `dir`, if there is one: of several the one with the
/// smallest id.
pub open spec fn is_owner(m: Links, dir: Seq<char>, r: Option<&LinkInfo>) -> bool {
    match r {
        Some(l) => {
            &&& m.dom().contains(l.id@)
            &&& *l == m[l.id@]
            &&& mounted_at(*l, dir)
            &&& forall|id: Seq<char>| #[trigger]
                m.dom().contains(id) && mounted_at(m[id], dir) ==> !before(id, l.id@)
        },
        None => !managed(m, dir),
    }
}

/// The registry that a list of links makes: of two with the same id the later one counts.
pub open spec fn loaded(links: Seq<LinkInfo>) -> Links
    decreases links.len(),
{
    if links.len() == 0 {
        Map::empty()
    } else {
        loaded(links.drop_last()).insert(links.last().id@, links.last())
    }
}

impl View for LinksRegistry {
    type V = Links;

    closed spec fn view(&self) -> Links {
        self.by_id@
    }
}

impl Default for LinksRegistry {
    fn default() -> (r: Self)
        ensures
            r@ == Links::empty(),
    {
        LinksRegistry::new()
    }
}

impl LinksRegistry {
    #[verifier::type_invariant]
    spec fn inv(self) -> bool {
        under_own_id(self.by_id@)
    }

    /// The ids, in order.
    pub closed spec fn ids(&self) -> Seq<Seq<char>> {
        self.by_id.keys()
    }

    /// A registry without links.
    pub fn new() -> (r: Self)
        ensures
            r@ == Links::empty(),
    {
        LinksRegistry { by_id: TextMap::new() }
    }

    /// Look up a link by its `LinkId`.
    pub fn get_by_id(&self, id: &LinkId) -> (r: Option<&LinkInfo>)
        ensures
            is_under(self@, id@, r),
    {
        proof {
            use_type_invariant(self);
        }
        self.by_id.get(id.as_str())
    }

    /// Look up a link by its human-readable name. Where several links have it, the one with the
    /// smallest id is found.
    pub fn get_by_name(&self, name: &str) -> (r: Option<&LinkInfo>)
        ensures
            is_called(self@, name@, r),
    {
        proof {
            use_type_invariant(self);
        }
        let n: usize = self.by_id.len();
        let mut i: usize = 0;
        while i < n
            invariant
                i <= n,
                n == self.by_id.keys().len(),
                under_own_id(self.by_id@),
                lists_keys(self.by_id.keys(), self.by_id@),
                forall|j: int| 0 <= j < i ==> self@[#[trigger] self.by_id.keys()[j]].name@ != name@,
            decreases n - i,
        {
            let l = self.by_id.value(i);
            if same_text(l.name.as_str(), name) {
                proof {
                    self.first_is_smallest(|l: LinkInfo| l.name@ == name@, i as int);
                }
                return Some(l);
            }
            i = i + 1;
        }
        proof {
            self.none_of_all(|l: LinkInfo| l.name@ == name@);
        }
        None
    }

    /// Look up a link by one of its directories. Where several links have it, the one with the
    /// smallest id is found.
    pub fn get_by_dir(&self, dir: &str) -> (r: Option<&LinkInfo>)
        ensures
            is_owner(self@, dir@, r),
    {
        proof {
            use_type_invariant(self);
        }
        let n: usize = self.by_id.len();
        let mut i: usize = 0;
        while i < n
            invariant
                i <= n,
                n == self.by_id.keys().len(),
                under_own_id(self.by_id@),
                lists_keys(self.by_id.keys(), self.by_id@),
                forall|j: int|
                    0 <= j < i ==> !mounted_at(self@[#[trigger] self.by_id.keys()[j]], dir@),
            decreases n - i,
        {
            let l = self.by_id.value(i);
            if is_mounted_at(l, dir) {
                proof {
                    self.first_is_smallest(|l: LinkInfo| mounted_at(l, dir@), i as int);
                }
                return Some(l);
            }
            i = i + 1;
        }
        proof {
            self.none_of_all(|l: LinkInfo| mounted_at(l, dir@));
        }
        None
    }

    /// Add a new link. Refused if a link with the same id already exists, if the link has no
    /// directory, or if one of its directories already belongs to a link (one directory, one
    /// link).
    pub fn add(&mut self, info: LinkInfo) -> (r: Result<()>)
        ensures
            is_addition(old(self)@, info, final(self)@, r),
    {
        proof {
            use_type_invariant(&*self);
        }
        if self.by_id.contains(info.id.as_str()) {
            return Err(
                SyncorError::LinkAlreadyExists(
                    join3("id ", info.id.as_str(), " already registered"),
                ),
            );
        }
        if info.local_dirs.len() == 0 {
            return Err(SyncorError::Config("link has no local directory".to_owned()));
        }
        let mut i: usize = 0;
        while i < info.local_dirs.len()
            invariant
                i <= info.local_dirs@.len(),
                *self == *old(self),
                refusal(self@, info) == (match first_taken(self@, info.local_dirs@, i as int) {
                    Some(dir) => Some(Refusal::Taken { dir }),
                    None => None,
                }),
            decreases info.local_dirs@.len() - i,
        {
            let dir = &info.local_dirs[i];
            match self.get_by_dir(dir.as_str()) {
                Some(_) => {
                    return Err(
                        SyncorError::LinkAlreadyExists(
                            join3(
                                "directory ",
                                dir.as_str(),
                                " is already managed by another link",
                            ),
                        ),
                    );
                },
                None => {},
            }
            i = i + 1;
        }
        self.put(info);
        Ok(())
    }

    /// Puts a link under its id.
    fn put(&mut self, info: LinkInfo)
        ensures
            final(self)@ == old(self)@.insert(info.id@, info),
    {
        proof {
            use_type_invariant(&*self);
        }
        let id = info.id.as_str().to_owned();
        let mut by_id: TextMap<LinkInfo> = TextMap::new();
        std::mem::swap(&mut by_id, &mut self.by_id);
        by_id.insert(id, info);
        self.by_id = by_id;
    }

    /// Remove a link by its id. Fails if there is none.
    pub fn remove(&mut self, id: &LinkId) -> (r: Result<()>)
        ensures
            is_removal(old(self)@, id@, final(self)@, r),
    {
        proof {
            use_type_invariant(&*self);
        }
        let mut by_id: TextMap<LinkInfo> = TextMap::new();
        std::mem::swap(&mut by_id, &mut self.by_id);
        let found = by_id.remove(id.as_str());
        self.by_id = by_id;
        if found {
            Ok(())
        } else {
            Err(SyncorError::LinkNotFound(id.as_str().to_owned()))
        }
    }

    /// All registered links, in the order of their ids. This is the order they are saved in.
    pub fn iter(&self) -> (r: Vec<&LinkInfo>)
        ensures
            lists_keys(self.ids(), self@),
            r@.len() == self.ids().len(),
            forall|i: int| 0 <= i < r@.len() ==> *(#[trigger] r@[i]) == self@[self.ids()[i]],
            forall|i: int| 0 <= i < r@.len() ==> (#[trigger] r@[i]).id@ == self.ids()[i],
    {
        proof {
            use_type_invariant(self);
        }
        let n: usize = self.by_id.len();
        let mut out: Vec<&LinkInfo> = Vec::new();
        let mut i: usize = 0;
        while i < n
            invariant
                i <= n,
                n == self.by_id.keys().len(),
                out@.len() == i,
                under_own_id(self.by_id@),
                lists_keys(self.by_id.keys(), self.by_id@),
                forall|j: int| 0 <= j < i ==> *(#[trigger] out@[j]) == self@[self.ids()[j]],
                forall|j: int| 0 <= j < i ==> (#[trigger] out@[j]).id@ == self.ids()[j],
            decreases n - i,
        {
            let l = self.by_id.value(i);
            assert(self.by_id@.dom().contains(self.by_id.keys()[i as int]));
            out.push(l);
            i = i + 1;
        }
        out
    }

    /// The registry that the entries of a file make. Of two with the same id the later one
    /// counts.
    pub fn from_links(links: Vec<LinkInfo>) -> (r: Self)
        ensures
            r@ == loaded(links@),
    {
        let mut r = LinksRegistry::new();
        let ghost all = links@;
        assert(all.subrange(0, 0) =~= Seq::<LinkInfo>::empty());
        for info in it: links
            invariant
                it.seq() == all,
                r@ == loaded(all.subrange(0, it.index() as int)),
        {
            assert(all.subrange(0, it.index() + 1).drop_last() =~= all.subrange(
                0,
                it.index() as int,
            ));
            r.put(info);
        }
        assert(all.subrange(0, all.len() as int) =~= all);
        r
    }

    /// The first link in order that has a property is the one with the smallest id.
    proof fn first_is_smallest(&self, p: spec_fn(LinkInfo) -> bool, i: int)
        requires
            under_own_id(self.by_id@),
            lists_keys(self.by_id.keys(), self.by_id@),
            0 <= i < self.by_id.keys().len(),
            forall|j: int| 0 <= j < i ==> !p(self.by_id@[#[trigger] self.by_id.keys()[j]]),
        ensures
            self@.dom().contains(self.by_id.keys()[i]),
            forall|id: Seq<char>| #[trigger]
                self@.dom().contains(id) && p(self@[id]) ==> !before(id, self.by_id.keys()[i]),
    {
        let keys = self.by_id.keys();
        assert forall|id: Seq<char>| #[trigger]
            self@.dom().contains(id) && p(self@[id]) implies !before(id, keys[i]) by {
            let j = choose|j: int| 0 <= j < keys.len() && keys[j] == id;
            assert(p(self.by_id@[keys[j]]));
            crate::text::before_irreflexive(id);
            if i < j && before(id, keys[i]) {
                crate::text::before_transitive(id, keys[i], id);
            }
        }
    }

    /// A property that no entry has, no link has.
    proof fn none_of_all(&self, p: spec_fn(LinkInfo) -> bool)
        requires
            lists_keys(self.by_id.keys(), self.by_id@),
            forall|j: int|
                0 <= j < self.by_id.keys().len() ==> !p(
                    self.by_id@[#[trigger] self.by_id.keys()[j]],
                ),
        ensures
            forall|id: Seq<char>| #[trigger] self@.dom().contains(id) ==> !p(self@[id]),
    {
        let keys = self.by_id.keys();
        assert forall|id: Seq<char>| #[trigger] self@.dom().contains(id) implies !p(self@[id]) by {
            let j = choose|j: int| 0 <= j < keys.len() && keys[j] == id;
            assert(!p(self.by_id@[keys[j]]));
        }
    }
}

/// Whether the link is mounted at `dir`.
fn is_mounted_at(info: &LinkInfo, dir: &str) -> (r: bool)
    ensures
        r == mounted_at(*info, dir@),
{
    let mut i: usize = 0;
    while i < info.local_dirs.len()
        invariant
            i <= info.local_dirs@.len(),
            forall|j: int| 0 <= j < i ==> !same_location(#[trigger] info.local_dirs@[j]@, dir@),
        decreases info.local_dirs@.len() - i,
    {
        if same_path(info.local_dirs[i].as_str(), dir) {
            return true;
        }
        i = i + 1;
    }
    false
}

// ---------------------------------------------------------------------------
// Laws
// ---------------------------------------------------------------------------

/// Whether no directory belongs to two links.
pub open spec fn one_link_per_dir(m: Links) -> bool {
    forall|a: Seq<char>, b: Seq<char>, dir: Seq<char>|
        m.dom().contains(a) && m.dom().contains(b) && #[trigger] mounted_at(m[a], dir)
            && #[trigger] mounted_at(m[b], dir) ==> a == b
}

/// Whether every link has a directory.
pub open spec fn all_mounted(m: Links) -> bool {
    forall|id: Seq<char>| #[trigger] m.dom().contains(id) ==> m[id].local_dirs@.len() > 0
}

/// Two paths that both name the place of a third name the same place.
proof fn same_location_joins(p: Seq<char>, q: Seq<char>, r: Seq<char>)
    requires
        same_location(p, r),
        same_location(q, r),
    ensures
        same_location(q, p),
{
}

/// No directory of an accepted link belongs to a link of the registry.
proof fn accepted_dirs_are_free(m: Links, info: LinkInfo, i: int, j: int)
    requires
        0 <= i <= j < info.local_dirs@.len(),
        first_taken(m, info.local_dirs@, i) is None,
    ensures
        !managed(m, info.local_dirs@[j]@),
    decreases j - i,
{
    if i < j {
        accepted_dirs_are_free(m, info, i + 1, j);
    }
}

/// An accepted link keeps the rule that a directory belongs to one link.
pub proof fn adding_keeps_one_link_per_dir(m: Links, info: LinkInfo)
    requires
        one_link_per_dir(m),
        refusal(m, info) is None,
    ensures
        one_link_per_dir(m.insert(info.id@, info)),
{
    let n = m.insert(info.id@, info);
    assert forall|a: Seq<char>, b: Seq<char>, dir: Seq<char>|
        n.dom().contains(a) && n.dom().contains(b) && #[trigger] mounted_at(n[a], dir)
            && #[trigger] mounted_at(n[b], dir) implies a == b by {
        if a != b {
            if a == info.id@ {
                dirs_are_not_shared(m, info, b, dir);
            } else if b == info.id@ {
                dirs_are_not_shared(m, info, a, dir);
            } else {
                assert(mounted_at(m[a], dir) && mounted_at(m[b], dir));
            }
        }
    }
}

/// An accepted link shares no directory with another.
proof fn dirs_are_not_shared(m: Links, info: LinkInfo, other: Seq<char>, dir: Seq<char>)
    requires
        refusal(m, info) is None,
        m.dom().contains(other),
        mounted_at(info, dir),
    ensures
        !mounted_at(m[other], dir),
{
    let i = choose|i: int|
        0 <= i < info.local_dirs@.len() && same_location(#[trigger] info.local_dirs@[i]@, dir);
    let o = m[other];
    accepted_dirs_are_free(m, info, 0, i);
    if mounted_at(o, dir) {
        let j = choose|j: int|
            0 <= j < o.local_dirs@.len() && same_location(#[trigger] o.local_dirs@[j]@, dir);
        same_location_joins(info.local_dirs@[i]@, o.local_dirs@[j]@, dir);
        assert(mounted_at(o, info.local_dirs@[i]@));
        assert(managed(m, info.local_dirs@[i]@));
    }
}

/// Removing a link keeps the rule that a directory belongs to one link.
pub proof fn removing_keeps_one_link_per_dir(m: Links, id: Seq<char>)
    requires
        one_link_per_dir(m),
    ensures
        one_link_per_dir(m.remove(id)),
{
    let n = m.remove(id);
    assert forall|a: Seq<char>, b: Seq<char>, dir: Seq<char>|
        n.dom().contains(a) && n.dom().contains(b) && #[trigger] mounted_at(n[a], dir)
            && #[trigger] mounted_at(n[b], dir) implies a == b by {
        assert(mounted_at(m[a], dir) && mounted_at(m[b], dir));
    }
}

/// A registry that accepts only what `add` accepts never holds a link without a directory.
pub proof fn adding_keeps_all_mounted(m: Links, info: LinkInfo)
    requires
        all_mounted(m),
        refusal(m, info) is None,
    ensures
        all_mounted(m.insert(info.id@, info)),
{
}

/// Removing a link that was just added gives back the registry as it was.
pub proof fn removing_undoes_adding(m: Links, info: LinkInfo)
    requires
        refusal(m, info) is None,
    ensures
        m.insert(info.id@, info).remove(info.id@) == m,
{
    assert(m.insert(info.id@, info).remove(info.id@) =~= m);
}

/// What is saved is what is loaded: the links of a registry, listed, make that registry again.
pub proof fn loading_reads_back_saving(m: Links, ids: Seq<Seq<char>>, links: Seq<LinkInfo>)
    requires
        under_own_id(m),
        lists_keys(ids, m),
        links.len() == ids.len(),
        forall|i: int| 0 <= i < links.len() ==> #[trigger] links[i] == m[ids[i]],
    ensures
        loaded(links) == m,
{
    loaded_part(m, ids, links, links.len() as int);
    assert(links.subrange(0, links.len() as int) =~= links);
    assert(loaded(links) =~= m) by {
        assert forall|k: Seq<char>| loaded(links).dom().contains(k) == m.dom().contains(k) by {
            if m.dom().contains(k) {
                let i = choose|i: int| 0 <= i < ids.len() && ids[i] == k;
                assert(loaded(links).dom().contains(ids[i]));
            }
        }
    }
}

/// The first `n` links of a listing make the part of the registry with their ids.
proof fn loaded_part(m: Links, ids: Seq<Seq<char>>, links: Seq<LinkInfo>, n: int)
    requires
        under_own_id(m),
        lists_keys(ids, m),
        links.len() == ids.len(),
        0 <= n <= links.len(),
        forall|i: int| 0 <= i < links.len() ==> #[trigger] links[i] == m[ids[i]],
    ensures
        forall|i: int| 0 <= i < n ==> loaded(links.subrange(0, n)).dom().contains(#[trigger] ids[i]),
        forall|k: Seq<char>| #[trigger]
            loaded(links.subrange(0, n)).dom().contains(k) ==> m.dom().contains(k) && loaded(
                links.subrange(0, n),
            )[k] == m[k],
    decreases n,
{
    if n > 0 {
        loaded_part(m, ids, links, n - 1);
        assert(links.subrange(0, n).drop_last() =~= links.subrange(0, n - 1));
        assert(links.subrange(0, n).last() == links[n - 1]);
        assert(m.dom().contains(ids[n - 1]));
        let part = loaded(links.subrange(0, n - 1));
        let whole = loaded(links.subrange(0, n));
        assert(whole == part.insert(ids[n - 1], links[n - 1]));
        assert forall|k: Seq<char>| #[trigger] whole.dom().contains(k) implies m.dom().contains(k)
            && whole[k] == m[k] by {
            if k != ids[n - 1] {
                assert(part.dom().contains(k));
            }
        }
    } else {
        assert(links.subrange(0, n) =~= Seq::<LinkInfo>::empty());
    }
}

/// A setting takes a number as it is written and reads it back, and leaves the other setting
/// alone.
pub proof fn settings_take_their_numbers(config: SyncorConfig, n: u64)
    ensures
        configured(config, "debounce_secs"@, decimal(n as nat)) matches Ok(c) && c.debounce_secs == n
            && c.default_poll_interval_secs == config.default_poll_interval_secs,
        configured(config, "default_poll_interval_secs"@, decimal(n as nat)) matches Ok(c)
            && c.default_poll_interval_secs == n && c.debounce_secs == config.debounce_secs,
{
    numbers_read_back(n, Seq::empty());
    reveal_strlit("debounce_secs");
    reveal_strlit("default_poll_interval_secs");
    assert("debounce_secs"@.len() != "default_poll_interval_secs"@.len());
}

/// What stands behind the plus sign of a text, or all of it where there is none.
pub open spec fn behind_sign(value: Seq<char>) -> Seq<char> {
    if value.len() > 0 && value[0] == '+' {
        value.drop_first()
    } else {
        value
    }
}

/// A setting is refused exactly if there is none of that name, or if its value is no number of 64
/// bits: a plus sign at most, and then digits alone.
pub proof fn only_numbers_are_set(config: SyncorConfig, key: Seq<char>, value: Seq<char>)
    ensures
        configured(config, key, value) is Ok <==> {
            let digits = behind_sign(value);
            &&& key == "debounce_secs"@ || key == "default_poll_interval_secs"@
            &&& digits.len() > 0
            &&& forall|i: int| 0 <= i < digits.len() ==> '0' <= #[trigger] digits[i] <= '9'
            &&& digits_value(digits) <= u64::MAX
        },
        configured(config, key, value) matches Ok(c) ==> {
            &&& key != "debounce_secs"@ ==> c.debounce_secs == config.debounce_secs
            &&& key != "default_poll_interval_secs"@ ==> c.default_poll_interval_secs
                == config.default_poll_interval_secs
        },
{
    let digits = behind_sign(value);
    assert(unsigned(value) == number(digits));
    if all_digits(digits) {
        assert forall|i: int| 0 <= i < digits.len() implies '0' <= #[trigger] digits[i] <= '9' by {
            assert(is_digit(digits[i]));
        }
    }
    if forall|i: int| 0 <= i < digits.len() ==> '0' <= #[trigger] digits[i] <= '9' {
        assert forall|i: int| 0 <= i < digits.len() implies is_digit(#[trigger] digits[i]) by {}
        assert(all_digits(digits));
    }
}

/// The first taken directory is one that is taken, and no directory before it is.
proof fn first_taken_is_first(m: Links, dirs: Seq<String>, i: int)
    requires
        0 <= i <= dirs.len(),
    ensures
        match first_taken(m, dirs, i) {
            Some(dir) => exists|k: int|
                #![trigger dirs[k]]
                {
                    &&& i <= k < dirs.len()
                    &&& dirs[k]@ == dir
                    &&& managed(m, dir)
                    &&& forall|j: int| i <= j < k ==> !managed(m, (#[trigger] dirs[j])@)
                },
            None => forall|j: int| i <= j < dirs.len() ==> !managed(m, (#[trigger] dirs[j])@),
        },
    decreases dirs.len() - i,
{
    if i < dirs.len() {
        if managed(m, dirs[i]@) {
            assert(dirs[i]@ == first_taken(m, dirs, i)->Some_0);
        } else {
            first_taken_is_first(m, dirs, i + 1);
            if first_taken(m, dirs, i) is Some {
                let dir = first_taken(m, dirs, i + 1)->Some_0;
                let k = choose|k: int|
                    #![trigger dirs[k]]
                    {
                        &&& i + 1 <= k < dirs.len()
                        &&& dirs[k]@ == dir
                        &&& managed(m, dir)
                        &&& forall|j: int| i + 1 <= j < k ==> !managed(m, (#[trigger] dirs[j])@)
                    };
                assert(dirs[k]@ == dir);
            }
        }
    }
}

/// A link is accepted exactly if its id is new, it has a directory, and none of its directories is
/// the place of a directory of another link.
pub proof fn free_links_are_accepted(m: Links, info: LinkInfo)
    ensures
        refusal(m, info) is None <==> {
            &&& !m.dom().contains(info.id@)
            &&& info.local_dirs@.len() > 0
            &&& forall|i: int, id: Seq<char>, j: int|
                0 <= i < info.local_dirs@.len() && m.dom().contains(id) && 0 <= j
                    < m[id].local_dirs@.len() ==> !#[trigger] same_location(
                    m[id].local_dirs@[j]@,
                    info.local_dirs@[i]@,
                )
        },
{
    let dirs = info.local_dirs@;
    first_taken_is_first(m, dirs, 0);
    if refusal(m, info) is None {
        assert forall|i: int, id: Seq<char>, j: int|
            0 <= i < dirs.len() && m.dom().contains(id) && 0 <= j
                < m[id].local_dirs@.len() implies !#[trigger] same_location(
            m[id].local_dirs@[j]@,
            dirs[i]@,
        ) by {
            assert(!managed(m, dirs[i]@));
            if same_location(m[id].local_dirs@[j]@, dirs[i]@) {
                assert(mounted_at(m[id], dirs[i]@));
            }
        }
    } else if !m.dom().contains(info.id@) && dirs.len() > 0 {
        let dir = first_taken(m, dirs, 0)->Some_0;
        let k = choose|k: int|
            #![trigger dirs[k]]
            {
                &&& 0 <= k < dirs.len()
                &&& dirs[k]@ == dir
                &&& managed(m, dir)
                &&& forall|j: int| 0 <= j < k ==> !managed(m, (#[trigger] dirs[j])@)
            };
        let id = choose|id: Seq<char>| #[trigger] m.dom().contains(id) && mounted_at(m[id], dir);
        let j = choose|j: int|
            0 <= j < m[id].local_dirs@.len() && same_location(
                #[trigger] m[id].local_dirs@[j]@,
                dir,
            );
        assert(same_location(m[id].local_dirs@[j]@, dirs[k]@));
    }
}

/// Why a link is refused is told by the first of the reasons: a taken id, then a missing directory,
/// then the first directory that is taken.
pub proof fn refusals_name_the_reason(m: Links, info: LinkInfo)
    ensures
        m.dom().contains(info.id@) ==> refusal(m, info) == Some(Refusal::SameId),
        !m.dom().contains(info.id@) && info.local_dirs@.len() == 0 ==> refusal(m, info) == Some(
            Refusal::NoDirectory,
        ),
        refusal(m, info) matches Some(Refusal::Taken { dir }) ==> exists|k: int|
            #![trigger info.local_dirs@[k]]
            {
                &&& 0 <= k < info.local_dirs@.len()
                &&& info.local_dirs@[k]@ == dir
                &&& managed(m, dir)
                &&& forall|j: int| 0 <= j < k ==> !managed(m, (#[trigger] info.local_dirs@[j])@)
            },
{
    first_taken_is_first(m, info.local_dirs@, 0);
}

/// A registry that is read has exactly the ids of the entries.
pub proof fn loading_takes_every_entry(links: Seq<LinkInfo>, id: Seq<char>)
    ensures
        loaded(links).dom().contains(id) <==> exists|i: int|
            0 <= i < links.len() && (#[trigger] links[i]).id@ == id,
    decreases links.len(),
{
    if links.len() > 0 {
        let rest = links.drop_last();
        loading_takes_every_entry(rest, id);
        if loaded(rest).dom().contains(id) {
            let i = choose|i: int| 0 <= i < rest.len() && (#[trigger] rest[i]).id@ == id;
            assert(links[i].id@ == id);
        }
        if links.last().id@ == id {
            assert(links[links.len() - 1].id@ == id);
        }
        if exists|i: int| 0 <= i < links.len() && (#[trigger] links[i]).id@ == id {
            let i = choose|i: int| 0 <= i < links.len() && (#[trigger] links[i]).id@ == id;
            if i < rest.len() {
                assert(rest[i].id@ == id);
            }
        }
    }
}

/// Of several entries with one id the last counts.
pub proof fn the_last_entry_of_an_id_counts(links: Seq<LinkInfo>, i: int)
    requires
        0 <= i < links.len(),
        forall|j: int| i < j < links.len() ==> (#[trigger] links[j]).id@ != links[i].id@,
    ensures
        loaded(links)[links[i].id@] == links[i],
    decreases links.len(),
{
    if i < links.len() - 1 {
        let rest = links.drop_last();
        assert forall|j: int| i < j < rest.len() implies (#[trigger] rest[j]).id@ != rest[i].id@ by {
            assert(links[j].id@ != links[i].id@);
        }
        the_last_entry_of_an_id_counts(rest, i);
        assert(links[links.len() - 1].id@ != links[i].id@);
    }
}

/// The settings and the data are kept below the home directory, at the usual places.
pub proof fn everything_is_below_home(home: Seq<char>)
    requires
        home.len() > 0,
        home[home.len() - 1] != '/',
    ensures
        config_dir_of(home) == home + "/.config/syncor"@,
        data_dir_of(home) == home + "/.local/share/syncor"@,
{
    reveal_strlit("/");
    reveal_strlit(".config");
    reveal_strlit(".local");
    reveal_strlit("share");
    reveal_strlit("syncor");
    reveal_strlit("/.config/syncor");
    reveal_strlit("/.local/share/syncor");
    let c = joined(home, ".config"@);
    assert(c.last() == 'g');
    assert(config_dir_of(home) =~= home + "/.config/syncor"@);
    let l = joined(home, ".local"@);
    assert(l.last() == 'l');
    let s = joined(l, "share"@);
    assert(s.last() == 'e');
    assert(data_dir_of(home) =~= home + "/.local/share/syncor"@);
}

/// A name in a directory, and what it tells of both.
proof fn name_in_dir(dir: Seq<char>, name: Seq<char>)
    requires
        dir.len() > 0,
        dir[dir.len() - 1] != '/',
        name.len() > 0,
        name[0] != '/',
    ensures
        joined(dir, name) == dir + seq!['/'] + name,
        joined(dir, name).len() == dir.len() + 1 + name.len(),
        joined(dir, name).last() == name.last(),
        joined(dir, name)[dir.len() + 1int] == name[0],
        joined(dir, name).subrange(dir.len() + 1int, joined(dir, name).len() as int) == name,
{
    reveal_strlit("/");
    assert("/"@ =~= seq!['/']);
    assert(joined(dir, name).subrange(dir.len() + 1int, joined(dir, name).len() as int) =~= name);
}

/// The names of the files, as far as they tell them apart.
proof fn file_names()
    ensures
        "config.toml"@.len() == 11 && "config.toml"@[0] == 'c',
        "links.toml"@.len() == 10 && "links.toml"@[0] == 'l',
        "syncor.sock"@.len() == 11 && "syncor.sock"@[0] == 's',
        "daemon.pid"@.len() == 10 && "daemon.pid"@[0] == 'd' && "daemon.pid"@.last() == 'd',
        "daemon.log"@.len() == 10 && "daemon.log"@[0] == 'd' && "daemon.log"@.last() == 'g',
        "state.db"@.len() == 8 && "state.db"@[0] == 's',
        "links"@.len() == 5 && "links"@[0] == 'l',
{
    reveal_strlit("config.toml");
    reveal_strlit("links.toml");
    reveal_strlit("syncor.sock");
    reveal_strlit("daemon.pid");
    reveal_strlit("daemon.log");
    reveal_strlit("state.db");
    reveal_strlit("links");
}

/// The settings and the registry have their places in the directory of the settings.
pub proof fn settings_are_kept_apart(paths: SyncorPaths)
    requires
        paths.config().len() > 0,
        paths.config()[paths.config().len() - 1] != '/',
    ensures
        paths.settings_path() == paths.config() + seq!['/'] + "config.toml"@,
        paths.registry_path() == paths.config() + seq!['/'] + "links.toml"@,
        paths.settings_path() != paths.registry_path(),
{
    file_names();
    name_in_dir(paths.config(), "config.toml"@);
    name_in_dir(paths.config(), "links.toml"@);
}

/// The files of the daemon, the database and the links have their places in the directory of the
/// data, no two the same.
pub proof fn data_are_kept_apart(paths: SyncorPaths)
    requires
        paths.data().len() > 0,
        paths.data()[paths.data().len() - 1] != '/',
    ensures
        paths.socket() == paths.data() + seq!['/'] + "syncor.sock"@,
        paths.pid_path() == paths.data() + seq!['/'] + "daemon.pid"@,
        paths.log_path() == paths.data() + seq!['/'] + "daemon.log"@,
        paths.state_path() == paths.data() + seq!['/'] + "state.db"@,
        paths.links() == paths.data() + seq!['/'] + "links"@,
        paths.pid_path() != paths.log_path(),
        paths.pid_path() != paths.socket(),
        paths.log_path() != paths.socket(),
        paths.state_path() != paths.links(),
{
    file_names();
    let d = paths.data();
    name_in_dir(d, "syncor.sock"@);
    name_in_dir(d, "daemon.pid"@);
    name_in_dir(d, "daemon.log"@);
    name_in_dir(d, "state.db"@);
    name_in_dir(d, "links"@);
}

/// Every link has a checkout and a lock of its own, in the directory of the links: those of two
/// ids are different, and no lock is a checkout of an id of the same length.
pub proof fn links_do_not_share_places(paths: SyncorPaths, a: Seq<char>, b: Seq<char>)
    requires
        paths.links().len() > 0,
        paths.links()[paths.links().len() - 1] != '/',
        a.len() > 0,
        a[0] != '/',
        b.len() > 0,
        b[0] != '/',
    ensures
        paths.repo_of(a) == paths.links() + seq!['/'] + a,
        paths.lock_of(a) == paths.repo_of(a) + ".lock"@,
        a != b ==> paths.repo_of(a) != paths.repo_of(b),
        a != b ==> paths.lock_of(a) != paths.lock_of(b),
        a.len() == b.len() ==> paths.lock_of(a) != paths.repo_of(b),
{
    reveal_strlit(".lock");
    let l = paths.links();
    let x = a + ".lock"@;
    let y = b + ".lock"@;
    assert(x[0] == a[0] && x.len() == a.len() + 5);
    assert(y[0] == b[0] && y.len() == b.len() + 5);
    name_in_dir(l, a);
    name_in_dir(l, b);
    name_in_dir(l, x);
    name_in_dir(l, y);
    assert(l + seq!['/'] + x =~= l + seq!['/'] + a + ".lock"@);
    if paths.lock_of(a) == paths.lock_of(b) {
        assert(x == y);
        assert(x.subrange(0, a.len() as int) =~= a);
        assert(y.subrange(0, b.len() as int) =~= b);
    }
}

/// A link that was added is found: under its id, and by each of its directories. The other links
/// stay as they were. One that was refused leaves no trace.
pub proof fn added_links_are_found(
    m: Links,
    info: LinkInfo,
    n: Links,
    r: Result<()>,
    other: Seq<char>,
    by_id: Option<&LinkInfo>,
    i: int,
    by_dir: Option<&LinkInfo>,
)
    requires
        one_link_per_dir(m),
        under_own_id(m),
        is_addition(m, info, n, r),
        is_under(n, info.id@, by_id),
        0 <= i < info.local_dirs@.len(),
        is_owner(n, info.local_dirs@[i]@, by_dir),
    ensures
        r is Ok ==> by_id == Some(&info),
        r is Ok ==> by_dir == Some(&info),
        r is Ok && other != info.id@ ==> (n.dom().contains(other) <==> m.dom().contains(other))
            && n[other] == m[other],
        r is Err ==> n == m,
{
    if r is Ok {
        let dir = info.local_dirs@[i]@;
        adding_keeps_one_link_per_dir(m, info);
        assert(same_location(dir, dir));
        assert(mounted_at(info, dir));
        assert(n.dom().contains(info.id@) && mounted_at(n[info.id@], dir));
        if let Some(l) = by_dir {
            assert(mounted_at(n[l.id@], dir));
            assert(l.id@ == info.id@);
        }
    }
}

/// A link is removed exactly if it is there; it is not found afterwards, and the others stay as
/// they were. Where there is none, the error names the id.
pub proof fn removed_links_are_gone(
    m: Links,
    id: Seq<char>,
    n: Links,
    r: Result<()>,
    found: Option<&LinkInfo>,
    other: Seq<char>,
)
    requires
        is_removal(m, id, n, r),
        is_under(n, id, found),
    ensures
        r is Ok <==> m.dom().contains(id),
        found is None,
        other != id ==> (n.dom().contains(other) <==> m.dom().contains(other)) && n[other]
            == m[other],
        r matches Err(e) ==> (e matches SyncorError::LinkNotFound(t) && t@ == id) && n == m,
{
    if r is Err {
        assert(n =~= m);
    }
}

/// A link is found by its name exactly if one has it; it is one that has it, as it stands in the
/// registry. The same holds of its directories, by whatever path they are named.
pub proof fn links_are_found_by_name_and_place(
    m: Links,
    id: Seq<char>,
    name: Seq<char>,
    a: Option<&LinkInfo>,
    dir: Seq<char>,
    b: Option<&LinkInfo>,
    j: int,
)
    requires
        is_called(m, name, a),
        is_owner(m, dir, b),
    ensures
        m.dom().contains(id) && m[id].name@ == name ==> a is Some,
        a matches Some(l) ==> l.name@ == name && m.dom().contains(l.id@) && m[l.id@] == *l,
        m.dom().contains(id) && 0 <= j < m[id].local_dirs@.len() && same_location(
            m[id].local_dirs@[j]@,
            dir,
        ) ==> b is Some,
        b matches Some(l) ==> m.dom().contains(l.id@) && m[l.id@] == *l && exists|i: int|
            0 <= i < l.local_dirs@.len() && same_location(#[trigger] l.local_dirs@[i]@, dir),
{
    if m.dom().contains(id) && 0 <= j < m[id].local_dirs@.len() && same_location(
        m[id].local_dirs@[j]@,
        dir,
    ) {
        assert(mounted_at(m[id], dir));
        assert(managed(m, dir));
    }
}

/// What a refusal says: the id that is taken, that a directory is missing, or the directory that
/// is taken.
pub proof fn refusals_say_why(m: Links, info: LinkInfo, n: Links, e: SyncorError)
    requires
        is_addition(m, info, n, Err(e)),
    ensures
        m.dom().contains(info.id@) ==> (e matches SyncorError::LinkAlreadyExists(t) && t@ == "id "@
            + info.id@ + " already registered"@),
        !m.dom().contains(info.id@) && info.local_dirs@.len() == 0 ==> (e matches SyncorError::Config(
            t,
        ) && t@ == "link has no local directory"@),
        !m.dom().contains(info.id@) && info.local_dirs@.len() > 0 ==> (e
            matches SyncorError::LinkAlreadyExists(t) && exists|k: int|
            0 <= k < info.local_dirs@.len() && managed(m, (#[trigger] info.local_dirs@[k])@) && t@
                == "directory "@ + info.local_dirs@[k]@ + " is already managed by another link"@),
{
    first_taken_is_first(m, info.local_dirs@, 0);
}

} // verus!
