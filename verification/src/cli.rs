//! What the commands of the command line decide, and what they say.

use crate::digest::hex_text;
use crate::error::{Result, SyncorError};
use crate::link::{id_text, LinkId, LinkInfo, LinkMode};
use crate::path::{
    file_name, join, joined, last_name, names_are_components, one_name_is_one_component,
    paths_go_by_their_last_name,
};
use crate::sync::engine::{opt_text, PullSyncResult, PushSyncResult, SyncStep};
use crate::sync::pulling::{records_conflict, said_of};
use crate::sync::save::ManifestEntry;
use crate::sync::state::{ConflictRecord, SyncLogEntry};
use crate::text::{
    chars_of, decimal, decimal_text, join2, join3, join4, join5, join_list, same_text, separated,
    slice_text, texts,
};
use crate::transport::RemoteLinkInfo;
use vstd::prelude::*;

verus! {

// ---------------------------------------------------------------------------
// link and connect
// ---------------------------------------------------------------------------

/// The name that a link to `dir` gets unless the user wants another.
pub open spec fn default_name(dir: Seq<char>) -> Seq<char> {
    match last_name(dir) {
        Some(n) => n,
        None => "default"@,
    }
}

/// The name that a link to `dir` gets unless the user wants another.
pub fn default_link_name(dir: &str) -> (r: String)
    ensures
        r@ == default_name(dir@),
{
    match file_name(dir) {
        Some(n) => n,
        None => "default".to_owned(),
    }
}

/// Whether `r` is a new link between a directory and a repository.
pub open spec fn is_new_link(
    repo: Seq<char>,
    name: Seq<char>,
    dir: Seq<char>,
    mode: LinkMode,
    r: LinkInfo,
) -> bool {
    &&& r.id@ == id_text(repo, name)
    &&& r.name@ == name
    &&& r.repo@ == repo
    &&& texts(r.local_dirs@) == seq![dir]
    &&& r.mode == mode
    &&& r.poll_interval_secs is None
}

/// A new link between a directory and a repository.
pub fn new_link(repo: &str, name: &str, dir: &str, mode: LinkMode) -> (r: LinkInfo)
    ensures
        is_new_link(repo@, name@, dir@, mode, r),
{
    let mut local_dirs: Vec<String> = Vec::new();
    local_dirs.push(dir.to_owned());
    assert(texts(local_dirs@) =~= seq![dir@]);
    LinkInfo {
        id: LinkId::from_parts(repo, name),
        name: name.to_owned(),
        repo: repo.to_owned(),
        local_dirs,
        mode,
        poll_interval_secs: None,
    }
}

/// Which of the links of a remote repository to connect to.
#[derive(Debug)]
pub enum ConnectChoice {
    /// None, and why.
    Fail(String),
    Take(String),
    /// The user has to choose among these.
    Ask(Vec<String>),
}

/// The names of remote links.
pub open spec fn names_of(links: Seq<RemoteLinkInfo>) -> Seq<Seq<char>> {
    links.map_values(|l: RemoteLinkInfo| l.name@)
}

/// Whether `r` is the choice among the links: a link that the user named must be there; one link
/// needs no choice.
pub open spec fn is_choice(
    repo: Seq<char>,
    links: Seq<RemoteLinkInfo>,
    wanted: Option<Seq<char>>,
    r: ConnectChoice,
) -> bool {
    let names = names_of(links);
    if links.len() == 0 {
        r matches ConnectChoice::Fail(t) && t@ == "No links found in remote repository: "@ + repo
    } else {
        match wanted {
            Some(name) => if names.contains(name) {
                r matches ConnectChoice::Take(n) && n@ == name
            } else {
                r matches ConnectChoice::Fail(t) && t@ == "Remote link '"@ + name
                    + "' not found. Available: "@ + separated(names, ", "@)
            },
            None => if links.len() == 1 {
                r matches ConnectChoice::Take(n) && n@ == names[0]
            } else {
                r matches ConnectChoice::Ask(v) && texts(v@) == names
            },
        }
    }
}

/// The names of remote links.
fn link_names(links: &Vec<RemoteLinkInfo>) -> (r: Vec<String>)
    ensures
        texts(r@) == names_of(links@),
{
    let mut r: Vec<String> = Vec::new();
    let mut i: usize = 0;
    while i < links.len()
        invariant
            i <= links@.len(),
            texts(r@) == names_of(links@).subrange(0, i as int),
        decreases links@.len() - i,
    {
        let ghost was = texts(r@);
        r.push(links[i].name.clone());
        i = i + 1;
        assert(texts(r@) =~= was.push(links@[i - 1].name@));
        assert(texts(r@) =~= names_of(links@).subrange(0, i as int));
    }
    assert(texts(r@) =~= names_of(links@));
    r
}

/// Whether one of the words is `word`.
fn has_word(words: &Vec<String>, word: &str) -> (r: bool)
    ensures
        r == texts(words@).contains(word@),
{
    let mut i: usize = 0;
    while i < words.len()
        invariant
            i <= words@.len(),
            forall|j: int| 0 <= j < i ==> (#[trigger] words@[j])@ != word@,
        decreases words@.len() - i,
    {
        if same_text(words[i].as_str(), word) {
            assert(texts(words@)[i as int] == word@);
            return true;
        }
        i = i + 1;
    }
    false
}

/// Chooses among the links of a remote repository.
pub fn connect_choice(repo: &str, links: &Vec<RemoteLinkInfo>, wanted: Option<String>) -> (r: ConnectChoice)
    ensures
        is_choice(repo@, links@, opt_text(wanted), r),
{
    if links.len() == 0 {
        return ConnectChoice::Fail(join2("No links found in remote repository: ", repo));
    }
    let names = link_names(links);
    match wanted {
        Some(name) => {
            if has_word(&names, name.as_str()) {
                ConnectChoice::Take(name)
            } else {
                ConnectChoice::Fail(
                    join4(
                        "Remote link '",
                        name.as_str(),
                        "' not found. Available: ",
                        join_list(&names, ", ").as_str(),
                    ),
                )
            }
        },
        None => {
            if links.len() == 1 {
                assert(texts(names@)[0] == names_of(links@)[0]);
                ConnectChoice::Take(links[0].name.clone())
            } else {
                ConnectChoice::Ask(names)
            }
        },
    }
}

/// Where a connected link goes.
pub open spec fn target_of(to: Option<String>, cwd: Seq<char>, name: Seq<char>) -> Seq<char> {
    match to {
        Some(p) => p@,
        None => joined(cwd, name),
    }
}

/// Where a connected link goes: where the user wants it, or under its name in the working
/// directory.
pub fn connect_target(to: Option<String>, cwd: &str, name: &str) -> (r: String)
    ensures
        r@ == target_of(to, cwd@, name@),
{
    match to {
        Some(p) => p,
        None => join(cwd, name),
    }
}

// ---------------------------------------------------------------------------
// push and pull
// ---------------------------------------------------------------------------

/// The positions of the links, among the first `n`, that sync in one direction.
pub open spec fn with_mode(links: Seq<&LinkInfo>, mode: LinkMode, n: nat) -> Seq<int>
    decreases n,
{
    if n == 0 {
        Seq::empty()
    } else if links[n - 1].mode == mode {
        with_mode(links, mode, (n - 1) as nat).push(n - 1)
    } else {
        with_mode(links, mode, (n - 1) as nat)
    }
}

/// Whether `r` are the links that sync in one direction.
pub open spec fn are_with_mode(r: Seq<LinkInfo>, links: Seq<&LinkInfo>, mode: LinkMode) -> bool {
    let which = with_mode(links, mode, links.len());
    &&& r.len() == which.len()
    &&& forall|i: int| 0 <= i < r.len() ==> (#[trigger] r[i]).same(links[which[i]])
}

/// The links that sync in one direction, in their order.
pub fn links_with_mode(links: &Vec<&LinkInfo>, mode: LinkMode) -> (r: Vec<LinkInfo>)
    ensures
        are_with_mode(r@, links@, mode),
{
    let mut r: Vec<LinkInfo> = Vec::new();
    let mut i: usize = 0;
    while i < links.len()
        invariant
            i <= links@.len(),
            r@.len() == with_mode(links@, mode, i as nat).len(),
            forall|j: int|
                0 <= j < r@.len() ==> (#[trigger] r@[j]).same(
                    links@[with_mode(links@, mode, i as nat)[j]],
                ),
        decreases links@.len() - i,
    {
        if links[i].mode == mode {
            r.push(links[i].clone());
        }
        i = i + 1;
    }
    r
}

/// What there is to say when no link syncs in a direction.
pub open spec fn no_links_text(mode: LinkMode) -> Seq<char> {
    match mode {
        LinkMode::Push => "No push-mode links found."@,
        LinkMode::Pull => "No pull-mode links found."@,
    }
}

/// What there is to say when no link syncs in a direction.
pub fn no_links_line(mode: LinkMode) -> (r: &'static str)
    ensures
        r@ == no_links_text(mode),
{
    match mode {
        LinkMode::Push => "No push-mode links found.",
        LinkMode::Pull => "No pull-mode links found.",
    }
}

/// The snapshot of a push, or a stand-in.
fn snapshot_text(r: &PushSyncResult) -> (t: String)
    ensures
        t@ == (match opt_text(r.snapshot_id) {
            Some(id) => id,
            None => "n/a"@,
        }),
{
    match &r.snapshot_id {
        Some(id) => id.clone(),
        None => "n/a".to_owned(),
    }
}

/// What is said of a snapshot.
pub open spec fn snapshot_or_none(r: PushSyncResult) -> Seq<char> {
    match opt_text(r.snapshot_id) {
        Some(id) => id,
        None => "n/a"@,
    }
}

/// What is said of a push.
pub open spec fn push_text(result: Result<PushSyncResult>) -> Seq<char> {
    match result {
        Ok(p) => if p.pushed {
            "done (snapshot: "@ + snapshot_or_none(p) + ")"@
        } else {
            "nothing to push."@
        },
        Err(e) => "error: "@ + e.text(),
    }
}

/// What is said of a push.
pub fn push_line(result: &Result<PushSyncResult>) -> (r: String)
    ensures
        r@ == push_text(*result),
{
    match result {
        Ok(p) => {
            if p.pushed {
                join3("done (snapshot: ", snapshot_text(p).as_str(), ")")
            } else {
                "nothing to push.".to_owned()
            }
        },
        Err(e) => join2("error: ", e.message().as_str()),
    }
}

/// What is said of a pull.
pub open spec fn pull_text(result: Result<PullSyncResult>) -> Seq<char> {
    match result {
        Ok(p) => if p.restored {
            "done ("@ + decimal(p.files_restored as nat) + " files restored)."@
        } else {
            "already up to date."@
        },
        Err(e) => "error: "@ + e.text(),
    }
}

/// What is said of a pull.
pub fn pull_line(result: &Result<PullSyncResult>) -> (r: String)
    ensures
        r@ == pull_text(*result),
{
    match result {
        Ok(p) => {
            if p.restored {
                join3("done (", decimal_text(p.files_restored as u64).as_str(), " files restored).")
            } else {
                "already up to date.".to_owned()
            }
        },
        Err(e) => join2("error: ", e.message().as_str()),
    }
}

/// A line for the user, and where it goes.
#[derive(Debug)]
pub enum CliLine {
    Out(String),
    Warning(String),
}

/// Whether `r` is what is said of the push that follows a new link.
pub open spec fn is_first_push_line(result: Result<PushSyncResult>, r: CliLine) -> bool {
    match result {
        Ok(p) => r matches CliLine::Out(t) && t@ == if p.pushed {
            "Initial push complete (snapshot: "@ + snapshot_or_none(p) + ")"@
        } else {
            "Nothing to push."@
        },
        Err(e) => r matches CliLine::Warning(t) && t@ == "Warning: initial push failed: "@ + e.text(),
    }
}

/// What is said of the push that follows a new link.
pub fn initial_push_line(result: &Result<PushSyncResult>) -> (r: CliLine)
    ensures
        is_first_push_line(*result, r),
{
    match result {
        Ok(p) => CliLine::Out(
            if p.pushed {
                join3("Initial push complete (snapshot: ", snapshot_text(p).as_str(), ")")
            } else {
                "Nothing to push.".to_owned()
            },
        ),
        Err(e) => CliLine::Warning(join2("Warning: initial push failed: ", e.message().as_str())),
    }
}

/// Whether `r` is what is said of the restore that follows a new connection.
pub open spec fn is_first_restore_line(result: Result<PullSyncResult>, r: CliLine) -> bool {
    match result {
        Ok(p) => r matches CliLine::Out(t) && t@ == if p.restored {
            "Restored "@ + decimal(p.files_restored as nat) + " file(s)."@
        } else {
            "No snapshots to restore."@
        },
        Err(e) => r matches CliLine::Warning(t) && t@ == "Warning: initial restore failed: "@
            + e.text(),
    }
}

/// What is said of the restore that follows a new connection.
pub fn initial_restore_line(result: &Result<PullSyncResult>) -> (r: CliLine)
    ensures
        is_first_restore_line(*result, r),
{
    match result {
        Ok(p) => CliLine::Out(
            if p.restored {
                join3("Restored ", decimal_text(p.files_restored as u64).as_str(), " file(s).")
            } else {
                "No snapshots to restore.".to_owned()
            },
        ),
        Err(e) => CliLine::Warning(
            join2("Warning: initial restore failed: ", e.message().as_str()),
        ),
    }
}

// ---------------------------------------------------------------------------
// status and log
// ---------------------------------------------------------------------------

/// What a direction is called.
pub open spec fn mode_name(mode: LinkMode) -> Seq<char> {
    match mode {
        LinkMode::Push => "push"@,
        LinkMode::Pull => "pull"@,
    }
}

/// What is said of a link.
pub open spec fn status_of(
    link: LinkInfo,
    has_conflicts: bool,
    last_sync: Option<Seq<char>>,
) -> Seq<Seq<char>> {
    let dir = link.local_dirs@[0]@;
    let head = seq![
        "  "@ + link.name@ + " ["@ + mode_name(link.mode) + ("] ("@ + dir + ")"@),
        "    repo: "@ + link.repo@,
        "    last sync: "@ + (match last_sync {
            Some(t) => t,
            None => "never"@,
        }),
    ];
    let warning = if has_conflicts {
        seq!["    !! CONFLICTS — run 'syncor resolve "@ + dir + "'"@]
    } else {
        Seq::empty()
    };
    head + warning + seq![Seq::<char>::empty()]
}

/// What is said of a link.
pub fn status_lines(link: &LinkInfo, has_conflicts: bool, last_sync: Option<String>) -> (r: Vec<
    String,
>)
    requires
        link.local_dirs@.len() > 0,
    ensures
        texts(r@) == status_of(*link, has_conflicts, opt_text(last_sync)),
{
    let dir = link.primary_dir();
    let mode = match link.mode {
        LinkMode::Push => "push",
        LinkMode::Pull => "pull",
    };
    let since = match &last_sync {
        Some(t) => t.as_str(),
        None => "never",
    };
    let head = join4("  ", link.name.as_str(), " [", mode);
    let tail = join3("] (", dir.as_str(), ")");
    let mut r: Vec<String> = Vec::new();
    r.push(join2(head.as_str(), tail.as_str()));
    r.push(join2("    repo: ", link.repo.as_str()));
    r.push(join2("    last sync: ", since));
    if has_conflicts {
        r.push(join3("    !! CONFLICTS — run 'syncor resolve ", dir.as_str(), "'"));
    }
    r.push(String::new());
    assert(texts(r@) =~= status_of(*link, has_conflicts, opt_text(last_sync)));
    r
}

/// What is said of an entry of the sync log.
pub open spec fn log_text(entry: SyncLogEntry) -> Seq<char> {
    "  ["@ + entry.created_at@ + "] "@ + entry.action@ + (" — "@ + entry.status@ + " "@ + (
    match opt_text(entry.message) {
        Some(m) => m,
        None => Seq::<char>::empty(),
    }))
}

/// What is said of an entry of the sync log.
pub fn log_line(entry: &SyncLogEntry) -> (r: String)
    ensures
        r@ == log_text(*entry),
{
    let head = join4("  [", entry.created_at.as_str(), "] ", entry.action.as_str());
    let message = match &entry.message {
        Some(m) => m.clone(),
        None => String::new(),
    };
    let tail = join4(" — ", entry.status.as_str(), " ", message.as_str());
    join2(head.as_str(), tail.as_str())
}

/// How many entries of the sync log are shown.
pub const LOG_LINES: usize = 50;

// ---------------------------------------------------------------------------
// resolve
// ---------------------------------------------------------------------------

/// How to resolve a conflict.
#[derive(Debug)]
pub enum ResolveStep {
    /// Leave the local file as it is.
    Keep,
    /// Write the remote version.
    WriteRemote { hash_hex: String, dest: String },
    /// The remote version is not at hand.
    NoPacks,
    /// The remote side deleted the file: delete it here, if it is there.
    Remove { dest: String },
}

/// Whether `r` resolves a conflict as the user chose.
pub open spec fn is_resolution(
    c: ConflictRecord,
    use_remote: bool,
    packs_exist: bool,
    dir: Seq<char>,
    r: ResolveStep,
) -> bool {
    if !use_remote {
        r is Keep
    } else {
        match c.remote_hash {
            Some(h) => if packs_exist {
                r matches ResolveStep::WriteRemote { hash_hex, dest } && hash_hex == h && dest@
                    == joined(dir, c.file_path@)
            } else {
                r is NoPacks
            },
            None => r matches ResolveStep::Remove { dest } && dest@ == joined(dir, c.file_path@),
        }
    }
}

/// Resolves a conflict as the user chose.
pub fn resolve_step(c: &ConflictRecord, use_remote: bool, packs_exist: bool, dir: &str) -> (r: ResolveStep)
    ensures
        is_resolution(*c, use_remote, packs_exist, dir@, r),
{
    if !use_remote {
        return ResolveStep::Keep;
    }
    match &c.remote_hash {
        Some(h) => {
            if packs_exist {
                ResolveStep::WriteRemote {
                    hash_hex: h.clone(),
                    dest: join(dir, c.file_path.as_str()),
                }
            } else {
                ResolveStep::NoPacks
            }
        },
        None => ResolveStep::Remove { dest: join(dir, c.file_path.as_str()) },
    }
}

/// What is said once a conflict is resolved.
pub open spec fn resolved_text(step: ResolveStep) -> Seq<char> {
    match step {
        ResolveStep::Keep => "    -> Kept local version."@,
        ResolveStep::WriteRemote { .. } => "    -> Applied remote version."@,
        ResolveStep::NoPacks => "    -> Pack directory not found, skipping."@,
        ResolveStep::Remove { .. } => "    -> Removed local file (remote deleted)."@,
    }
}

/// What is said once a conflict is resolved.
pub fn resolved_line(step: &ResolveStep) -> (r: &'static str)
    ensures
        r@ == resolved_text(*step),
{
    match step {
        ResolveStep::Keep => "    -> Kept local version.",
        ResolveStep::WriteRemote { .. } => "    -> Applied remote version.",
        ResolveStep::NoPacks => "    -> Pack directory not found, skipping.",
        ResolveStep::Remove { .. } => "    -> Removed local file (remote deleted).",
    }
}

/// The beginning of a hash, enough to tell it by.
pub open spec fn short(hash: Seq<char>) -> Seq<char> {
    if hash.len() > 16 {
        hash.subrange(0, 16)
    } else {
        hash
    }
}

/// The beginning of a hash, enough to tell it by.
fn short_hash(hash: &String) -> (r: String)
    ensures
        r@ == short(hash@),
{
    let cs = chars_of(hash.as_str());
    if cs.len() > 16 {
        slice_text(&cs, 0, 16)
    } else {
        hash.clone()
    }
}

/// What is said of a conflict.
pub open spec fn conflict_of(c: ConflictRecord) -> Seq<Seq<char>> {
    let local = match c.local_hash {
        Some(h) => seq!["    local hash:  "@ + short(h@)],
        None => Seq::empty(),
    };
    let remote = match c.remote_hash {
        Some(h) => seq!["    remote hash: "@ + short(h@)],
        None => Seq::empty(),
    };
    seq!["\n  File: "@ + c.file_path@] + local + remote
}

/// What is said of a conflict.
pub fn conflict_lines(c: &ConflictRecord) -> (r: Vec<String>)
    ensures
        texts(r@) == conflict_of(*c),
{
    let mut r: Vec<String> = Vec::new();
    r.push(join2("\n  File: ", c.file_path.as_str()));
    match &c.local_hash {
        Some(h) => {
            r.push(join2("    local hash:  ", short_hash(h).as_str()));
        },
        None => {},
    }
    match &c.remote_hash {
        Some(h) => {
            r.push(join2("    remote hash: ", short_hash(h).as_str()));
        },
        None => {},
    }
    assert(texts(r@) =~= conflict_of(*c));
    r
}

/// What is said before the conflicts of a link.
pub open spec fn heading_text(count: nat, name: Seq<char>) -> Seq<char> {
    if count == 0 {
        "No conflicts for "@ + name + "."@
    } else {
        "Found "@ + decimal(count) + " conflict(s) for "@ + name + ":"@
    }
}

/// What is said before the conflicts of a link.
pub fn conflicts_heading(count: usize, name: &str) -> (r: String)
    ensures
        r@ == heading_text(count as nat, name@),
{
    if count == 0 {
        join3("No conflicts for ", name, ".")
    } else {
        join5("Found ", decimal_text(count as u64).as_str(), " conflict(s) for ", name, ":")
    }
}

// ---------------------------------------------------------------------------
// Laws
// ---------------------------------------------------------------------------

/// Keeping the local side never touches a file.
pub proof fn keeping_touches_nothing(
    c: ConflictRecord,
    packs_exist: bool,
    dir: Seq<char>,
    r: ResolveStep,
)
    requires
        is_resolution(c, false, packs_exist, dir, r),
    ensures
        r is Keep,
{
}

/// A name that the user gives is never replaced by another.
pub proof fn a_wanted_link_is_taken_or_refused(
    repo: Seq<char>,
    links: Seq<RemoteLinkInfo>,
    name: Seq<char>,
    r: ConnectChoice,
)
    requires
        is_choice(repo, links, Some(name), r),
    ensures
        r matches ConnectChoice::Take(n) ==> n@ == name && names_of(links).contains(name),
        !(r is Ask),
{
}

/// The links that sync in one direction are all of them that do, each once and in their order, and
/// none that does not.
pub proof fn links_go_by_their_mode(links: Seq<&LinkInfo>, mode: LinkMode, n: nat, i: int)
    requires
        n <= links.len(),
        0 <= i < n,
    ensures
        with_mode(links, mode, n).contains(i) <==> links[i].mode == mode,
        forall|a: int|
            0 <= a < with_mode(links, mode, n).len() ==> 0 <= #[trigger] with_mode(
                links,
                mode,
                n,
            )[a] < n,
        forall|a: int, b: int|
            0 <= a < b < with_mode(links, mode, n).len() ==> #[trigger] with_mode(links, mode, n)[a]
                < #[trigger] with_mode(links, mode, n)[b],
{
    modes_ascend(links, mode, n);
    let now = with_mode(links, mode, n);
    if now.contains(i) {
        let a = choose|a: int| 0 <= a < now.len() && now[a] == i;
        assert(links[now[a]].mode == mode);
    }
    if links[i].mode == mode {
        let a = choose|a: int| 0 <= a < now.len() && #[trigger] now[a] == i;
        assert(now[a] == i);
    }
}

/// The positions of the links that sync in one direction.
proof fn modes_ascend(links: Seq<&LinkInfo>, mode: LinkMode, n: nat)
    requires
        n <= links.len(),
    ensures
        forall|a: int|
            0 <= a < with_mode(links, mode, n).len() ==> {
                let p = #[trigger] with_mode(links, mode, n)[a];
                0 <= p < n && links[p].mode == mode
            },
        forall|a: int, b: int|
            0 <= a < b < with_mode(links, mode, n).len() ==> #[trigger] with_mode(links, mode, n)[a]
                < #[trigger] with_mode(links, mode, n)[b],
        forall|p: int|
            0 <= p < n && (#[trigger] links[p]).mode == mode ==> exists|a: int|
                0 <= a < with_mode(links, mode, n).len() && #[trigger] with_mode(links, mode, n)[a]
                    == p,
    decreases n,
{
    if n > 0 {
        modes_ascend(links, mode, (n - 1) as nat);
        let was = with_mode(links, mode, (n - 1) as nat);
        let now = with_mode(links, mode, n);
        assert forall|a: int| 0 <= a < now.len() implies {
            let p = #[trigger] now[a];
            0 <= p < n && links[p].mode == mode
        } by {
            if a < was.len() {
                assert(now[a] == was[a]);
            }
        }
        assert forall|a: int, b: int| 0 <= a < b < now.len() implies #[trigger] now[a]
            < #[trigger] now[b] by {
            assert(now[a] == was[a]);
            if b < was.len() {
                assert(now[b] == was[b]);
            }
        }
        assert forall|p: int| 0 <= p < n && (#[trigger] links[p]).mode == mode implies exists|a: int|
            0 <= a < now.len() && #[trigger] now[a] == p by {
            if p < n - 1 {
                let a = choose|a: int| 0 <= a < was.len() && #[trigger] was[a] == p;
                assert(now[a] == p);
            } else {
                assert(now[was.len() as int] == p);
            }
        }
    }
}

/// A link is taken exactly if the user named it and it is there, or named none and it is the only
/// one. The user is asked exactly if they named none and there are several, and is offered all of
/// them. Otherwise there is nothing to connect to.
pub proof fn choices_leave_no_doubt(
    repo: Seq<char>,
    links: Seq<RemoteLinkInfo>,
    wanted: Option<Seq<char>>,
    r: ConnectChoice,
)
    requires
        is_choice(repo, links, wanted, r),
    ensures
        r is Take <==> match wanted {
            Some(name) => exists|i: int| 0 <= i < links.len() && (#[trigger] links[i]).name@ == name,
            None => links.len() == 1,
        },
        r matches ConnectChoice::Take(n) ==> n@ == (match wanted {
            Some(name) => name,
            None => links[0].name@,
        }),
        r is Ask <==> wanted is None && links.len() > 1,
        r matches ConnectChoice::Ask(v) ==> v@.len() == links.len() && forall|i: int|
            0 <= i < links.len() ==> (#[trigger] v@[i])@ == links[i].name@,
        links.len() == 0 ==> r is Fail,
{
    let names = names_of(links);
    assert(names.len() == links.len());
    if let Some(name) = wanted {
        if names.contains(name) {
            let i = choose|i: int| 0 <= i < names.len() && names[i] == name;
            assert(links[i].name@ == name);
        }
        if exists|i: int| 0 <= i < links.len() && (#[trigger] links[i]).name@ == name {
            let i = choose|i: int| 0 <= i < links.len() && (#[trigger] links[i]).name@ == name;
            assert(names[i] == name);
        }
    }
    if let ConnectChoice::Ask(v) = r {
        assert(texts(v@).len() == v@.len());
        assert forall|i: int| 0 <= i < links.len() implies (#[trigger] v@[i])@ == links[i].name@ by {
            assert(texts(v@)[i] == names[i]);
        }
    }
}

/// A conflict that is resolved for the remote side gets what the remote side had when it was
/// recorded: its content at the path of the conflict, or no file where it had none.
pub proof fn resolving_takes_the_remote_version(
    s: SyncStep,
    c: ConflictRecord,
    link_id: Seq<char>,
    base: Seq<ManifestEntry>,
    local: Map<Seq<char>, [u8; 16]>,
    remote: Seq<ManifestEntry>,
    path: Seq<char>,
    dir: Seq<char>,
    r: ResolveStep,
)
    requires
        s == SyncStep::RecordConflict(c),
        records_conflict(s, link_id, base, local, remote, path),
        is_resolution(c, true, true, dir, r),
    ensures
        match said_of(remote, path) {
            Some(e) => r matches ResolveStep::WriteRemote { hash_hex, dest } && hash_hex@ == hex_text(
                e.blob_hash@,
            ) && dest@ == joined(dir, path),
            None => r matches ResolveStep::Remove { dest } && dest@ == joined(dir, path),
        },
{
}

/// What a resolution does depends on the choice of the user alone, and on whether the packs are
/// there for a content that has to come out of them.
pub proof fn resolutions_follow_the_choice(
    c: ConflictRecord,
    use_remote: bool,
    packs_exist: bool,
    dir: Seq<char>,
    r: ResolveStep,
)
    requires
        is_resolution(c, use_remote, packs_exist, dir, r),
    ensures
        r is Keep <==> !use_remote,
        r is NoPacks <==> use_remote && c.remote_hash is Some && !packs_exist,
        r is WriteRemote <==> use_remote && c.remote_hash is Some && packs_exist,
        r is Remove <==> use_remote && c.remote_hash is None,
        r matches ResolveStep::WriteRemote { hash_hex, dest } ==> c.remote_hash == Some(hash_hex)
            && dest@ == joined(dir, c.file_path@),
        r matches ResolveStep::Remove { dest } ==> dest@ == joined(dir, c.file_path@),
{
}

/// A hash is shown by its first characters, all of it if it is no longer than that.
pub proof fn hashes_are_shown_by_their_beginning(hash: Seq<char>)
    ensures
        short(hash).len() == (if hash.len() < 16 {
            hash.len()
        } else {
            16
        }),
        forall|i: int| 0 <= i < short(hash).len() ==> #[trigger] short(hash)[i] == hash[i],
{
}

/// What is said of a conflict names the file first, then each version that there is, the local one
/// before the remote one.
pub proof fn conflicts_name_their_versions(c: ConflictRecord)
    ensures
        ({
            let lines = conflict_of(c);
            let n: int = if c.local_hash is Some {
                1
            } else {
                0
            };
            &&& lines[0] == "\n  File: "@ + c.file_path@
            &&& lines.len() == 1 + n + (if c.remote_hash is Some {
                1int
            } else {
                0
            })
            &&& c.local_hash matches Some(h) ==> lines[1] == "    local hash:  "@ + short(h@)
            &&& c.remote_hash matches Some(h) ==> lines[n + 1] == "    remote hash: "@ + short(h@)
        }),
{
}

/// What is said of a link: its name, its direction and its directory; its repository; when it was
/// last synced, or that it never was; and a warning exactly if it has conflicts.
pub proof fn status_tells_of_conflicts(
    link: LinkInfo,
    has_conflicts: bool,
    last_sync: Option<Seq<char>>,
)
    ensures
        ({
            let lines = status_of(link, has_conflicts, last_sync);
            let dir = link.local_dirs@[0]@;
            &&& lines[0] == "  "@ + link.name@ + " ["@ + (if link.mode is Push {
                "push"@
            } else {
                "pull"@
            }) + ("] ("@ + dir + ")"@)
            &&& lines[1] == "    repo: "@ + link.repo@
            &&& last_sync matches Some(t) ==> lines[2] == "    last sync: "@ + t
            &&& last_sync is None ==> lines[2] == "    last sync: "@ + "never"@
            &&& has_conflicts ==> lines.len() == 5 && lines[3]
                == "    !! CONFLICTS — run 'syncor resolve "@ + dir + "'"@
            &&& !has_conflicts ==> lines.len() == 4
            &&& lines.last().len() == 0
        }),
{
}

/// The line on a push names the snapshot that was pushed, or says that there was nothing to push;
/// different snapshots and different errors make different lines.
pub proof fn push_lines_tell_what_happened(a: PushSyncResult, b: PushSyncResult, e: SyncorError)
    requires
        a.pushed,
        b.pushed,
    ensures
        a.snapshot_id matches Some(id) ==> push_text(Ok(a)) == "done (snapshot: "@ + id@ + ")"@,
        a.snapshot_id is None ==> push_text(Ok(a)) == "done (snapshot: "@ + "n/a"@ + ")"@,
        forall|p: PushSyncResult| !p.pushed ==> #[trigger] push_text(Ok(p)) == "nothing to push."@,
        push_text(Err(e)) == "error: "@ + e.text(),
        a.snapshot_id is Some && b.snapshot_id is Some && push_text(Ok(a)) == push_text(Ok(b))
            ==> a.snapshot_id->Some_0@ == b.snapshot_id->Some_0@,
{
    if a.snapshot_id is Some && b.snapshot_id is Some && push_text(Ok(a)) == push_text(Ok(b)) {
        let x = a.snapshot_id->Some_0@;
        let y = b.snapshot_id->Some_0@;
        let front = "done (snapshot: "@;
        let behind = ")"@;
        reveal_strlit("done (snapshot: ");
        reveal_strlit(")");
        assert((front + x + behind).len() == front.len() + x.len() + 1);
        assert((front + y + behind).len() == front.len() + y.len() + 1);
        assert(x =~= (front + x + behind).subrange(front.len() as int, front.len() + x.len() as int));
        assert(y =~= (front + y + behind).subrange(front.len() as int, front.len() + y.len() as int));
    }
}

/// The line on a pull tells how many files were restored, or that there was nothing new.
pub proof fn pull_lines_tell_what_happened(p: PullSyncResult, e: SyncorError)
    ensures
        p.restored ==> pull_text(Ok(p)) == "done ("@ + decimal(p.files_restored as nat)
            + " files restored)."@,
        !p.restored ==> pull_text(Ok(p)) == "already up to date."@,
        pull_text(Err(e)) == "error: "@ + e.text(),
{
}

/// A link goes by the name of its directory, unless that is a dot or two; a trailing separator
/// makes no difference.
pub proof fn links_go_by_their_directory(p: Seq<char>, name: Seq<char>)
    requires
        name.len() > 0,
        forall|i: int| 0 <= i < name.len() ==> #[trigger] name[i] != '/',
        name != seq!['.'],
    ensures
        name != seq!['.', '.'] ==> default_name(p + seq!['/'] + name) == name,
        name == seq!['.', '.'] ==> default_name(p + seq!['/'] + name) == "default"@,
        default_name(p + seq!['/'] + name + seq!['/']) == default_name(p + seq!['/'] + name),
        default_name(seq!['/']) == "default"@,
{
    paths_go_by_their_last_name(p, name);
    let none = Seq::<char>::empty();
    names_are_components(none, none);
    one_name_is_one_component(none);
    assert(none + seq!['/'] + none =~= seq!['/']);
}

/// A new link has one directory, the one that it is made for, and the id of its repository and
/// name: two links have the same id if they have both in common.
pub proof fn new_links_have_one_directory(
    repo: Seq<char>,
    name: Seq<char>,
    dir: Seq<char>,
    mode: LinkMode,
    a: LinkInfo,
    other: Seq<char>,
    other_mode: LinkMode,
    b: LinkInfo,
)
    requires
        is_new_link(repo, name, dir, mode, a),
        is_new_link(repo, name, other, other_mode, b),
    ensures
        a.local_dirs@.len() == 1,
        a.local_dirs@[0]@ == dir,
        a.repo@ == repo,
        a.name@ == name,
        a.mode == mode,
        a.poll_interval_secs is None,
        a.id@ == b.id@,
        a.id@ == id_text(repo, name),
{
    let t = texts(a.local_dirs@);
    assert(t.len() == a.local_dirs@.len());
    assert(t[0] == a.local_dirs@[0]@);
}

/// A link is connected where the user wants it, and otherwise in a directory of its name in the
/// working directory.
pub proof fn links_are_connected_where_wanted(to: Option<String>, cwd: Seq<char>, name: Seq<char>)
    ensures
        to matches Some(p) ==> target_of(to, cwd, name) == p@,
        to is None && cwd.len() > 0 && cwd[cwd.len() - 1] != '/' && !(name.len() > 0 && name[0]
            == '/') ==> target_of(to, cwd, name) == cwd + seq!['/'] + name,
{
    reveal_strlit("/");
    assert("/"@ =~= seq!['/']);
}

/// What went wrong after a link was made is a warning and names the error; what went well is said
/// plainly, with the snapshot or the number of files.
pub proof fn first_syncs_warn_of_errors(
    push: Result<PushSyncResult>,
    a: CliLine,
    restore: Result<PullSyncResult>,
    b: CliLine,
)
    requires
        is_first_push_line(push, a),
        is_first_restore_line(restore, b),
    ensures
        a is Warning <==> push is Err,
        push matches Err(e) ==> (a matches CliLine::Warning(t) && t@
            == "Warning: initial push failed: "@ + e.text()),
        push matches Ok(p) ==> (p.pushed ==> (p.snapshot_id matches Some(id) ==> (a
            matches CliLine::Out(t) && t@ == "Initial push complete (snapshot: "@ + id@ + ")"@))),
        push matches Ok(p) ==> (!p.pushed ==> (a matches CliLine::Out(t) && t@
            == "Nothing to push."@)),
        b is Warning <==> restore is Err,
        restore matches Err(e) ==> (b matches CliLine::Warning(t) && t@
            == "Warning: initial restore failed: "@ + e.text()),
        restore matches Ok(p) ==> (p.restored ==> (b matches CliLine::Out(t) && t@ == "Restored "@
            + decimal(p.files_restored as nat) + " file(s)."@)),
        restore matches Ok(p) ==> (!p.restored ==> (b matches CliLine::Out(t) && t@
            == "No snapshots to restore."@)),
{
}

/// Whoever asks for the links of one direction gets every one that syncs so, and no other.
pub proof fn all_links_of_a_mode_are_found(
    r: Seq<LinkInfo>,
    links: Seq<&LinkInfo>,
    mode: LinkMode,
    i: int,
    k: int,
)
    requires
        are_with_mode(r, links, mode),
        0 <= i < links.len(),
    ensures
        links[i].mode == mode ==> exists|a: int| 0 <= a < r.len() && (#[trigger] r[a]).same(links[i]),
        0 <= k < r.len() ==> r[k].mode == mode && exists|a: int|
            0 <= a < links.len() && r[k].same(#[trigger] links[a]),
{
    let which = with_mode(links, mode, links.len());
    links_go_by_their_mode(links, mode, links.len(), i);
    if links[i].mode == mode {
        let a = choose|a: int| 0 <= a < which.len() && which[a] == i;
        assert(r[a].same(links[which[a]]));
    }
    if 0 <= k < r.len() {
        let a = which[k];
        links_go_by_their_mode(links, mode, links.len(), a);
        assert(which.contains(a));
        assert(r[k].same(links[which[k]]));
        assert(r[k].same(links[a]));
    }
}

/// What is said of a resolution tells what was done: no two ways to resolve a conflict are
/// described alike.
pub proof fn resolutions_are_told_apart(a: ResolveStep, b: ResolveStep)
    requires
        resolved_text(a) == resolved_text(b),
    ensures
        a is Keep <==> b is Keep,
        a is WriteRemote <==> b is WriteRemote,
        a is NoPacks <==> b is NoPacks,
        a is Remove <==> b is Remove,
        a is Keep ==> resolved_text(a) == "    -> Kept local version."@,
        a is WriteRemote ==> resolved_text(a) == "    -> Applied remote version."@,
        a is NoPacks ==> resolved_text(a) == "    -> Pack directory not found, skipping."@,
        a is Remove ==> resolved_text(a) == "    -> Removed local file (remote deleted)."@,
{
    reveal_strlit("    -> Kept local version.");
    reveal_strlit("    -> Applied remote version.");
    reveal_strlit("    -> Pack directory not found, skipping.");
    reveal_strlit("    -> Removed local file (remote deleted).");
    assert("    -> Kept local version."@[7] == 'K');
    assert("    -> Applied remote version."@[7] == 'A');
    assert("    -> Pack directory not found, skipping."@[7] == 'P');
    assert("    -> Removed local file (remote deleted)."@[7] == 'R');
}

/// The heading of the conflicts tells how many there are, exactly if there are any.
pub proof fn headings_count_the_conflicts(count: nat, name: Seq<char>, mode: LinkMode)
    ensures
        heading_text(0, name) == "No conflicts for "@ + name + "."@,
        count > 0 ==> heading_text(count, name) == "Found "@ + decimal(count)
            + " conflict(s) for "@ + name + ":"@,
        mode is Push ==> no_links_text(mode) == "No push-mode links found."@,
        mode is Pull ==> no_links_text(mode) == "No pull-mode links found."@,
{
}

/// An entry of the log is told by its time, what was done, what came of it, and its message where
/// it has one.
pub proof fn log_lines_tell_everything(entry: SyncLogEntry)
    ensures
        entry.message is None ==> log_text(entry) == "  ["@ + entry.created_at@ + "] "@
            + entry.action@ + (" — "@ + entry.status@ + " "@),
        entry.message matches Some(m) ==> log_text(entry) == "  ["@ + entry.created_at@ + "] "@
            + entry.action@ + (" — "@ + entry.status@ + " "@ + m@),
{
    if entry.message is None {
        let tail = " — "@ + entry.status@ + " "@;
        assert(tail + Seq::<char>::empty() =~= tail);
    }
}

} // verus!
