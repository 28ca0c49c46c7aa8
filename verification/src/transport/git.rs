//! The git transport: which git commands a push, a pull and the rest run, and what their answers
//! mean. Running them is left to the caller.

use crate::config::SyncorPaths;
use crate::error::{Result, SyncorError};
use crate::link::LinkInfo;
use crate::path::{join, joined};
use crate::progress::Phase;
use crate::sync::repo::RepoManifest;
use crate::text::{
    contains_text, decimal, decimal_text, join2, join4, join5, join_list, occurs_behind, occurs_in,
    same_text, separated, texts, trim, trimmed, trimming_keeps,
};
use crate::transport::{ConflictInfo, PullResult, PushResult, RemoteLinkInfo};
use vstd::prelude::*;

verus! {

// ---------------------------------------------------------------------------
// Command lines
// ---------------------------------------------------------------------------

/// A command line of one word.
pub fn words1(a: &str) -> (r: Vec<String>)
    ensures
        texts(r@) == seq![a@],
{
    let mut r: Vec<String> = Vec::new();
    r.push(a.to_owned());
    assert(texts(r@) =~= seq![a@]);
    r
}

/// A command line of two words.
pub fn words2(a: &str, b: &str) -> (r: Vec<String>)
    ensures
        texts(r@) == seq![a@, b@],
{
    let mut r = words1(a);
    let ghost was = texts(r@);
    r.push(b.to_owned());
    assert(texts(r@) =~= was.push(b@));
    assert(texts(r@) =~= seq![a@, b@]);
    r
}

/// A command line of three words.
pub fn words3(a: &str, b: &str, c: &str) -> (r: Vec<String>)
    ensures
        texts(r@) == seq![a@, b@, c@],
{
    let mut r = words2(a, b);
    let ghost was = texts(r@);
    r.push(c.to_owned());
    assert(texts(r@) =~= was.push(c@));
    assert(texts(r@) =~= seq![a@, b@, c@]);
    r
}

/// A command line of four words.
pub fn words4(a: &str, b: &str, c: &str, d: &str) -> (r: Vec<String>)
    ensures
        texts(r@) == seq![a@, b@, c@, d@],
{
    let mut r = words3(a, b, c);
    let ghost was = texts(r@);
    r.push(d.to_owned());
    assert(texts(r@) =~= was.push(d@));
    assert(texts(r@) =~= seq![a@, b@, c@, d@]);
    r
}

/// A command line of five words.
pub fn words5(a: &str, b: &str, c: &str, d: &str, e: &str) -> (r: Vec<String>)
    ensures
        texts(r@) == seq![a@, b@, c@, d@, e@],
{
    let mut r = words4(a, b, c, d);
    let ghost was = texts(r@);
    r.push(e.to_owned());
    assert(texts(r@) =~= was.push(e@));
    assert(texts(r@) =~= seq![a@, b@, c@, d@, e@]);
    r
}

/// Whether an error reports that a git command ran and failed.
pub open spec fn is_git_failure(words: Seq<Seq<char>>, stderr: Seq<char>, e: SyncorError) -> bool {
    e matches SyncorError::Transport(t) && t@ == "git "@ + separated(words, " "@) + " failed: "@
        + trimmed(stderr)
}

/// The error of a git command that ran and failed.
pub fn git_failure(args: &Vec<String>, stderr: &str) -> (r: SyncorError)
    ensures
        is_git_failure(texts(args@), stderr@, r),
{
    SyncorError::Transport(
        join4("git ", join_list(args, " ").as_str(), " failed: ", trim(stderr).as_str()),
    )
}

// ---------------------------------------------------------------------------
// Retrying
// ---------------------------------------------------------------------------

/// Whether a message reports that the remote side did not accept the user's credentials, or that
/// there were none to offer.
pub open spec fn reports_denial(m: Seq<char>) -> bool {
    ||| occurs_in(m, "Authentication failed"@)
    ||| occurs_in(m, "could not read Username"@)
    ||| occurs_in(m, "Permission denied (publickey"@)
}

/// Whether an error may go away by itself. A failed authentication does not.
pub open spec fn retryable(e: SyncorError) -> bool {
    e matches SyncorError::Transport(m) && !reports_denial(m@) && {
        ||| occurs_in(m@, "fetch failed"@)
        ||| occurs_in(m@, "push failed"@)
        ||| occurs_in(m@, "Could not resolve host"@)
        ||| occurs_in(m@, "Connection refused"@)
        ||| occurs_in(m@, "timed out"@)
    }
}

/// How long to wait, in seconds, after the attempt with this number (the first is 0).
pub open spec fn delay_after(attempt: int) -> nat {
    if attempt == 0 {
        5
    } else if attempt == 1 {
        15
    } else {
        45
    }
}

/// What to do about a failed attempt.
#[derive(Debug)]
pub enum Retry {
    /// Give up with the error.
    GiveUp(SyncorError),
    /// Tell the user, wait, and try again.
    Again { delay_secs: u64, notice: String },
}

/// What the user is told before another attempt.
pub open spec fn retry_notice(attempt: int, max_attempts: int, e: SyncorError) -> Seq<char> {
    "retry "@ + decimal((attempt + 1) as nat) + "/"@ + decimal(max_attempts as nat) + (": "@
        + e.text() + " (waiting "@ + decimal(delay_after(attempt)) + "s)"@)
}

/// Whether an attempt may follow the failed one.
pub open spec fn tries_again(attempt: int, max_attempts: int, e: SyncorError) -> bool {
    retryable(e) && attempt + 1 < max_attempts
}

/// Whether `r` is what to do about the failed attempt.
pub open spec fn is_retry(attempt: int, max_attempts: int, e: SyncorError, r: Retry) -> bool {
    if tries_again(attempt, max_attempts, e) {
        r matches Retry::Again { delay_secs, notice } && delay_secs == delay_after(attempt)
            && notice@ == retry_notice(attempt, max_attempts, e)
    } else {
        r == Retry::GiveUp(e)
    }
}

/// Whether a message reports that authentication failed.
fn is_denial(m: &str) -> (r: bool)
    ensures
        r == reports_denial(m@),
{
    contains_text(m, "Authentication failed") || contains_text(m, "could not read Username")
        || contains_text(m, "Permission denied (publickey")
}

/// Whether an error may go away by itself.
fn is_retryable(e: &SyncorError) -> (r: bool)
    ensures
        r == retryable(*e),
{
    match e {
        SyncorError::Transport(m) => !is_denial(m.as_str()) && (contains_text(
            m.as_str(),
            "fetch failed",
        ) || contains_text(m.as_str(), "push failed") || contains_text(
            m.as_str(),
            "Could not resolve host",
        ) || contains_text(m.as_str(), "Connection refused") || contains_text(
            m.as_str(),
            "timed out",
        )),
        _ => false,
    }
}

/// Decides about the attempt number `attempt` of `max_attempts`, which failed with `e`.
pub fn retry_with_backoff(attempt: u32, max_attempts: u32, e: SyncorError) -> (r: Retry)
    requires
        attempt < max_attempts,
    ensures
        is_retry(attempt as int, max_attempts as int, e, r),
{
    if !is_retryable(&e) || attempt + 1 >= max_attempts {
        return Retry::GiveUp(e);
    }
    let delay_secs: u64 = match attempt {
        0 => 5,
        1 => 15,
        _ => 45,
    };
    let head = join4(
        "retry ",
        decimal_text((attempt + 1) as u64).as_str(),
        "/",
        decimal_text(max_attempts as u64).as_str(),
    );
    let tail = join5(
        ": ",
        e.message().as_str(),
        " (waiting ",
        decimal_text(delay_secs).as_str(),
        "s)",
    );
    Retry::Again { delay_secs, notice: join2(head.as_str(), tail.as_str()) }
}

/// How often a network command is tried.
pub const MAX_ATTEMPTS: u32 = 3;

// ---------------------------------------------------------------------------
// Flows
// ---------------------------------------------------------------------------

/// One thing to do for a flow.
#[derive(Debug)]
pub enum GitCall {
    /// Run a command for its output. The answer is its standard output, or nothing where it
    /// fails.
    Ask(Vec<String>),
    /// Run a command that must succeed, under a phase of the progress display.
    Must { args: Vec<String>, phase: Phase },
    /// Run a command that talks to the remote side; its progress is passed on. The answer is how
    /// it ended.
    Network(Vec<String>),
    /// Run a command that may fail, under a phase of the progress display. The answer is how it
    /// ended.
    Try { args: Vec<String>, phase: Phase },
    /// Tell the user, and wait.
    Wait { secs: u64, notice: String },
}

/// What came of a call.
#[derive(Debug)]
pub enum GitAnswer {
    /// The output of a command that was asked.
    Output(String),
    /// A command that must succeed did, or a wait is over.
    Done,
    /// How a command ended.
    Exit { success: bool, stderr: String },
    /// A command could not be run, or had to succeed and did not.
    Failed(SyncorError),
}

/// What a flow wants next.
#[derive(Debug)]
pub enum Move<T> {
    Call(GitCall),
    Done(Result<T>),
}

/// Whether a move asks for the output of a command.
pub open spec fn asks<T>(m: Move<T>, words: Seq<Seq<char>>) -> bool {
    m matches Move::Call(GitCall::Ask(args)) && texts(args@) == words
}

/// Whether a move runs a command that must succeed.
pub open spec fn demands<T>(m: Move<T>, words: Seq<Seq<char>>, p: Phase) -> bool {
    m matches Move::Call(GitCall::Must { args, phase }) && texts(args@) == words && phase == p
}

/// Whether a move runs a command that talks to the remote side.
pub open spec fn contacts<T>(m: Move<T>, words: Seq<Seq<char>>) -> bool {
    m matches Move::Call(GitCall::Network(args)) && texts(args@) == words
}

/// Whether a move runs a command that may fail.
pub open spec fn attempts<T>(m: Move<T>, words: Seq<Seq<char>>, p: Phase) -> bool {
    m matches Move::Call(GitCall::Try { args, phase }) && texts(args@) == words && phase == p
}

/// Whether a move waits before another attempt.
pub open spec fn waits<T>(m: Move<T>, attempt: int, e: SyncorError) -> bool {
    m matches Move::Call(GitCall::Wait { secs, notice }) && secs == delay_after(attempt) && notice@
        == retry_notice(attempt, MAX_ATTEMPTS as int, e)
}

/// Whether a flow ends with an error.
pub open spec fn fails_with<T>(m: Move<T>, e: SyncorError) -> bool {
    m matches Move::Done(Err(x)) && x == e
}

// --- branch -----------------------------------------------------------------

/// How the branch of a repository is found out.
#[derive(Debug)]
pub enum BranchStep {
    Ask(Vec<String>),
    Chosen(String),
}

/// Whether `r` is the step that follows the answers so far: the branch that is checked out; if
/// there is none, `main` or else `master` where it exists; and `main` otherwise.
pub open spec fn is_branch_step(answers: Seq<Seq<char>>, r: BranchStep) -> bool {
    if answers.len() == 0 {
        r matches BranchStep::Ask(args) && texts(args@) == seq![
            "symbolic-ref"@,
            "--short"@,
            "HEAD"@,
        ]
    } else if trimmed(answers[0]).len() > 0 {
        r matches BranchStep::Chosen(b) && b@ == trimmed(answers[0])
    } else if answers.len() == 1 {
        r matches BranchStep::Ask(args) && texts(args@) == seq!["branch"@, "--list"@, "main"@]
    } else if occurs_in(answers[1], "main"@) {
        r matches BranchStep::Chosen(b) && b@ == "main"@
    } else if answers.len() == 2 {
        r matches BranchStep::Ask(args) && texts(args@) == seq!["branch"@, "--list"@, "master"@]
    } else if occurs_in(answers[2], "master"@) {
        r matches BranchStep::Chosen(b) && b@ == "master"@
    } else {
        r matches BranchStep::Chosen(b) && b@ == "main"@
    }
}

// --- push -------------------------------------------------------------------

/// Where a push stands: what it waits for.
#[derive(Debug)]
pub enum PushFlow {
    Staging { branch: String },
    Checking { branch: String },
    KeepingHead,
    Committing { branch: String },
    Pushing { branch: String, attempt: u32 },
    Waiting { branch: String, attempt: u32 },
    Pushed,
    Finished,
}

impl PushFlow {
    /// Whether the answer is one to what the flow waits for.
    pub open spec fn takes(&self, a: GitAnswer) -> bool {
        match *self {
            PushFlow::Staging { .. } | PushFlow::Committing { .. } => a is Done || a is Failed,
            PushFlow::Checking { .. } | PushFlow::KeepingHead | PushFlow::Pushed => a is Output,
            PushFlow::Pushing { attempt, .. } => (a is Exit || a is Failed) && attempt
                < MAX_ATTEMPTS,
            PushFlow::Waiting { attempt, .. } => a is Done && attempt + 1 < MAX_ATTEMPTS,
            PushFlow::Finished => false,
        }
    }
}

/// The command that pushes.
pub open spec fn push_words(branch: Seq<char>) -> Seq<Seq<char>> {
    seq!["push"@, "--progress"@, "-u"@, "origin"@, branch]
}

/// Whether a failed attempt to push leads to the next state and move.
pub open spec fn push_failed(
    branch: Seq<char>,
    attempt: u32,
    e: SyncorError,
    next: PushFlow,
    m: Move<PushResult>,
) -> bool {
    if tries_again(attempt as int, MAX_ATTEMPTS as int, e) {
        waits(m, attempt as int, e) && (next matches PushFlow::Waiting { branch: b, attempt: n }
            && b@ == branch && n == attempt)
    } else {
        fails_with(m, e) && next is Finished
    }
}

/// Whether an error reports that pushing failed.
pub open spec fn is_push_error(e: SyncorError, stderr: Seq<char>) -> bool {
    e matches SyncorError::Transport(t) && t@ == "push failed: "@ + trimmed(stderr)
}

/// Whether the answer leads a push to the next state and move.
pub open spec fn is_push_move(
    st: PushFlow,
    a: GitAnswer,
    next: PushFlow,
    m: Move<PushResult>,
) -> bool {
    match (st, a) {
        (PushFlow::Staging { branch }, GitAnswer::Done) => asks(m, seq!["status"@, "--porcelain"@])
            && (next matches PushFlow::Checking { branch: b } && b == branch),
        (PushFlow::Staging { .. }, GitAnswer::Failed(e)) => fails_with(m, e) && next is Finished,
        // Nothing to commit: the push is done, at the present head.
        (PushFlow::Checking { branch }, GitAnswer::Output(t)) => if trimmed(t@).len() == 0 {
            asks(m, seq!["rev-parse"@, "HEAD"@]) && next is KeepingHead
        } else {
            demands(m, seq!["commit"@, "-m"@, "syncor push"@], Phase::GitCommit) && (next
                matches PushFlow::Committing { branch: b } && b == branch)
        },
        (PushFlow::Committing { branch }, GitAnswer::Done) => contacts(m, push_words(branch@)) && (
        next matches PushFlow::Pushing { branch: b, attempt } && b == branch && attempt == 0),
        (PushFlow::Committing { .. }, GitAnswer::Failed(e)) => fails_with(m, e) && next is Finished,
        (PushFlow::Pushing { branch, attempt }, GitAnswer::Exit { success, stderr }) => if success {
            asks(m, seq!["rev-parse"@, "HEAD"@]) && next is Pushed
        } else if occurs_in(stderr@, "non-fast-forward"@) || occurs_in(stderr@, "rejected"@) {
            next is Finished && (m matches Move::Done(Ok(PushResult::Conflict { details }))
                && details.message@ == trimmed(stderr@))
        } else {
            exists|e: SyncorError|
                is_push_error(e, stderr@) && #[trigger] push_failed(branch@, attempt, e, next, m)
        },
        (PushFlow::Pushing { branch, attempt }, GitAnswer::Failed(e)) => push_failed(
            branch@,
            attempt,
            e,
            next,
            m,
        ),
        (PushFlow::Waiting { branch, attempt }, GitAnswer::Done) => contacts(
            m,
            push_words(branch@),
        ) && (next matches PushFlow::Pushing { branch: b, attempt: n } && b == branch && n == attempt
            + 1),
        (PushFlow::KeepingHead, GitAnswer::Output(t)) | (PushFlow::Pushed, GitAnswer::Output(t)) => {
            &&& next is Finished
            &&& m matches Move::Done(Ok(PushResult::Success { revision }))
            &&& revision@ == trimmed(t@)
        },
        _ => false,
    }
}

// --- fetch ------------------------------------------------------------------

/// The command that fetches.
pub open spec fn fetch_words(branch: Seq<char>) -> Seq<Seq<char>> {
    seq!["fetch"@, "--progress"@, "origin"@, branch]
}

/// Whether an error reports that fetching failed.
pub open spec fn is_fetch_error(e: SyncorError, stderr: Seq<char>) -> bool {
    e matches SyncorError::Transport(t) && t@ == "fetch failed: "@ + trimmed(stderr)
}

/// The remote branch.
pub open spec fn remote_ref(branch: Seq<char>) -> Seq<char> {
    "origin/"@ + branch
}

// --- pull -------------------------------------------------------------------

/// Where a pull stands: what it waits for.
#[derive(Debug)]
pub enum PullFlow {
    ReadingHead { branch: String },
    Fetching { branch: String, head: String, attempt: u32 },
    Waiting { branch: String, head: String, attempt: u32 },
    ReadingRemote { branch: String, head: String },
    Merging,
    Merged,
    Finished,
}

impl PullFlow {
    /// Whether the answer is one to what the flow waits for.
    pub open spec fn takes(&self, a: GitAnswer) -> bool {
        match *self {
            PullFlow::ReadingHead { .. } | PullFlow::ReadingRemote { .. } | PullFlow::Merged => a
                is Output,
            PullFlow::Fetching { attempt, .. } => (a is Exit || a is Failed) && attempt
                < MAX_ATTEMPTS,
            PullFlow::Waiting { attempt, .. } => a is Done && attempt + 1 < MAX_ATTEMPTS,
            PullFlow::Merging => a is Exit || a is Failed,
            PullFlow::Finished => false,
        }
    }
}

/// Whether a failed attempt to fetch leads a pull to the next state and move.
pub open spec fn pull_failed(
    branch: Seq<char>,
    head: Seq<char>,
    attempt: u32,
    e: SyncorError,
    next: PullFlow,
    m: Move<PullResult>,
) -> bool {
    if tries_again(attempt as int, MAX_ATTEMPTS as int, e) {
        waits(m, attempt as int, e) && (next matches PullFlow::Waiting {
            branch: b,
            head: h,
            attempt: n,
        } && b@ == branch && h@ == head && n == attempt)
    } else {
        fails_with(m, e) && next is Finished
    }
}

/// Whether the answer leads a pull to the next state and move.
pub open spec fn is_pull_move(
    st: PullFlow,
    a: GitAnswer,
    next: PullFlow,
    m: Move<PullResult>,
) -> bool {
    match (st, a) {
        (PullFlow::ReadingHead { branch }, GitAnswer::Output(t)) => contacts(
            m,
            fetch_words(branch@),
        ) && (next matches PullFlow::Fetching { branch: b, head, attempt } && b == branch && head
            == t && attempt == 0),
        (PullFlow::Fetching { branch, head, attempt }, GitAnswer::Exit { success, stderr }) => if success {
            asks(m, seq!["rev-parse"@, remote_ref(branch@)]) && (next
                matches PullFlow::ReadingRemote { branch: b, head: h } && b == branch && h == head)
        } else {
            exists|e: SyncorError|
                is_fetch_error(e, stderr@) && #[trigger] pull_failed(
                    branch@,
                    head@,
                    attempt,
                    e,
                    next,
                    m,
                )
        },
        (PullFlow::Fetching { branch, head, attempt }, GitAnswer::Failed(e)) => pull_failed(
            branch@,
            head@,
            attempt,
            e,
            next,
            m,
        ),
        (PullFlow::Waiting { branch, head, attempt }, GitAnswer::Done) => contacts(
            m,
            fetch_words(branch@),
        ) && (next matches PullFlow::Fetching { branch: b, head: h, attempt: n } && b == branch && h
            == head && n == attempt + 1),
        (PullFlow::ReadingRemote { branch, head }, GitAnswer::Output(t)) => if trimmed(head@)
            == trimmed(t@) && head@.len() > 0 {
            next is Finished && (m matches Move::Done(Ok(PullResult::UpToDate)))
        } else {
            attempts(m, seq!["merge"@, "--ff-only"@, remote_ref(branch@)], Phase::Merge) && next
                is Merging
        },
        (PullFlow::Merging, GitAnswer::Exit { success, .. }) => if success {
            asks(m, seq!["rev-parse"@, "HEAD"@]) && next is Merged
        } else {
            next is Finished && (m matches Move::Done(Ok(PullResult::Conflict { details }))
                && details.message@ == "cannot fast-forward; manual resolution needed"@)
        },
        (PullFlow::Merging, GitAnswer::Failed(e)) => fails_with(m, e) && next is Finished,
        (PullFlow::Merged, GitAnswer::Output(t)) => next is Finished && (m matches Move::Done(
            Ok(PullResult::Success { revision }),
        ) && revision@ == trimmed(t@)),
        _ => false,
    }
}

// --- changes ----------------------------------------------------------------

/// Where a look for remote changes stands: what it waits for.
#[derive(Debug)]
pub enum ChangesFlow {
    Fetching { branch: String, attempt: u32 },
    Waiting { branch: String, attempt: u32 },
    ReadingLocal { branch: String },
    ReadingRemote { local: String },
    Finished,
}

impl ChangesFlow {
    /// Whether the answer is one to what the flow waits for.
    pub open spec fn takes(&self, a: GitAnswer) -> bool {
        match *self {
            ChangesFlow::Fetching { attempt, .. } => (a is Exit || a is Failed) && attempt
                < MAX_ATTEMPTS,
            ChangesFlow::Waiting { attempt, .. } => a is Done && attempt + 1 < MAX_ATTEMPTS,
            ChangesFlow::ReadingLocal { .. } | ChangesFlow::ReadingRemote { .. } => a is Output,
            ChangesFlow::Finished => false,
        }
    }
}

/// Whether a failed attempt to fetch leads the look to the next state and move.
pub open spec fn look_failed(
    branch: Seq<char>,
    attempt: u32,
    e: SyncorError,
    next: ChangesFlow,
    m: Move<bool>,
) -> bool {
    if tries_again(attempt as int, MAX_ATTEMPTS as int, e) {
        waits(m, attempt as int, e) && (next matches ChangesFlow::Waiting { branch: b, attempt: n }
            && b@ == branch && n == attempt)
    } else {
        fails_with(m, e) && next is Finished
    }
}

/// Whether the answer leads a look for remote changes to the next state and move. There are
/// changes where the two heads differ.
pub open spec fn is_look_move(
    st: ChangesFlow,
    a: GitAnswer,
    next: ChangesFlow,
    m: Move<bool>,
) -> bool {
    match (st, a) {
        (ChangesFlow::Fetching { branch, attempt }, GitAnswer::Exit { success, stderr }) => if success {
            asks(m, seq!["rev-parse"@, "HEAD"@]) && (next matches ChangesFlow::ReadingLocal {
                branch: b,
            } && b == branch)
        } else {
            exists|e: SyncorError|
                is_fetch_error(e, stderr@) && #[trigger] look_failed(branch@, attempt, e, next, m)
        },
        (ChangesFlow::Fetching { branch, attempt }, GitAnswer::Failed(e)) => look_failed(
            branch@,
            attempt,
            e,
            next,
            m,
        ),
        (ChangesFlow::Waiting { branch, attempt }, GitAnswer::Done) => contacts(
            m,
            fetch_words(branch@),
        ) && (next matches ChangesFlow::Fetching { branch: b, attempt: n } && b == branch && n
            == attempt + 1),
        (ChangesFlow::ReadingLocal { branch }, GitAnswer::Output(t)) => asks(
            m,
            seq!["rev-parse"@, remote_ref(branch@)],
        ) && (next matches ChangesFlow::ReadingRemote { local } && local == t),
        (ChangesFlow::ReadingRemote { local }, GitAnswer::Output(t)) => next is Finished && (m
            matches Move::Done(Ok(changed)) && changed == (trimmed(local@) != trimmed(t@))),
        _ => false,
    }
}

/// Whether a push starts so: it stages everything.
pub open spec fn is_push_start(branch: String, st: PushFlow, c: GitCall) -> bool {
    &&& st == (PushFlow::Staging { branch })
    &&& c matches GitCall::Must { args, phase }
    &&& texts(args@) == seq!["add"@, "-A"@]
    &&& phase == Phase::GitStage
}

/// Whether a pull starts so: it asks for the present head.
pub open spec fn is_pull_opening(branch: String, st: PullFlow, c: GitCall) -> bool {
    &&& st == (PullFlow::ReadingHead { branch })
    &&& c matches GitCall::Ask(args)
    &&& texts(args@) == seq!["rev-parse"@, "HEAD"@]
}

/// Whether a look for changes starts so: it fetches.
pub open spec fn is_look_start(branch: String, st: ChangesFlow, c: GitCall) -> bool {
    &&& st == (ChangesFlow::Fetching { branch, attempt: 0 })
    &&& c matches GitCall::Network(args)
    &&& texts(args@) == fetch_words(branch@)
}

// ---------------------------------------------------------------------------
// Taking a step
// ---------------------------------------------------------------------------

/// The error of a flow that is given an answer to nothing it asked.
fn out_of_turn() -> (e: SyncorError)
    ensures
        e is Other,
{
    SyncorError::Other("answer out of turn".to_owned())
}

/// The error of a fetch that ran and failed.
fn fetch_error(stderr: &str) -> (e: SyncorError)
    ensures
        is_fetch_error(e, stderr@),
{
    SyncorError::Transport(join2("fetch failed: ", trim(stderr).as_str()))
}

/// The command that fetches.
fn fetch_call(branch: &str) -> (r: GitCall)
    ensures
        r matches GitCall::Network(args) && texts(args@) == fetch_words(branch@),
{
    GitCall::Network(words4("fetch", "--progress", "origin", branch))
}

/// The command that pushes.
fn push_call(branch: &str) -> (r: GitCall)
    ensures
        r matches GitCall::Network(args) && texts(args@) == push_words(branch@),
{
    GitCall::Network(words5("push", "--progress", "-u", "origin", branch))
}

/// The question for the commit at `what`.
fn rev_parse(what: &str) -> (r: GitCall)
    ensures
        r matches GitCall::Ask(args) && texts(args@) == seq!["rev-parse"@, what@],
{
    GitCall::Ask(words2("rev-parse", what))
}

impl PushFlow {
    /// A push of `branch`: stages everything first.
    pub fn start(branch: String) -> (r: (Self, GitCall))
        ensures
            is_push_start(branch, r.0, r.1),
    {
        (
            PushFlow::Staging { branch },
            GitCall::Must { args: words2("add", "-A"), phase: Phase::GitStage },
        )
    }

    /// Decides about a failed attempt.
    fn failed(branch: String, attempt: u32, e: SyncorError) -> (r: (Self, Move<PushResult>))
        requires
            attempt < MAX_ATTEMPTS,
        ensures
            push_failed(branch@, attempt, e, r.0, r.1),
    {
        match retry_with_backoff(attempt, MAX_ATTEMPTS, e) {
            Retry::GiveUp(e) => (PushFlow::Finished, Move::Done(Err(e))),
            Retry::Again { delay_secs, notice } => (
                PushFlow::Waiting { branch, attempt },
                Move::Call(GitCall::Wait { secs: delay_secs, notice }),
            ),
        }
    }

    /// Takes an answer in.
    pub fn next(self, a: GitAnswer) -> (r: (Self, Move<PushResult>))
        requires
            self.takes(a),
        ensures
            is_push_move(self, a, r.0, r.1),
    {
        match (self, a) {
            (PushFlow::Staging { branch }, GitAnswer::Done) => (
                PushFlow::Checking { branch },
                Move::Call(GitCall::Ask(words2("status", "--porcelain"))),
            ),
            (PushFlow::Checking { branch }, GitAnswer::Output(t)) => {
                if trim(t.as_str()).unicode_len() == 0 {
                    (PushFlow::KeepingHead, Move::Call(rev_parse("HEAD")))
                } else {
                    (
                        PushFlow::Committing { branch },
                        Move::Call(
                            GitCall::Must {
                                args: words3("commit", "-m", "syncor push"),
                                phase: Phase::GitCommit,
                            },
                        ),
                    )
                }
            },
            (PushFlow::Committing { branch }, GitAnswer::Done) => {
                let call = push_call(branch.as_str());
                (PushFlow::Pushing { branch, attempt: 0 }, Move::Call(call))
            },
            (PushFlow::Pushing { branch, attempt }, GitAnswer::Exit { success, stderr }) => {
                if success {
                    (PushFlow::Pushed, Move::Call(rev_parse("HEAD")))
                } else if contains_text(stderr.as_str(), "non-fast-forward") || contains_text(
                    stderr.as_str(),
                    "rejected",
                ) {
                    (
                        PushFlow::Finished,
                        Move::Done(
                            Ok(
                                PushResult::Conflict {
                                    details: ConflictInfo { message: trim(stderr.as_str()) },
                                },
                            ),
                        ),
                    )
                } else {
                    let e = SyncorError::Transport(
                        join2("push failed: ", trim(stderr.as_str()).as_str()),
                    );
                    let ghost err = e;
                    let ghost b = branch@;
                    let r = PushFlow::failed(branch, attempt, e);
                    assert(is_push_error(err, stderr@) && push_failed(b, attempt, err, r.0, r.1));
                    r
                }
            },
            (PushFlow::Pushing { branch, attempt }, GitAnswer::Failed(e)) => PushFlow::failed(
                branch,
                attempt,
                e,
            ),
            (PushFlow::Waiting { branch, attempt }, _) => {
                let call = push_call(branch.as_str());
                (PushFlow::Pushing { branch, attempt: attempt + 1 }, Move::Call(call))
            },
            (_, GitAnswer::Output(t)) => (
                PushFlow::Finished,
                Move::Done(Ok(PushResult::Success { revision: trim(t.as_str()) })),
            ),
            (_, GitAnswer::Failed(e)) => (PushFlow::Finished, Move::Done(Err(e))),
            (st, _) => (st, Move::Done(Err(out_of_turn()))),
        }
    }
}

impl PullFlow {
    /// A pull of `branch`: looks at the present head first.
    pub fn start(branch: String) -> (r: (Self, GitCall))
        ensures
            is_pull_opening(branch, r.0, r.1),
    {
        (PullFlow::ReadingHead { branch }, rev_parse("HEAD"))
    }

    /// Decides about a failed attempt.
    fn failed(branch: String, head: String, attempt: u32, e: SyncorError) -> (r: (
        Self,
        Move<PullResult>,
    ))
        requires
            attempt < MAX_ATTEMPTS,
        ensures
            pull_failed(branch@, head@, attempt, e, r.0, r.1),
    {
        match retry_with_backoff(attempt, MAX_ATTEMPTS, e) {
            Retry::GiveUp(e) => (PullFlow::Finished, Move::Done(Err(e))),
            Retry::Again { delay_secs, notice } => (
                PullFlow::Waiting { branch, head, attempt },
                Move::Call(GitCall::Wait { secs: delay_secs, notice }),
            ),
        }
    }

    /// Takes an answer in.
    pub fn next(self, a: GitAnswer) -> (r: (Self, Move<PullResult>))
        requires
            self.takes(a),
        ensures
            is_pull_move(self, a, r.0, r.1),
    {
        match (self, a) {
            (PullFlow::ReadingHead { branch }, GitAnswer::Output(t)) => {
                let call = fetch_call(branch.as_str());
                (PullFlow::Fetching { branch, head: t, attempt: 0 }, Move::Call(call))
            },
            (PullFlow::Fetching { branch, head, attempt }, GitAnswer::Exit { success, stderr }) => {
                if success {
                    let remote = join2("origin/", branch.as_str());
                    (
                        PullFlow::ReadingRemote { branch, head },
                        Move::Call(rev_parse(remote.as_str())),
                    )
                } else {
                    let e = fetch_error(stderr.as_str());
                    let ghost err = e;
                    let ghost b = branch@;
                    let ghost h = head@;
                    let r = PullFlow::failed(branch, head, attempt, e);
                    assert(is_fetch_error(err, stderr@) && pull_failed(
                        b,
                        h,
                        attempt,
                        err,
                        r.0,
                        r.1,
                    ));
                    r
                }
            },
            (PullFlow::Fetching { branch, head, attempt }, GitAnswer::Failed(e)) => PullFlow::failed(
                branch,
                head,
                attempt,
                e,
            ),
            (PullFlow::Waiting { branch, head, attempt }, _) => {
                let call = fetch_call(branch.as_str());
                (PullFlow::Fetching { branch, head, attempt: attempt + 1 }, Move::Call(call))
            },
            (PullFlow::ReadingRemote { branch, head }, GitAnswer::Output(t)) => {
                let same = same_text(trim(head.as_str()).as_str(), trim(t.as_str()).as_str());
                if same && head.unicode_len() > 0 {
                    (PullFlow::Finished, Move::Done(Ok(PullResult::UpToDate)))
                } else {
                    let remote = join2("origin/", branch.as_str());
                    (
                        PullFlow::Merging,
                        Move::Call(
                            GitCall::Try {
                                args: words3("merge", "--ff-only", remote.as_str()),
                                phase: Phase::Merge,
                            },
                        ),
                    )
                }
            },
            (PullFlow::Merging, GitAnswer::Exit { success, .. }) => {
                if success {
                    (PullFlow::Merged, Move::Call(rev_parse("HEAD")))
                } else {
                    (
                        PullFlow::Finished,
                        Move::Done(
                            Ok(
                                PullResult::Conflict {
                                    details: ConflictInfo {
                                        message: "cannot fast-forward; manual resolution needed".to_owned(),
                                    },
                                },
                            ),
                        ),
                    )
                }
            },
            (_, GitAnswer::Output(t)) => (
                PullFlow::Finished,
                Move::Done(Ok(PullResult::Success { revision: trim(t.as_str()) })),
            ),
            (_, GitAnswer::Failed(e)) => (PullFlow::Finished, Move::Done(Err(e))),
            (st, _) => (st, Move::Done(Err(out_of_turn()))),
        }
    }
}

impl ChangesFlow {
    /// A look for remote changes of `branch`: fetches first.
    pub fn start(branch: String) -> (r: (Self, GitCall))
        ensures
            is_look_start(branch, r.0, r.1),
    {
        let call = fetch_call(branch.as_str());
        (ChangesFlow::Fetching { branch, attempt: 0 }, call)
    }

    /// Decides about a failed attempt.
    fn failed(branch: String, attempt: u32, e: SyncorError) -> (r: (Self, Move<bool>))
        requires
            attempt < MAX_ATTEMPTS,
        ensures
            look_failed(branch@, attempt, e, r.0, r.1),
    {
        match retry_with_backoff(attempt, MAX_ATTEMPTS, e) {
            Retry::GiveUp(e) => (ChangesFlow::Finished, Move::Done(Err(e))),
            Retry::Again { delay_secs, notice } => (
                ChangesFlow::Waiting { branch, attempt },
                Move::Call(GitCall::Wait { secs: delay_secs, notice }),
            ),
        }
    }

    /// Takes an answer in.
    pub fn next(self, a: GitAnswer) -> (r: (Self, Move<bool>))
        requires
            self.takes(a),
        ensures
            is_look_move(self, a, r.0, r.1),
    {
        match (self, a) {
            (ChangesFlow::Fetching { branch, attempt }, GitAnswer::Exit { success, stderr }) => {
                if success {
                    (ChangesFlow::ReadingLocal { branch }, Move::Call(rev_parse("HEAD")))
                } else {
                    let e = fetch_error(stderr.as_str());
                    let ghost err = e;
                    let ghost b = branch@;
                    let r = ChangesFlow::failed(branch, attempt, e);
                    assert(is_fetch_error(err, stderr@) && look_failed(b, attempt, err, r.0, r.1));
                    r
                }
            },
            (ChangesFlow::Fetching { branch, attempt }, GitAnswer::Failed(e)) => ChangesFlow::failed(
                branch,
                attempt,
                e,
            ),
            (ChangesFlow::Waiting { branch, attempt }, _) => {
                let call = fetch_call(branch.as_str());
                (ChangesFlow::Fetching { branch, attempt: attempt + 1 }, Move::Call(call))
            },
            (ChangesFlow::ReadingLocal { branch }, GitAnswer::Output(t)) => {
                let remote = join2("origin/", branch.as_str());
                (ChangesFlow::ReadingRemote { local: t }, Move::Call(rev_parse(remote.as_str())))
            },
            (ChangesFlow::ReadingRemote { local }, GitAnswer::Output(t)) => {
                let same = same_text(trim(local.as_str()).as_str(), trim(t.as_str()).as_str());
                (ChangesFlow::Finished, Move::Done(Ok(!same)))
            },
            (st, _) => (st, Move::Done(Err(out_of_turn()))),
        }
    }
}

// ---------------------------------------------------------------------------
// GitTransport
// ---------------------------------------------------------------------------

/// One thing to do to set a repository up.
#[derive(Debug)]
pub enum InitStep {
    CreateDir(String),
    /// Write a file unless there is one.
    WriteIfMissing { path: String, content: String },
    /// Run a command that must succeed.
    Must(Vec<String>),
    /// Run a command whose failure does not matter.
    Attempt(Vec<String>),
}

/// What a step says, over mathematical values.
#[allow(inconsistent_fields)]
pub ghost enum Init {
    CreateDir(Seq<char>),
    WriteIfMissing { path: Seq<char>, content: Seq<char> },
    Must(Seq<Seq<char>>),
    Attempt(Seq<Seq<char>>),
}

impl View for InitStep {
    type V = Init;

    open spec fn view(&self) -> Init {
        match *self {
            InitStep::CreateDir(d) => Init::CreateDir(d@),
            InitStep::WriteIfMissing { path, content } => Init::WriteIfMissing {
                path: path@,
                content: content@,
            },
            InitStep::Must(args) => Init::Must(texts(args@)),
            InitStep::Attempt(args) => Init::Attempt(texts(args@)),
        }
    }
}

/// What the steps say.
pub open spec fn init_view(steps: Seq<InitStep>) -> Seq<Init> {
    steps.map_values(|s: InitStep| s@)
}

/// What follows the attempt to clone `repo` into `repo_dir`: an empty repository is made where
/// cloning failed; the store and the ignore file are there in any case.
pub open spec fn after_clone(
    repo_dir: Seq<char>,
    repo: Seq<char>,
    name: Seq<char>,
    cloned: bool,
) -> Seq<Init> {
    let store = joined(joined(repo_dir, "stores"@), name);
    let fresh = if cloned {
        Seq::empty()
    } else {
        seq![
            Init::Must(seq!["init"@]),
            Init::Must(seq!["remote"@, "add"@, "origin"@, repo]),
        ]
    };
    fresh + seq![
        Init::CreateDir(joined(store, "packs"@)),
        Init::CreateDir(joined(store, "trees"@)),
        Init::WriteIfMissing {
            path: joined(repo_dir, ".gitignore"@),
            content: "index.bin\n*.sqlite-wal\n*.sqlite-shm\n"@,
        },
    ]
}

/// What follows the look at the head of a repository that was just made: a first commit, if
/// there is none.
pub open spec fn first_commit(head: Seq<char>) -> Seq<Init> {
    if head.len() == 0 {
        seq![
            Init::Must(seq!["add"@, "-A"@]),
            Init::Must(seq!["commit"@, "-m"@, "init syncor repo"@, "--allow-empty"@]),
            Init::Attempt(seq!["branch"@, "-M"@, "main"@]),
        ]
    } else {
        Seq::empty()
    }
}

/// The command that clones a repository into the working directory.
pub open spec fn clone_words(repo: Seq<char>) -> Seq<Seq<char>> {
    seq!["clone"@, "--progress"@, repo, "."@]
}

/// The command that clones a repository just to look at it.
pub open spec fn peek_words(repo: Seq<char>) -> Seq<Seq<char>> {
    seq!["clone"@, "--progress"@, "--depth=1"@, repo, "."@]
}

/// Whether `r` are the links that a repository offers.
pub open spec fn are_offered(
    cloned: bool,
    manifest: Option<RepoManifest>,
    r: Seq<RemoteLinkInfo>,
) -> bool {
    match manifest {
        Some(m) if cloned => {
            &&& r.len() == m.links@.len()
            &&& forall|i: int|
                0 <= i < r.len() ==> (#[trigger] r[i]).name@ == m.links@[i].name@ && r[i].created_at@
                    == (match m.links@[i].created_at {
                    Some(t) => t@,
                    None => Seq::<char>::empty(),
                })
        },
        _ => r.len() == 0,
    }
}

/// Git-backed transport.
#[derive(Debug)]
pub struct GitTransport {
    paths: SyncorPaths,
}

impl GitTransport {
    /// Where the transport keeps things.
    pub closed spec fn paths(&self) -> SyncorPaths {
        self.paths
    }

    pub fn new(paths: SyncorPaths) -> (r: Self)
        ensures
            r.paths() == paths,
    {
        GitTransport { paths }
    }

    /// The repository checkout of a link.
    pub fn repo_dir(&self, link: &LinkInfo) -> (r: String)
        ensures
            r@ == self.paths().repo_of(link.id@),
    {
        self.paths.link_repo_dir(&link.id)
    }

    /// Finds the branch of a repository out, from what git answered so far.
    pub fn primary_branch(answers: &Vec<String>) -> (r: BranchStep)
        ensures
            is_branch_step(texts(answers@), r),
    {
        let ghost ts = texts(answers@);
        if answers.len() == 0 {
            return BranchStep::Ask(words3("symbolic-ref", "--short", "HEAD"));
        }
        assert(ts[0] == answers@[0]@);
        let branch = trim(answers[0].as_str());
        if branch.unicode_len() > 0 {
            return BranchStep::Chosen(branch);
        }
        if answers.len() == 1 {
            return BranchStep::Ask(words3("branch", "--list", "main"));
        }
        assert(ts[1] == answers@[1]@);
        if contains_text(answers[1].as_str(), "main") {
            return BranchStep::Chosen("main".to_owned());
        }
        if answers.len() == 2 {
            return BranchStep::Ask(words3("branch", "--list", "master"));
        }
        assert(ts[2] == answers@[2]@);
        if contains_text(answers[2].as_str(), "master") {
            return BranchStep::Chosen("master".to_owned());
        }
        BranchStep::Chosen("main".to_owned())
    }

    /// The command that clones the repository of a link into its checkout.
    pub fn clone_args(link: &LinkInfo) -> (r: Vec<String>)
        ensures
            texts(r@) == clone_words(link.repo@),
    {
        words4("clone", "--progress", link.repo.as_str(), ".")
    }

    /// The command that clones a repository just to look at it.
    pub fn peek_args(repo: &str) -> (r: Vec<String>)
        ensures
            texts(r@) == peek_words(repo@),
    {
        words5("clone", "--progress", "--depth=1", repo, ".")
    }

    /// What follows the attempt to clone.
    pub fn after_clone(&self, link: &LinkInfo, cloned: bool) -> (r: Vec<InitStep>)
        ensures
            init_view(r@) == after_clone(
                self.paths().repo_of(link.id@),
                link.repo@,
                link.name@,
                cloned,
            ),
    {
        let repo_dir = self.repo_dir(link);
        let stores = join(repo_dir.as_str(), "stores");
        let store = join(stores.as_str(), link.name.as_str());
        let mut r: Vec<InitStep> = Vec::new();
        if !cloned {
            r.push(InitStep::Must(words1("init")));
            r.push(InitStep::Must(words4("remote", "add", "origin", link.repo.as_str())));
        }
        r.push(InitStep::CreateDir(join(store.as_str(), "packs")));
        r.push(InitStep::CreateDir(join(store.as_str(), "trees")));
        r.push(
            InitStep::WriteIfMissing {
                path: join(repo_dir.as_str(), ".gitignore"),
                content: "index.bin\n*.sqlite-wal\n*.sqlite-shm\n".to_owned(),
            },
        );
        assert(init_view(r@) =~= after_clone(repo_dir@, link.repo@, link.name@, cloned));
        r
    }

    /// What follows the look at the head of a repository that was just made.
    pub fn first_commit(head: &str) -> (r: Vec<InitStep>)
        ensures
            init_view(r@) == first_commit(head@),
    {
        let mut r: Vec<InitStep> = Vec::new();
        if head.unicode_len() == 0 {
            r.push(InitStep::Must(words2("add", "-A")));
            r.push(InitStep::Must(words4("commit", "-m", "init syncor repo", "--allow-empty")));
            r.push(InitStep::Attempt(words3("branch", "-M", "main")));
        }
        assert(init_view(r@) =~= first_commit(head@));
        r
    }

    /// The links that a repository offers: those of its list, if it could be cloned and has one.
    pub fn offered_links(cloned: bool, manifest: Option<RepoManifest>) -> (r: Vec<RemoteLinkInfo>)
        ensures
            are_offered(cloned, manifest, r@),
    {
        if !cloned {
            return Vec::new();
        }
        match manifest {
            Some(m) => m.remote_links(),
            None => Vec::new(),
        }
    }
}

// ---------------------------------------------------------------------------
// Laws
// ---------------------------------------------------------------------------

/// How many calls a push may still make, at most.
pub open spec fn push_rank(st: PushFlow) -> int {
    match st {
        PushFlow::Staging { .. } => 2 * MAX_ATTEMPTS + 4,
        PushFlow::Checking { .. } => 2 * MAX_ATTEMPTS + 3,
        PushFlow::Committing { .. } => 2 * MAX_ATTEMPTS + 2,
        PushFlow::Pushing { attempt, .. } => 2 * (MAX_ATTEMPTS - attempt) + 1,
        PushFlow::Waiting { attempt, .. } => 2 * (MAX_ATTEMPTS - attempt),
        PushFlow::KeepingHead | PushFlow::Pushed => 1,
        PushFlow::Finished => 0,
    }
}

/// Whether the attempts of a push are within their number.
pub open spec fn push_within(st: PushFlow) -> bool {
    match st {
        PushFlow::Pushing { attempt, .. } => attempt < MAX_ATTEMPTS,
        PushFlow::Waiting { attempt, .. } => attempt + 1 < MAX_ATTEMPTS,
        _ => true,
    }
}

/// A push tries the network a bounded number of times, and comes to an end whatever git answers.
pub proof fn every_push_ends(st: PushFlow, a: GitAnswer, next: PushFlow, m: Move<PushResult>)
    requires
        st.takes(a),
        is_push_move(st, a, next, m),
    ensures
        push_within(next),
        0 <= push_rank(next) < push_rank(st),
        m is Done <==> next is Finished,
{
}

/// A push that finds nothing to commit never talks to the remote side.
pub proof fn nothing_to_push_is_not_pushed(
    st: PushFlow,
    status: String,
    next: PushFlow,
    m: Move<PushResult>,
    head: String,
    last: PushFlow,
    end: Move<PushResult>,
)
    requires
        st is Checking,
        trimmed(status@).len() == 0,
        is_push_move(st, GitAnswer::Output(status), next, m),
        is_push_move(next, GitAnswer::Output(head), last, end),
    ensures
        !(m matches Move::Call(GitCall::Network(_))),
        end matches Move::Done(Ok(PushResult::Success { revision })) && revision@ == trimmed(head@),
{
}

/// How many calls a pull may still make, at most.
pub open spec fn pull_rank(st: PullFlow) -> int {
    match st {
        PullFlow::ReadingHead { .. } => 2 * MAX_ATTEMPTS + 5,
        PullFlow::Fetching { attempt, .. } => 2 * (MAX_ATTEMPTS - attempt) + 4,
        PullFlow::Waiting { attempt, .. } => 2 * (MAX_ATTEMPTS - attempt) + 3,
        PullFlow::ReadingRemote { .. } => 3,
        PullFlow::Merging => 2,
        PullFlow::Merged => 1,
        PullFlow::Finished => 0,
    }
}

/// Whether the attempts of a pull are within their number.
pub open spec fn pull_within(st: PullFlow) -> bool {
    match st {
        PullFlow::Fetching { attempt, .. } => attempt < MAX_ATTEMPTS,
        PullFlow::Waiting { attempt, .. } => attempt + 1 < MAX_ATTEMPTS,
        _ => true,
    }
}

/// A pull tries the network a bounded number of times, and comes to an end whatever git answers.
pub proof fn every_pull_ends(st: PullFlow, a: GitAnswer, next: PullFlow, m: Move<PullResult>)
    requires
        st.takes(a),
        is_pull_move(st, a, next, m),
    ensures
        pull_within(next),
        0 <= pull_rank(next) < pull_rank(st),
        m is Done <==> next is Finished,
{
}

/// How many calls a look for changes may still make, at most.
pub open spec fn look_rank(st: ChangesFlow) -> int {
    match st {
        ChangesFlow::Fetching { attempt, .. } => 2 * (MAX_ATTEMPTS - attempt) + 3,
        ChangesFlow::Waiting { attempt, .. } => 2 * (MAX_ATTEMPTS - attempt) + 2,
        ChangesFlow::ReadingLocal { .. } => 2,
        ChangesFlow::ReadingRemote { .. } => 1,
        ChangesFlow::Finished => 0,
    }
}

/// Whether the attempts of a look for changes are within their number.
pub open spec fn look_within(st: ChangesFlow) -> bool {
    match st {
        ChangesFlow::Fetching { attempt, .. } => attempt < MAX_ATTEMPTS,
        ChangesFlow::Waiting { attempt, .. } => attempt + 1 < MAX_ATTEMPTS,
        _ => true,
    }
}

/// A look for changes tries the network a bounded number of times, and comes to an end whatever
/// git answers.
pub proof fn every_look_ends(st: ChangesFlow, a: GitAnswer, next: ChangesFlow, m: Move<bool>)
    requires
        st.takes(a),
        is_look_move(st, a, next, m),
    ensures
        look_within(next),
        0 <= look_rank(next) < look_rank(st),
        m is Done <==> next is Finished,
{
}

/// A git command that failed for a reason that does not pass is not tried again: the error comes
/// back as it is.
pub proof fn lasting_errors_are_final(st: PushFlow, e: SyncorError, next: PushFlow, m: Move<PushResult>)
    requires
        st is Pushing,
        st.takes(GitAnswer::Failed(e)),
        !retryable(e),
        is_push_move(st, GitAnswer::Failed(e), next, m),
    ensures
        fails_with(m, e),
{
}

/// An authentication failure is not tried again: a push, a pull or a look for changes that meets
/// one ends with it.
pub proof fn authentication_failures_are_final(m: String, branch: Seq<char>, head: Seq<char>, attempt: u32)
    requires
        reports_denial(m@),
    ensures
        ({
            let e = SyncorError::Transport(m);
            &&& forall|max_attempts: int| !tries_again(attempt as int, max_attempts, e)
            &&& forall|next: PushFlow, mv: Move<PushResult>| #[trigger]
                push_failed(branch, attempt, e, next, mv) ==> fails_with(mv, e) && next is Finished
            &&& forall|next: PullFlow, mv: Move<PullResult>| #[trigger]
                pull_failed(branch, head, attempt, e, next, mv) ==> fails_with(mv, e) && next
                    is Finished
            &&& forall|next: ChangesFlow, mv: Move<bool>| #[trigger]
                look_failed(branch, attempt, e, next, mv) ==> fails_with(mv, e) && next is Finished
        }),
{
}

/// A report of failed authentication is still one behind a prefix.
proof fn denial_is_passed_on(prefix: Seq<char>, stderr: Seq<char>)
    requires
        reports_denial(stderr),
    ensures
        reports_denial(prefix + trimmed(stderr)),
{
    reveal_strlit("Authentication failed");
    reveal_strlit("could not read Username");
    reveal_strlit("Permission denied (publickey");
    let w = if occurs_in(stderr, "Authentication failed"@) {
        "Authentication failed"@
    } else if occurs_in(stderr, "could not read Username"@) {
        "could not read Username"@
    } else {
        "Permission denied (publickey"@
    };
    trimming_keeps(stderr, w);
    occurs_behind(prefix, trimmed(stderr), w);
}

/// A push that git reports failed authentication of runs once: what git said comes back.
pub proof fn denied_pushes_run_once(
    st: PushFlow,
    stderr: String,
    next: PushFlow,
    m: Move<PushResult>,
)
    requires
        st is Pushing,
        reports_denial(stderr@),
        !occurs_in(stderr@, "non-fast-forward"@),
        !occurs_in(stderr@, "rejected"@),
        is_push_move(st, (GitAnswer::Exit { success: false, stderr }), next, m),
    ensures
        next is Finished,
        m matches Move::Done(Err(e)) && is_push_error(e, stderr@),
{
    denial_is_passed_on("push failed: "@, stderr@);
}

/// A fetch that git reports failed authentication of runs once, for a pull and for a look for
/// changes: what git said comes back.
pub proof fn denied_fetches_run_once(
    stderr: String,
    pull: PullFlow,
    next_pull: PullFlow,
    pull_move: Move<PullResult>,
    look: ChangesFlow,
    next_look: ChangesFlow,
    look_move: Move<bool>,
)
    requires
        reports_denial(stderr@),
        pull is Fetching,
        is_pull_move(pull, (GitAnswer::Exit { success: false, stderr }), next_pull, pull_move),
        look is Fetching,
        is_look_move(look, (GitAnswer::Exit { success: false, stderr }), next_look, look_move),
    ensures
        next_pull is Finished,
        pull_move matches Move::Done(Err(e)) && is_fetch_error(e, stderr@),
        next_look is Finished,
        look_move matches Move::Done(Err(e)) && is_fetch_error(e, stderr@),
{
    denial_is_passed_on("fetch failed: "@, stderr@);
}

/// A push that the remote side turns down for another reason than a conflict or the user's
/// credentials is always tried again, up to the last attempt.
pub proof fn failed_pushes_are_retryable(e: SyncorError, stderr: Seq<char>)
    requires
        is_push_error(e, stderr),
        e matches SyncorError::Transport(t) && !reports_denial(t@),
    ensures
        retryable(e),
{
    reveal_strlit("push failed: ");
    reveal_strlit("push failed");
    if let SyncorError::Transport(t) = e {
        assert(t@.subrange(0, "push failed"@.len() as int) =~= "push failed"@);
        assert(crate::text::occurs_at(t@, "push failed"@, 0));
    }
}

/// A fetch that fails for another reason than the user's credentials is always tried again, up to
/// the last attempt.
pub proof fn failed_fetches_are_retryable(e: SyncorError, stderr: Seq<char>)
    requires
        is_fetch_error(e, stderr),
        e matches SyncorError::Transport(t) && !reports_denial(t@),
    ensures
        retryable(e),
{
    reveal_strlit("fetch failed: ");
    reveal_strlit("fetch failed");
    if let SyncorError::Transport(t) = e {
        assert(t@.subrange(0, "fetch failed"@.len() as int) =~= "fetch failed"@);
        assert(crate::text::occurs_at(t@, "fetch failed"@, 0));
    }
}

/// A link gets its store and its ignore file whether its repository could be cloned or not. Where
/// it could not, an empty one is made first, with the repository as its remote side; where it
/// could, nothing is run.
pub proof fn every_link_gets_its_store(
    steps: Seq<InitStep>,
    repo_dir: Seq<char>,
    repo: Seq<char>,
    name: Seq<char>,
    cloned: bool,
)
    requires
        init_view(steps) == after_clone(repo_dir, repo, name, cloned),
    ensures
        ({
            let n: int = if cloned {
                0
            } else {
                2
            };
            let store = joined(joined(repo_dir, "stores"@), name);
            &&& steps.len() == n + 3
            &&& steps[n] matches InitStep::CreateDir(d) && d@ == joined(store, "packs"@)
            &&& steps[n + 1] matches InitStep::CreateDir(d) && d@ == joined(store, "trees"@)
            &&& steps[n + 2] matches InitStep::WriteIfMissing { path, content } && path@ == joined(
                repo_dir,
                ".gitignore"@,
            ) && content@ == "index.bin\n*.sqlite-wal\n*.sqlite-shm\n"@
            &&& !cloned ==> (steps[0] matches InitStep::Must(args) && texts(args@) == seq!["init"@])
            &&& !cloned ==> (steps[1] matches InitStep::Must(args) && texts(args@) == seq![
                "remote"@,
                "add"@,
                "origin"@,
                repo,
            ])
        }),
{
    let n: int = if cloned {
        0
    } else {
        2
    };
    let view = init_view(steps);
    assert(view.len() == steps.len());
    assert(view[n] == steps[n]@);
    assert(view[n + 1] == steps[n + 1]@);
    assert(view[n + 2] == steps[n + 2]@);
    if !cloned {
        assert(view[0] == steps[0]@);
        assert(view[1] == steps[1]@);
    }
}

/// A repository without any commit gets a first one, of everything there is, on the branch `main`;
/// one that has a commit is left alone.
pub proof fn empty_repositories_get_a_commit(steps: Seq<InitStep>, head: Seq<char>)
    requires
        init_view(steps) == first_commit(head),
    ensures
        head.len() > 0 ==> steps.len() == 0,
        head.len() == 0 ==> {
            &&& steps.len() == 3
            &&& steps[0] matches InitStep::Must(args) && texts(args@) == seq!["add"@, "-A"@]
            &&& steps[1] matches InitStep::Must(args) && texts(args@) == seq![
                "commit"@,
                "-m"@,
                "init syncor repo"@,
                "--allow-empty"@,
            ]
            &&& steps[2] matches InitStep::Attempt(args) && texts(args@) == seq![
                "branch"@,
                "-M"@,
                "main"@,
            ]
        },
{
    let view = init_view(steps);
    assert(view.len() == steps.len());
    if head.len() == 0 {
        assert(view[0] == steps[0]@);
        assert(view[1] == steps[1]@);
        assert(view[2] == steps[2]@);
    }
}

/// Another attempt is made exactly if the error may pass and there is one left. It waits five
/// seconds after the first attempt, fifteen after the second, and forty-five after any other. The
/// error that ends the attempts is the one that was met.
pub proof fn attempts_are_limited(attempt: int, max_attempts: int, e: SyncorError, r: Retry)
    requires
        is_retry(attempt, max_attempts, e, r),
    ensures
        r is Again <==> retryable(e) && attempt + 1 < max_attempts,
        r is GiveUp ==> r == Retry::GiveUp(e),
        r matches Retry::Again { delay_secs, notice } ==> {
            &&& attempt == 0 ==> delay_secs == 5
            &&& attempt == 1 ==> delay_secs == 15
            &&& attempt != 0 && attempt != 1 ==> delay_secs == 45
            &&& notice@ == "retry "@ + decimal((attempt + 1) as nat) + "/"@ + decimal(
                max_attempts as nat,
            ) + (": "@ + e.text() + " (waiting "@ + decimal(delay_secs as nat) + "s)"@)
        },
{
}

/// What a failed command is reported by: its words, with blanks between them, and what git said,
/// without white space around it.
pub proof fn failures_quote_the_command(words: Seq<Seq<char>>, stderr: Seq<char>, e: SyncorError)
    requires
        is_git_failure(words, stderr, e),
    ensures
        e matches SyncorError::Transport(t) && t@ == "git "@ + separated(words, " "@)
            + " failed: "@ + trimmed(stderr),
        words.len() == 1 ==> (e matches SyncorError::Transport(t) && t@ == "git "@ + words[0]
            + " failed: "@ + trimmed(stderr)),
{
}

/// To look at a repository is to clone it without its history.
pub proof fn looks_are_shallow_clones(repo: Seq<char>)
    ensures
        peek_words(repo) == clone_words(repo).insert(2, "--depth=1"@),
        clone_words(repo).contains(repo),
{
    assert(clone_words(repo)[2] == repo);
    assert(peek_words(repo) =~= clone_words(repo).insert(2, "--depth=1"@));
}

/// A repository offers every link of its list, in its order; one that could not be cloned, or has
/// no list, offers none.
pub proof fn all_listed_links_are_offered(
    cloned: bool,
    manifest: Option<RepoManifest>,
    r: Seq<RemoteLinkInfo>,
    i: int,
)
    requires
        are_offered(cloned, manifest, r),
    ensures
        !cloned || manifest is None ==> r.len() == 0,
        cloned ==> (manifest matches Some(m) ==> r.len() == m.links@.len() && (0 <= i < r.len()
            ==> r[i].name@ == m.links@[i].name@ && match m.links@[i].created_at {
            Some(t) => r[i].created_at@ == t@,
            None => r[i].created_at@.len() == 0,
        })),
{
}

} // verus!
