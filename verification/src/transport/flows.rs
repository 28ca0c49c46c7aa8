//! Whole pushes, pulls and looks for changes: laws over all that git is asked and all that it
//! answers, from the first command to the end.

use crate::error::SyncorError;
use crate::text::{
    decimal, is_blank, occurring_is_standing_between, occurs_in, only_blank_texts_trim_to_nothing,
    texts, trimmed,
};
use crate::transport::git::{
    is_branch_step, is_fetch_error, is_look_move, is_look_start, is_pull_move, is_pull_opening,
    is_push_error, is_push_move, is_push_start, look_failed, pull_failed, push_failed, retryable,
    BranchStep, ChangesFlow, GitAnswer, GitCall, Move, PullFlow, PushFlow,
};
use crate::transport::{PullResult, PushResult};
use vstd::prelude::*;

verus! {

// ---------------------------------------------------------------------------
// Commands
// ---------------------------------------------------------------------------

/// Whether a command line has these words.
pub open spec fn is_command(args: Vec<String>, words: Seq<Seq<char>>) -> bool {
    &&& args@.len() == words.len()
    &&& forall|i: int| 0 <= i < words.len() ==> (#[trigger] args@[i])@ == words[i]
}

/// Whether a move asks git for the output of a command.
pub open spec fn is_question<T>(m: Move<T>, words: Seq<Seq<char>>) -> bool {
    m matches Move::Call(GitCall::Ask(args)) && is_command(args, words)
}

/// Whether a move runs a command that talks to the remote side.
pub open spec fn is_contact<T>(m: Move<T>, words: Seq<Seq<char>>) -> bool {
    m matches Move::Call(GitCall::Network(args)) && is_command(args, words)
}

/// Whether a move commits what is staged.
pub open spec fn is_commit<T>(m: Move<T>) -> bool {
    m matches Move::Call(GitCall::Must { args, phase }) && is_command(
        args,
        seq!["commit"@, "-m"@, "syncor push"@],
    ) && phase is GitCommit
}

/// Whether a move tries to merge a branch of the remote side, without making a commit of its own.
pub open spec fn is_merge<T>(m: Move<T>, branch: Seq<char>) -> bool {
    m matches Move::Call(GitCall::Try { args, phase }) && is_command(
        args,
        seq!["merge"@, "--ff-only"@, "origin/"@ + branch],
    ) && phase is Merge
}

/// Whether a move pushes a branch.
pub open spec fn is_push_of<T>(m: Move<T>, branch: Seq<char>) -> bool {
    is_contact(m, seq!["push"@, "--progress"@, "-u"@, "origin"@, branch])
}

/// Whether a move fetches a branch.
pub open spec fn is_fetch_of<T>(m: Move<T>, branch: Seq<char>) -> bool {
    is_contact(m, seq!["fetch"@, "--progress"@, "origin"@, branch])
}

/// Whether git said in an answer that a command ended well.
pub open spec fn went_well(a: GitAnswer) -> bool {
    a matches GitAnswer::Exit { success, .. } && success
}

/// The output in an answer.
pub open spec fn output_of(a: GitAnswer) -> Seq<char> {
    match a {
        GitAnswer::Output(t) => t@,
        _ => Seq::empty(),
    }
}

/// A command line, word by word.
proof fn word_by_word(args: Vec<String>, words: Seq<Seq<char>>)
    requires
        texts(args@) == words,
    ensures
        is_command(args, words),
{
    assert(args@.len() == words.len());
    assert forall|i: int| 0 <= i < words.len() implies (#[trigger] args@[i])@ == words[i] by {
        assert(texts(args@)[i] == words[i]);
    }
}

// ---------------------------------------------------------------------------
// Pushing
// ---------------------------------------------------------------------------

/// What a step of a push asks for, in words.
proof fn push_words_of(st: PushFlow, a: GitAnswer, next: PushFlow, m: Move<PushResult>)
    requires
        is_push_move(st, a, next, m),
    ensures
        m matches Move::Call(GitCall::Ask(args)) ==> is_command(args, texts(args@)),
        m matches Move::Call(GitCall::Network(args)) ==> is_command(args, texts(args@)),
        m matches Move::Call(GitCall::Must { args, .. }) ==> is_command(args, texts(args@)),
{
    match m {
        Move::Call(GitCall::Ask(args)) => {
            word_by_word(args, texts(args@));
        },
        Move::Call(GitCall::Network(args)) => {
            word_by_word(args, texts(args@));
        },
        Move::Call(GitCall::Must { args, .. }) => {
            word_by_word(args, texts(args@));
        },
        _ => {},
    }
}

/// A push first looks for what there is to commit. Whatever the status says, as long as it says
/// anything, it commits; where the status is blank, it asks for the head and nothing more.
pub proof fn anything_to_commit_is_committed(
    branch: String,
    status: String,
    next: PushFlow,
    m: Move<PushResult>,
)
    requires
        is_push_move((PushFlow::Checking { branch }), GitAnswer::Output(status), next, m),
    ensures
        !is_blank(status@) ==> is_commit(m) && next == (PushFlow::Committing { branch }),
        is_blank(status@) ==> is_question(m, seq!["rev-parse"@, "HEAD"@]) && next is KeepingHead,
{
    only_blank_texts_trim_to_nothing(status@);
    push_words_of(PushFlow::Checking { branch }, GitAnswer::Output(status), next, m);
}

/// What was committed is pushed: the branch, to the remote side.
pub proof fn commits_are_pushed(branch: String, next: PushFlow, m: Move<PushResult>)
    requires
        is_push_move((PushFlow::Committing { branch }), GitAnswer::Done, next, m),
    ensures
        is_push_of(m, branch@),
        next == (PushFlow::Pushing { branch, attempt: 0 }),
{
    push_words_of(PushFlow::Committing { branch }, GitAnswer::Done, next, m);
}

/// Whether answers lead a push of a branch through its states and moves, from its start.
pub open spec fn is_push_run(
    branch: Seq<char>,
    states: Seq<PushFlow>,
    answers: Seq<GitAnswer>,
    moves: Seq<Move<PushResult>>,
) -> bool {
    &&& states.len() == answers.len() + 1
    &&& moves.len() == answers.len()
    &&& states[0] matches PushFlow::Staging { branch: b } && b@ == branch
    &&& forall|i: int|
        0 <= i < answers.len() ==> {
            &&& states[i].takes(#[trigger] answers[i])
            &&& is_push_move(states[i], answers[i], states[i + 1], moves[i])
        }
}

/// Whether nothing before step `n` of a push talks to the remote side.
pub open spec fn is_offline<T>(moves: Seq<Move<T>>, n: int) -> bool {
    forall|i: int|
        0 <= i < n && i < moves.len() ==> !((#[trigger] moves[i]) matches Move::Call(
            GitCall::Network(_),
        ))
}

/// Whether a push committed before it came to step `n`: the status was not blank, and the commit
/// that followed it was made.
pub open spec fn has_committed(
    answers: Seq<GitAnswer>,
    moves: Seq<Move<PushResult>>,
    n: int,
) -> bool {
    &&& 3 <= n <= answers.len()
    &&& is_question(moves[0], seq!["status"@, "--porcelain"@])
    &&& answers[1] is Output
    &&& !is_blank(output_of(answers[1]))
    &&& is_commit(moves[1])
    &&& answers[2] is Done
}

/// What holds of a push when it has come to step `n`.
spec fn push_history(
    branch: Seq<char>,
    states: Seq<PushFlow>,
    answers: Seq<GitAnswer>,
    moves: Seq<Move<PushResult>>,
    n: int,
) -> bool {
    match states[n] {
        PushFlow::Staging { branch: b } => n == 0 && b@ == branch,
        PushFlow::Checking { branch: b } => n == 1 && b@ == branch && answers[0] is Done
            && is_question(moves[0], seq!["status"@, "--porcelain"@]),
        PushFlow::KeepingHead => {
            &&& n == 2
            &&& is_question(moves[0], seq!["status"@, "--porcelain"@])
            &&& answers[1] is Output
            &&& is_blank(output_of(answers[1]))
            &&& is_question(moves[1], seq!["rev-parse"@, "HEAD"@])
        },
        PushFlow::Committing { branch: b } => {
            &&& n == 2
            &&& b@ == branch
            &&& is_question(moves[0], seq!["status"@, "--porcelain"@])
            &&& answers[1] is Output
            &&& !is_blank(output_of(answers[1]))
            &&& is_commit(moves[1])
        },
        PushFlow::Pushing { branch: b, .. } => {
            &&& b@ == branch
            &&& has_committed(answers, moves, n)
            &&& is_push_of(moves[n - 1], branch)
        },
        PushFlow::Waiting { branch: b, .. } => b@ == branch && has_committed(answers, moves, n),
        PushFlow::Pushed => {
            &&& has_committed(answers, moves, n)
            &&& n >= 4
            &&& is_push_of(moves[n - 2], branch)
            &&& went_well(answers[n - 1])
            &&& is_question(moves[n - 1], seq!["rev-parse"@, "HEAD"@])
        },
        PushFlow::Finished => true,
    }
}

/// What holds of a push at every step.
proof fn push_so_far(
    branch: Seq<char>,
    states: Seq<PushFlow>,
    answers: Seq<GitAnswer>,
    moves: Seq<Move<PushResult>>,
    n: int,
)
    requires
        is_push_run(branch, states, answers, moves),
        0 <= n <= answers.len(),
    ensures
        push_history(branch, states, answers, moves, n),
    decreases n,
{
    if n > 0 {
        push_so_far(branch, states, answers, moves, n - 1);
        let st = states[n - 1];
        let a = answers[n - 1];
        assert(st.takes(a));
        assert(is_push_move(st, a, states[n], moves[n - 1]));
        push_words_of(st, a, states[n], moves[n - 1]);
        if let PushFlow::Checking { .. } = st {
            if let GitAnswer::Output(t) = a {
                only_blank_texts_trim_to_nothing(t@);
            }
        }
    }
}

/// A push succeeds only in one of two ways. The status was blank, and it never talked to the
/// remote side. Or it committed what the status told of, pushed the branch, and git said that the
/// push went well. Either way it ends at the head that git names last.
pub proof fn successful_pushes_have_pushed(
    branch: Seq<char>,
    states: Seq<PushFlow>,
    answers: Seq<GitAnswer>,
    moves: Seq<Move<PushResult>>,
)
    requires
        is_push_run(branch, states, answers, moves),
        answers.len() > 0,
        moves[answers.len() - 1] matches Move::Done(Ok(r)) && r is Success,
    ensures
        ({
            let n = answers.len() as int;
            &&& n >= 3
            &&& is_question(moves[n - 2], seq!["rev-parse"@, "HEAD"@])
            &&& moves[n - 1] matches Move::Done(Ok(PushResult::Success { revision })) && revision@
                == trimmed(output_of(answers[n - 1]))
            &&& is_question(moves[0], seq!["status"@, "--porcelain"@])
            &&& if is_blank(output_of(answers[1])) {
                n == 3 && is_offline(moves, n)
            } else {
                &&& has_committed(answers, moves, n)
                &&& is_push_of(moves[n - 3], branch)
                &&& went_well(answers[n - 2])
            }
        }),
{
    let n = answers.len() as int;
    push_so_far(branch, states, answers, moves, n - 1);
    assert(is_push_move(states[n - 1], answers[n - 1], states[n], moves[n - 1]));
    if states[n - 1] is KeepingHead {
        assert forall|i: int| 0 <= i < n implies !((#[trigger] moves[i]) matches Move::Call(
            GitCall::Network(_),
        )) by {
            assert(i == 0 || i == 1 || i == 2);
        }
    }
}

/// A push reports a conflict only if git refused the push itself, with words to that effect; what
/// git said is passed on.
pub proof fn conflicts_are_refused_pushes(
    branch: Seq<char>,
    states: Seq<PushFlow>,
    answers: Seq<GitAnswer>,
    moves: Seq<Move<PushResult>>,
)
    requires
        is_push_run(branch, states, answers, moves),
        answers.len() > 0,
        moves[answers.len() - 1] matches Move::Done(Ok(r)) && r is Conflict,
    ensures
        ({
            let n = answers.len() as int;
            &&& has_committed(answers, moves, n)
            &&& is_push_of(moves[n - 2], branch)
            &&& answers[n - 1] matches GitAnswer::Exit { success, stderr } && !success && (
            occurs_in(stderr@, "non-fast-forward"@) || occurs_in(stderr@, "rejected"@)) && (moves[n
                - 1] matches Move::Done(Ok(PushResult::Conflict { details })) && details.message@
                == trimmed(stderr@))
        }),
{
    let n = answers.len() as int;
    push_so_far(branch, states, answers, moves, n - 1);
    assert(is_push_move(states[n - 1], answers[n - 1], states[n], moves[n - 1]));
}

/// What becomes of a push that git ended. If it went well, the head is asked for. If git says
/// that it was rejected, the push ends with a conflict. Anything else is tried again, or ends the
/// push with an error that holds what git said.
pub proof fn every_end_of_a_push_counts(
    branch: String,
    attempt: u32,
    success: bool,
    stderr: String,
    next: PushFlow,
    m: Move<PushResult>,
)
    requires
        is_push_move(
            (PushFlow::Pushing { branch, attempt }),
            (GitAnswer::Exit { success, stderr }),
            next,
            m,
        ),
    ensures
        success ==> is_question(m, seq!["rev-parse"@, "HEAD"@]) && next is Pushed,
        !success && (occurs_in(stderr@, "non-fast-forward"@) || occurs_in(stderr@, "rejected"@))
            ==> (m matches Move::Done(Ok(PushResult::Conflict { details })) && details.message@
            == trimmed(stderr@)),
        !success && !occurs_in(stderr@, "non-fast-forward"@) && !occurs_in(stderr@, "rejected"@)
            ==> {
            ||| m matches Move::Call(GitCall::Wait { .. }) && (next matches PushFlow::Waiting {
                branch: b,
                attempt: n,
            } && b@ == branch@ && n == attempt)
            ||| m matches Move::Done(Err(SyncorError::Transport(t))) && t@ == "push failed: "@
                + trimmed(stderr@)
        },
{
    push_words_of(
        PushFlow::Pushing { branch, attempt },
        GitAnswer::Exit { success, stderr },
        next,
        m,
    );
    if !success && !occurs_in(stderr@, "non-fast-forward"@) && !occurs_in(stderr@, "rejected"@) {
        let e = choose|e: SyncorError|
            is_push_error(e, stderr@) && #[trigger] push_failed(branch@, attempt, e, next, m);
        assert(push_failed(branch@, attempt, e, next, m));
    }
}

/// After a wait the same branch is pushed once more.
pub proof fn waiting_pushes_go_on(branch: String, attempt: u32, next: PushFlow, m: Move<PushResult>)
    requires
        is_push_move((PushFlow::Waiting { branch, attempt }), GitAnswer::Done, next, m),
    ensures
        is_push_of(m, branch@),
        next matches PushFlow::Pushing { branch: b, attempt: n } && b == branch && n == attempt + 1,
{
    push_words_of(PushFlow::Waiting { branch, attempt }, GitAnswer::Done, next, m);
}

/// A command that had to succeed and did not ends a push with its own error.
pub proof fn failed_preparations_end_a_push(
    st: PushFlow,
    e: SyncorError,
    next: PushFlow,
    m: Move<PushResult>,
)
    requires
        st is Staging || st is Committing,
        is_push_move(st, GitAnswer::Failed(e), next, m),
    ensures
        m == Move::<PushResult>::Done(Err(e)),
        next is Finished,
{
}

// ---------------------------------------------------------------------------
// Retrying
// ---------------------------------------------------------------------------

/// Another attempt follows a failed one exactly if there is one left of the three and the error
/// may pass. The first waits five seconds, each other one three times as long as the one before;
/// the user is told the number of the attempt, the error and the wait.
pub proof fn attempts_wait_longer_and_longer(
    branch: Seq<char>,
    attempt: u32,
    e: SyncorError,
    next: PushFlow,
    m: Move<PushResult>,
)
    requires
        attempt < 3,
        push_failed(branch, attempt, e, next, m),
    ensures
        retryable(e) && attempt < 2 ==> (m matches Move::Call(GitCall::Wait { secs, notice }) && secs
            == (if attempt == 0 {
            5int
        } else {
            15
        }) && notice@ == "retry "@ + decimal((attempt + 1) as nat) + "/"@ + decimal(3) + (": "@
            + e.text() + " (waiting "@ + decimal(secs as nat) + "s)"@)),
        !retryable(e) || attempt == 2 ==> m == Move::<PushResult>::Done(Err(e)),
{
}

/// Pushes, pulls and looks for changes decide alike about a failed attempt.
pub proof fn all_flows_retry_alike(
    branch: Seq<char>,
    head: Seq<char>,
    attempt: u32,
    e: SyncorError,
    push: PushFlow,
    push_move: Move<PushResult>,
    pull: PullFlow,
    pull_move: Move<PullResult>,
    look: ChangesFlow,
    look_move: Move<bool>,
)
    requires
        attempt < 3,
        push_failed(branch, attempt, e, push, push_move),
        pull_failed(branch, head, attempt, e, pull, pull_move),
        look_failed(branch, attempt, e, look, look_move),
    ensures
        push_move matches Move::Call(GitCall::Wait { secs, notice }) ==> {
            &&& pull_move matches Move::Call(GitCall::Wait { secs: s, notice: t }) && s == secs && t@
                == notice@
            &&& look_move matches Move::Call(GitCall::Wait { secs: s, notice: t }) && s == secs && t@
                == notice@
            &&& pull matches PullFlow::Waiting { branch: b, head: h, attempt: n } && b@ == branch
                && h@ == head && n == attempt
            &&& look matches ChangesFlow::Waiting { branch: b, attempt: n } && b@ == branch && n
                == attempt
        },
        push_move is Done ==> {
            &&& push_move == Move::<PushResult>::Done(Err(e))
            &&& pull_move == Move::<PullResult>::Done(Err(e))
            &&& look_move == Move::<bool>::Done(Err(e))
        },
        push_move is Done || push_move matches Move::Call(GitCall::Wait { .. }),
{
}

/// An error of the network may pass, wherever in the message its name stands, unless the message
/// reports a failed authentication; an error that is not one of the transport never does.
pub proof fn network_errors_may_pass(
    m: String,
    front: Seq<char>,
    name: Seq<char>,
    behind: Seq<char>,
)
    requires
        m@ == front + name + behind,
        name == "fetch failed"@ || name == "push failed"@ || name == "Could not resolve host"@
            || name == "Connection refused"@ || name == "timed out"@,
        !occurs_in(m@, "Authentication failed"@),
        !occurs_in(m@, "could not read Username"@),
        !occurs_in(m@, "Permission denied (publickey"@),
    ensures
        retryable(SyncorError::Transport(m)),
        forall|e: SyncorError| #[trigger] retryable(e) ==> e is Transport,
{
    occurring_is_standing_between(m@, name);
    assert(m@ == front + name + behind);
}

/// A message without any name of a network error is not one that may pass, nor is one that
/// reports a failed authentication, wherever it does.
pub proof fn other_errors_are_final(m: String, front: Seq<char>, name: Seq<char>, behind: Seq<char>)
    requires
        name == "Authentication failed"@ || name == "could not read Username"@ || name
            == "Permission denied (publickey"@,
    ensures
        m@ == front + name + behind ==> !retryable(SyncorError::Transport(m)),
        !occurs_in(m@, "fetch failed"@) && !occurs_in(m@, "push failed"@) && !occurs_in(
            m@,
            "Could not resolve host"@,
        ) && !occurs_in(m@, "Connection refused"@) && !occurs_in(m@, "timed out"@) ==> !retryable(
            SyncorError::Transport(m),
        ),
{
    if m@ == front + name + behind {
        occurring_is_standing_between(m@, name);
        assert(occurs_in(m@, name));
    }
}

// ---------------------------------------------------------------------------
// Pulling
// ---------------------------------------------------------------------------

/// What a step of a pull asks for, in words.
proof fn pull_words_of(m: Move<PullResult>)
    ensures
        m matches Move::Call(GitCall::Ask(args)) ==> is_command(args, texts(args@)),
        m matches Move::Call(GitCall::Network(args)) ==> is_command(args, texts(args@)),
        m matches Move::Call(GitCall::Try { args, .. }) ==> is_command(args, texts(args@)),
{
    match m {
        Move::Call(GitCall::Ask(args)) => {
            word_by_word(args, texts(args@));
        },
        Move::Call(GitCall::Network(args)) => {
            word_by_word(args, texts(args@));
        },
        Move::Call(GitCall::Try { args, .. }) => {
            word_by_word(args, texts(args@));
        },
        _ => {},
    }
}

/// Whether answers lead a pull of a branch through its states and moves, from its start, at which
/// it asks for the present head.
pub open spec fn is_pull_run(
    branch: Seq<char>,
    states: Seq<PullFlow>,
    answers: Seq<GitAnswer>,
    moves: Seq<Move<PullResult>>,
) -> bool {
    &&& states.len() == answers.len() + 1
    &&& moves.len() == answers.len()
    &&& states[0] matches PullFlow::ReadingHead { branch: b } && b@ == branch
    &&& forall|i: int|
        0 <= i < answers.len() ==> {
            &&& states[i].takes(#[trigger] answers[i])
            &&& is_pull_move(states[i], answers[i], states[i + 1], moves[i])
        }
}

/// Whether a pull has fetched the branch, and git said at step `k` that it went well.
pub open spec fn has_fetched<T>(
    branch: Seq<char>,
    answers: Seq<GitAnswer>,
    moves: Seq<Move<T>>,
    k: int,
) -> bool {
    1 <= k < answers.len() && is_fetch_of(moves[k - 1], branch) && went_well(answers[k])
}

/// What holds of a pull when it has come to step `n`.
spec fn pull_history(
    branch: Seq<char>,
    states: Seq<PullFlow>,
    answers: Seq<GitAnswer>,
    moves: Seq<Move<PullResult>>,
    n: int,
) -> bool {
    match states[n] {
        PullFlow::ReadingHead { branch: b } => n == 0 && b@ == branch,
        PullFlow::Fetching { branch: b, head, .. } => {
            &&& n >= 1
            &&& b@ == branch
            &&& head@ == output_of(answers[0])
            &&& is_fetch_of(moves[n - 1], branch)
        },
        PullFlow::Waiting { branch: b, head, .. } => n >= 1 && b@ == branch && head@ == output_of(
            answers[0],
        ),
        PullFlow::ReadingRemote { branch: b, head } => {
            &&& n >= 2
            &&& b@ == branch
            &&& head@ == output_of(answers[0])
            &&& has_fetched(branch, answers, moves, n - 1)
            &&& is_question(moves[n - 1], seq!["rev-parse"@, "origin/"@ + branch])
        },
        PullFlow::Merging => {
            &&& n >= 3
            &&& has_fetched(branch, answers, moves, n - 2)
            &&& is_question(moves[n - 2], seq!["rev-parse"@, "origin/"@ + branch])
            &&& is_merge(moves[n - 1], branch)
        },
        PullFlow::Merged => {
            &&& n >= 4
            &&& has_fetched(branch, answers, moves, n - 3)
            &&& is_merge(moves[n - 2], branch)
            &&& went_well(answers[n - 1])
            &&& is_question(moves[n - 1], seq!["rev-parse"@, "HEAD"@])
        },
        PullFlow::Finished => true,
    }
}

/// What holds of a pull at every step.
proof fn pull_so_far(
    branch: Seq<char>,
    states: Seq<PullFlow>,
    answers: Seq<GitAnswer>,
    moves: Seq<Move<PullResult>>,
    n: int,
)
    requires
        is_pull_run(branch, states, answers, moves),
        0 <= n <= answers.len(),
    ensures
        pull_history(branch, states, answers, moves, n),
    decreases n,
{
    if n > 0 {
        pull_so_far(branch, states, answers, moves, n - 1);
        assert(states[n - 1].takes(answers[n - 1]));
        assert(is_pull_move(states[n - 1], answers[n - 1], states[n], moves[n - 1]));
        pull_words_of(moves[n - 1]);
    }
}

/// A pull that reports anything but an error has fetched the branch. It is up to date only if the
/// remote branch then stands at the head that was there before, and there was one. It succeeds
/// only if the remote branch was merged without a commit of its own, and ends at the head that
/// git names last. It reports a conflict only if git could not merge so.
pub proof fn pulls_report_what_happened(
    branch: Seq<char>,
    states: Seq<PullFlow>,
    answers: Seq<GitAnswer>,
    moves: Seq<Move<PullResult>>,
)
    requires
        is_pull_run(branch, states, answers, moves),
        answers.len() > 0,
        moves[answers.len() - 1] matches Move::Done(Ok(_)),
    ensures
        ({
            let n = answers.len() as int;
            let last = answers[n - 1];
            match moves[n - 1] {
                Move::Done(Ok(PullResult::UpToDate)) => {
                    &&& has_fetched(branch, answers, moves, n - 2)
                    &&& is_question(moves[n - 2], seq!["rev-parse"@, "origin/"@ + branch])
                    &&& trimmed(output_of(answers[0])) == trimmed(output_of(last))
                    &&& output_of(answers[0]).len() > 0
                },
                Move::Done(Ok(PullResult::Success { revision })) => {
                    &&& has_fetched(branch, answers, moves, n - 4)
                    &&& is_merge(moves[n - 3], branch)
                    &&& went_well(answers[n - 2])
                    &&& is_question(moves[n - 2], seq!["rev-parse"@, "HEAD"@])
                    &&& revision@ == trimmed(output_of(last))
                },
                Move::Done(Ok(PullResult::Conflict { details })) => {
                    &&& has_fetched(branch, answers, moves, n - 3)
                    &&& is_merge(moves[n - 2], branch)
                    &&& last is Exit && !went_well(last)
                    &&& details.message@ == "cannot fast-forward; manual resolution needed"@
                },
                _ => false,
            }
        }),
{
    let n = answers.len() as int;
    pull_so_far(branch, states, answers, moves, n - 1);
    assert(states[n - 1].takes(answers[n - 1]));
    assert(is_pull_move(states[n - 1], answers[n - 1], states[n], moves[n - 1]));
}

/// A pull that finds the remote branch at the head that it has is done; one that finds it
/// elsewhere, or has no head yet, merges it.
pub proof fn new_commits_are_merged(
    branch: String,
    head: String,
    remote: String,
    next: PullFlow,
    m: Move<PullResult>,
)
    requires
        is_pull_move(
            (PullFlow::ReadingRemote { branch, head }),
            GitAnswer::Output(remote),
            next,
            m,
        ),
    ensures
        trimmed(head@) == trimmed(remote@) && head@.len() > 0 ==> m matches Move::Done(
            Ok(PullResult::UpToDate),
        ),
        trimmed(head@) != trimmed(remote@) || head@.len() == 0 ==> is_merge(m, branch@) && next
            is Merging,
{
    pull_words_of(m);
}

/// A pull fetches its branch whatever the head is, and once git says that a fetch went well it
/// looks at the remote branch. Once git says that the merge went well it looks at the head; where
/// it did not, the pull ends in a conflict.
pub proof fn pulls_go_on(
    branch: String,
    head: String,
    attempt: u32,
    stderr: String,
    a: PullFlow,
    first: Move<PullResult>,
    b: PullFlow,
    second: Move<PullResult>,
    success: bool,
    c: PullFlow,
    third: Move<PullResult>,
)
    requires
        is_pull_move((PullFlow::ReadingHead { branch }), GitAnswer::Output(head), a, first),
        is_pull_move(
            (PullFlow::Fetching { branch, head, attempt }),
            (GitAnswer::Exit { success: true, stderr }),
            b,
            second,
        ),
        is_pull_move(PullFlow::Merging, (GitAnswer::Exit { success, stderr }), c, third),
    ensures
        is_fetch_of(first, branch@),
        a == (PullFlow::Fetching { branch, head, attempt: 0 }),
        is_question(second, seq!["rev-parse"@, "origin/"@ + branch@]),
        b == (PullFlow::ReadingRemote { branch, head }),
        success ==> is_question(third, seq!["rev-parse"@, "HEAD"@]) && c is Merged,
        !success ==> third matches Move::Done(Ok(PullResult::Conflict { .. })),
{
    pull_words_of(first);
    pull_words_of(second);
    pull_words_of(third);
}

/// A fetch that git ended badly is tried again, or ends the pull with an error that holds what
/// git said. After a wait the same branch is fetched once more.
pub proof fn failed_fetches_count(
    branch: String,
    head: String,
    attempt: u32,
    stderr: String,
    next: PullFlow,
    m: Move<PullResult>,
    later: PullFlow,
    again: Move<PullResult>,
)
    requires
        is_pull_move(
            (PullFlow::Fetching { branch, head, attempt }),
            (GitAnswer::Exit { success: false, stderr }),
            next,
            m,
        ),
        is_pull_move(
            (PullFlow::Waiting { branch, head, attempt }),
            GitAnswer::Done,
            later,
            again,
        ),
    ensures
        ({
            ||| m matches Move::Call(GitCall::Wait { .. }) && (next matches PullFlow::Waiting {
                branch: b,
                head: h,
                attempt: n,
            } && b@ == branch@ && h@ == head@ && n == attempt)
            ||| m matches Move::Done(Err(SyncorError::Transport(t))) && t@ == "fetch failed: "@
                + trimmed(stderr@)
        }),
        is_fetch_of(again, branch@),
        later matches PullFlow::Fetching { branch: b, head: h, attempt: n } && b == branch && h
            == head && n == attempt + 1,
{
    pull_words_of(again);
    let e = choose|e: SyncorError|
        is_fetch_error(e, stderr@) && #[trigger] pull_failed(
            branch@,
            head@,
            attempt,
            e,
            next,
            m,
        );
    assert(pull_failed(branch@, head@, attempt, e, next, m));
}

// ---------------------------------------------------------------------------
// Looking for changes
// ---------------------------------------------------------------------------

/// What a step of a look asks for, in words.
proof fn look_words_of(m: Move<bool>)
    ensures
        m matches Move::Call(GitCall::Ask(args)) ==> is_command(args, texts(args@)),
        m matches Move::Call(GitCall::Network(args)) ==> is_command(args, texts(args@)),
{
    match m {
        Move::Call(GitCall::Ask(args)) => {
            word_by_word(args, texts(args@));
        },
        Move::Call(GitCall::Network(args)) => {
            word_by_word(args, texts(args@));
        },
        _ => {},
    }
}

/// A look for changes: once git says that the fetch went well it asks for the own head, then for
/// that of the remote branch, and there are changes exactly if the two differ. White space around
/// them does not matter.
pub proof fn changes_are_different_heads(
    branch: String,
    attempt: u32,
    stderr: String,
    local: String,
    remote: String,
    a: ChangesFlow,
    first: Move<bool>,
    b: ChangesFlow,
    second: Move<bool>,
    c: ChangesFlow,
    third: Move<bool>,
)
    requires
        is_look_move(
            (ChangesFlow::Fetching { branch, attempt }),
            (GitAnswer::Exit { success: true, stderr }),
            a,
            first,
        ),
        is_look_move(a, GitAnswer::Output(local), b, second),
        is_look_move(b, GitAnswer::Output(remote), c, third),
    ensures
        is_question(first, seq!["rev-parse"@, "HEAD"@]),
        is_question(second, seq!["rev-parse"@, "origin/"@ + branch@]),
        third == Move::Done(Ok::<bool, SyncorError>(trimmed(local@) != trimmed(remote@))),
        c is Finished,
{
    look_words_of(first);
    look_words_of(second);
}

/// A look for changes ends well only by comparing two heads, and comes to that only by a fetch
/// that went well.
pub proof fn looks_compare_after_fetching(
    st: ChangesFlow,
    answer: GitAnswer,
    next: ChangesFlow,
    m: Move<bool>,
)
    requires
        st.takes(answer),
        is_look_move(st, answer, next, m),
    ensures
        m matches Move::Done(Ok(_)) ==> st is ReadingRemote && answer is Output,
        next is ReadingRemote ==> st is ReadingLocal && answer is Output && next->local@
            == output_of(answer),
        next is ReadingLocal ==> st is Fetching && went_well(answer),
        next matches ChangesFlow::Fetching { branch: b, attempt: n } ==> (st
            matches ChangesFlow::Waiting { branch, attempt } && b == branch && n == attempt + 1
            && is_fetch_of(m, branch@)),
{
    look_words_of(m);
}

// ---------------------------------------------------------------------------
// The branch
// ---------------------------------------------------------------------------

/// The branch that is checked out is taken under its own name. Only where none is does the
/// repository get asked for `main`, and only where it has no `main` for `master`.
pub proof fn the_checked_out_branch_is_taken(answers: Seq<Seq<char>>, r: BranchStep)
    requires
        is_branch_step(answers, r),
    ensures
        answers.len() == 0 ==> (r matches BranchStep::Ask(args) && is_command(
            args,
            seq!["symbolic-ref"@, "--short"@, "HEAD"@],
        )),
        answers.len() > 0 && !is_blank(answers[0]) ==> (r matches BranchStep::Chosen(b) && b@
            == trimmed(answers[0])),
        answers.len() == 1 && is_blank(answers[0]) ==> (r matches BranchStep::Ask(args)
            && is_command(args, seq!["branch"@, "--list"@, "main"@])),
        answers.len() == 2 && is_blank(answers[0]) && !occurs_in(answers[1], "main"@) ==> (r
            matches BranchStep::Ask(args) && is_command(
            args,
            seq!["branch"@, "--list"@, "master"@],
        )),
        answers.len() >= 2 && is_blank(answers[0]) && occurs_in(answers[1], "main"@) ==> (r
            matches BranchStep::Chosen(b) && b@ == "main"@),
        answers.len() >= 3 && is_blank(answers[0]) && !occurs_in(answers[1], "main"@) ==> (r
            matches BranchStep::Chosen(b) && b@ == (if occurs_in(answers[2], "master"@) {
            "master"@
        } else {
            "main"@
        })),
{
    if answers.len() > 0 {
        only_blank_texts_trim_to_nothing(answers[0]);
    }
    if let BranchStep::Ask(args) = r {
        word_by_word(args, texts(args@));
    }
}

// ---------------------------------------------------------------------------
// The start
// ---------------------------------------------------------------------------

/// A push starts by staging everything, and goes on to the status once that is done. A pull starts
/// with the question for the head, and a look for changes with a fetch.
pub proof fn flows_start_at_the_beginning(
    branch: String,
    push: PushFlow,
    push_call: GitCall,
    next: PushFlow,
    m: Move<PushResult>,
    pull: PullFlow,
    pull_call: GitCall,
    look: ChangesFlow,
    look_call: GitCall,
)
    requires
        is_push_start(branch, push, push_call),
        is_push_move(push, GitAnswer::Done, next, m),
        is_pull_opening(branch, pull, pull_call),
        is_look_start(branch, look, look_call),
    ensures
        push_call matches GitCall::Must { args, phase } && is_command(args, seq!["add"@, "-A"@])
            && phase is GitStage,
        is_question(m, seq!["status"@, "--porcelain"@]),
        next == (PushFlow::Checking { branch }),
        pull == (PullFlow::ReadingHead { branch }),
        pull_call matches GitCall::Ask(args) && is_command(args, seq!["rev-parse"@, "HEAD"@]),
        look == (ChangesFlow::Fetching { branch, attempt: 0 }),
        look_call matches GitCall::Network(args) && is_command(
            args,
            seq!["fetch"@, "--progress"@, "origin"@, branch@],
        ),
{
    push_words_of(push, GitAnswer::Done, next, m);
    if let GitCall::Must { args, .. } = push_call {
        word_by_word(args, texts(args@));
    }
    if let GitCall::Ask(args) = pull_call {
        word_by_word(args, texts(args@));
    }
    if let GitCall::Network(args) = look_call {
        word_by_word(args, texts(args@));
    }
}

// ---------------------------------------------------------------------------
// Commands that could not be run
// ---------------------------------------------------------------------------

/// A push that could not be run is tried again with the same branch if the error may pass and it
/// was not the third attempt; otherwise the error ends it.
pub proof fn pushes_that_do_not_run(
    branch: String,
    attempt: u32,
    e: SyncorError,
    next: PushFlow,
    m: Move<PushResult>,
)
    requires
        is_push_move((PushFlow::Pushing { branch, attempt }), GitAnswer::Failed(e), next, m),
    ensures
        retryable(e) && attempt < 2 ==> (m matches Move::Call(c) && c is Wait) && (next
            matches PushFlow::Waiting { branch: b, attempt: n } && b@ == branch@ && n == attempt),
        !retryable(e) || attempt >= 2 ==> m == Move::<PushResult>::Done(Err(e)) && next is Finished,
{
}

/// A fetch that could not be run is tried again with the same branch if the error may pass and it
/// was not the third attempt; otherwise the error ends the pull. A merge that could not be run ends
/// it at once.
pub proof fn pulls_that_do_not_run(
    branch: String,
    head: String,
    attempt: u32,
    e: SyncorError,
    next: PullFlow,
    m: Move<PullResult>,
    end: PullFlow,
    last: Move<PullResult>,
)
    requires
        is_pull_move((PullFlow::Fetching { branch, head, attempt }), GitAnswer::Failed(e), next, m),
        is_pull_move(PullFlow::Merging, GitAnswer::Failed(e), end, last),
    ensures
        retryable(e) && attempt < 2 ==> (m matches Move::Call(c) && c is Wait) && (next
            matches PullFlow::Waiting { branch: b, head: h, attempt: n } && b@ == branch@ && h@
            == head@ && n == attempt),
        !retryable(e) || attempt >= 2 ==> m == Move::<PullResult>::Done(Err(e)) && next is Finished,
        last == Move::<PullResult>::Done(Err(e)),
        end is Finished,
{
}

/// A look for changes whose fetch failed is tried again with the same branch, or ends with the
/// error: the one that kept the fetch from running, or one that holds what git said.
pub proof fn looks_that_fail(
    branch: String,
    attempt: u32,
    e: SyncorError,
    next: ChangesFlow,
    m: Move<bool>,
    stderr: String,
    then: ChangesFlow,
    n: Move<bool>,
)
    requires
        is_look_move((ChangesFlow::Fetching { branch, attempt }), GitAnswer::Failed(e), next, m),
        is_look_move(
            (ChangesFlow::Fetching { branch, attempt }),
            (GitAnswer::Exit { success: false, stderr }),
            then,
            n,
        ),
    ensures
        retryable(e) && attempt < 2 ==> (m matches Move::Call(c) && c is Wait) && (next
            matches ChangesFlow::Waiting { branch: b, attempt: k } && b@ == branch@ && k == attempt),
        !retryable(e) || attempt >= 2 ==> m == Move::<bool>::Done(Err(e)) && next is Finished,
        ({
            ||| n matches Move::Call(GitCall::Wait { .. }) && (then matches ChangesFlow::Waiting {
                branch: b,
                attempt: k,
            } && b@ == branch@ && k == attempt)
            ||| n matches Move::Done(Err(SyncorError::Transport(t))) && t@ == "fetch failed: "@
                + trimmed(stderr@)
        }),
{
    let f = choose|f: SyncorError|
        is_fetch_error(f, stderr@) && #[trigger] look_failed(branch@, attempt, f, then, n);
    assert(look_failed(branch@, attempt, f, then, n));
}

} // verus!
