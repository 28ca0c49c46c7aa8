use syncor::config::SyncorPaths;
use syncor::error::SyncorError;
use syncor::link::{LinkId, LinkInfo, LinkMode};
use syncor::progress::Phase;
use syncor::sync::repo::{RepoLink, RepoManifest};
use syncor::transport::git::{
    git_failure, retry_with_backoff, BranchStep, ChangesFlow, GitAnswer, GitCall, GitTransport,
    InitStep, Move, PullFlow, PushFlow, Retry,
};
use syncor::transport::{PullResult, PushResult};

fn out(t: &str) -> GitAnswer {
    GitAnswer::Output(t.to_string())
}

fn exit(success: bool, stderr: &str) -> GitAnswer {
    GitAnswer::Exit { success, stderr: stderr.to_string() }
}

fn call<T: std::fmt::Debug>(m: Move<T>) -> String {
    match m {
        Move::Call(c) => text(c),
        other => panic!("{:?}", other),
    }
}

fn text(c: GitCall) -> String {
    match c {
        GitCall::Ask(args) => format!("ask {}", args.join(" ")),
        GitCall::Must { args, phase } => format!("must {} {:?}", args.join(" "), phase),
        GitCall::Network(args) => format!("network {}", args.join(" ")),
        GitCall::Try { args, phase } => format!("try {} {:?}", args.join(" "), phase),
        GitCall::Wait { secs, notice } => format!("wait {} {}", secs, notice),
    }
}

fn done<T: std::fmt::Debug>(m: Move<T>) -> Result<T, SyncorError> {
    match m {
        Move::Done(r) => r,
        other => panic!("{:?}", other),
    }
}

fn main_branch() -> String {
    "main".to_string()
}

#[test]
fn a_push_commits_and_pushes() {
    let (flow, first) = PushFlow::start(main_branch());
    assert_eq!(text(first), "must add -A GitStage");
    let (flow, m) = flow.next(GitAnswer::Done);
    assert_eq!(call(m), "ask status --porcelain");
    let (flow, m) = flow.next(out(" M x\n"));
    assert_eq!(call(m), "must commit -m syncor push GitCommit");
    let (flow, m) = flow.next(GitAnswer::Done);
    assert_eq!(call(m), "network push --progress -u origin main");
    let (flow, m) = flow.next(exit(true, ""));
    assert_eq!(call(m), "ask rev-parse HEAD");
    let (_, m) = flow.next(out("abc\n"));
    assert!(matches!(done(m), Ok(PushResult::Success { revision }) if revision == "abc"));
}

#[test]
fn nothing_to_commit_is_not_pushed() {
    let (flow, _) = PushFlow::start(main_branch());
    let (flow, _) = flow.next(GitAnswer::Done);
    let (flow, m) = flow.next(out(" \n"));
    assert_eq!(call(m), "ask rev-parse HEAD");
    let (_, m) = flow.next(out("abc\n"));
    assert!(matches!(done(m), Ok(PushResult::Success { revision }) if revision == "abc"));
}

fn pushing() -> PushFlow {
    PushFlow::Pushing { branch: main_branch(), attempt: 0 }
}

#[test]
fn rejected_pushes_are_conflicts() {
    for stderr in [" ! [rejected] main\n", "hint: non-fast-forward\n"] {
        let (_, m) = pushing().next(exit(false, stderr));
        match done(m) {
            Ok(PushResult::Conflict { details }) => assert_eq!(details.message, stderr.trim()),
            other => panic!("{:?}", other),
        }
    }
}

#[test]
fn failed_pushes_are_tried_again() {
    let (flow, m) = pushing().next(exit(false, "no route\n"));
    assert_eq!(call(m), "wait 5 retry 1/3: transport error: push failed: no route (waiting 5s)");
    let (flow, m) = flow.next(GitAnswer::Done);
    assert_eq!(call(m), "network push --progress -u origin main");
    let (flow, m) = flow.next(exit(false, "no route\n"));
    assert_eq!(call(m), "wait 15 retry 2/3: transport error: push failed: no route (waiting 15s)");
    let (flow, _) = flow.next(GitAnswer::Done);
    let (flow, m) = flow.next(exit(false, "no route\n"));
    assert_eq!(
        done(m).unwrap_err().message(),
        "transport error: push failed: no route"
    );
    assert!(matches!(flow, PushFlow::Finished));
}

#[test]
fn lasting_errors_end_a_push() {
    let (_, m) = pushing().next(GitAnswer::Failed(SyncorError::Io("no git".to_string())));
    assert_eq!(done(m).unwrap_err().message(), "IO error: no git");
    let (flow, _) = PushFlow::start(main_branch());
    let (_, m) = flow.next(GitAnswer::Failed(SyncorError::Transport("add".to_string())));
    assert_eq!(done(m).unwrap_err().message(), "transport error: add");
}

#[test]
fn a_pull_fetches_and_merges() {
    let (flow, first) = PullFlow::start(main_branch());
    assert_eq!(text(first), "ask rev-parse HEAD");
    let (flow, m) = flow.next(out("aaa\n"));
    assert_eq!(call(m), "network fetch --progress origin main");
    let (flow, m) = flow.next(exit(true, ""));
    assert_eq!(call(m), "ask rev-parse origin/main");
    let (flow, m) = flow.next(out("bbb\n"));
    assert_eq!(call(m), "try merge --ff-only origin/main Merge");
    let (flow, m) = flow.next(exit(true, ""));
    assert_eq!(call(m), "ask rev-parse HEAD");
    let (_, m) = flow.next(out("bbb\n"));
    assert!(matches!(done(m), Ok(PullResult::Success { revision }) if revision == "bbb"));
}

#[test]
fn equal_heads_are_up_to_date() {
    let at = |head: &str| PullFlow::ReadingRemote { branch: main_branch(), head: head.to_string() };
    let (_, m) = at("aaa\n").next(out("aaa\n"));
    assert!(matches!(done(m), Ok(PullResult::UpToDate)));
    // two unknown heads are not the same
    let (_, m) = at("").next(out(""));
    assert_eq!(call(m), "try merge --ff-only origin/main Merge");
}

#[test]
fn merges_that_do_not_fast_forward_are_conflicts() {
    let (_, m) = PullFlow::Merging.next(exit(false, "fatal"));
    match done(m) {
        Ok(PullResult::Conflict { details }) => {
            assert_eq!(details.message, "cannot fast-forward; manual resolution needed")
        }
        other => panic!("{:?}", other),
    }
}

#[test]
fn a_look_compares_heads() {
    let look = |local: &str, remote: &str| {
        let (flow, first) = ChangesFlow::start(main_branch());
        assert_eq!(text(first), "network fetch --progress origin main");
        let (flow, m) = flow.next(exit(true, ""));
        assert_eq!(call(m), "ask rev-parse HEAD");
        let (flow, m) = flow.next(out(local));
        assert_eq!(call(m), "ask rev-parse origin/main");
        let (_, m) = flow.next(out(remote));
        done(m).unwrap()
    };
    assert!(look("a\n", "b\n"));
    assert!(!look("a\n", "a"));
    let (flow, _) = ChangesFlow::start(main_branch());
    let (flow, m) = flow.next(exit(false, "x"));
    assert_eq!(call(m), "wait 5 retry 1/3: transport error: fetch failed: x (waiting 5s)");
    let (_, m) = flow.next(GitAnswer::Done);
    assert_eq!(call(m), "network fetch --progress origin main");
}

#[test]
fn what_is_tried_again() {
    let e = |t: &str| SyncorError::Transport(t.to_string());
    for t in [
        "fetch failed: x",
        "push failed: x",
        "Could not resolve host: y",
        "Connection refused",
        "it timed out",
    ] {
        assert!(matches!(
            retry_with_backoff(2, 4, e(t)),
            Retry::Again { delay_secs: 45, .. }
        ));
        assert!(matches!(retry_with_backoff(2, 3, e(t)), Retry::GiveUp(_)));
    }
    assert!(matches!(retry_with_backoff(0, 3, e("auth")), Retry::GiveUp(_)));
    assert!(matches!(
        retry_with_backoff(0, 3, SyncorError::Io("fetch failed".to_string())),
        Retry::GiveUp(SyncorError::Io(_))
    ));
}

fn branch_with(answers: &[&str]) -> Vec<String> {
    let given: Vec<String> = answers.iter().map(|a| a.to_string()).collect();
    let mut asked = Vec::new();
    for n in 0..=given.len() {
        match GitTransport::primary_branch(&given[..n].to_vec()) {
            BranchStep::Ask(args) => asked.push(args.join(" ")),
            BranchStep::Chosen(b) => {
                asked.push(format!("= {}", b));
                return asked;
            }
        }
    }
    asked
}

#[test]
fn how_the_branch_is_found() {
    assert_eq!(branch_with(&["dev\n"]), vec!["symbolic-ref --short HEAD", "= dev"]);
    assert_eq!(branch_with(&["", "  main\n"])[2], "= main");
    assert_eq!(
        branch_with(&["", "", "* master\n"]),
        vec![
            "symbolic-ref --short HEAD",
            "branch --list main",
            "branch --list master",
            "= master"
        ]
    );
    assert_eq!(branch_with(&["", "", ""])[3], "= main");
}

fn link() -> LinkInfo {
    LinkInfo {
        id: LinkId::from_text("id".to_string()),
        name: "n".to_string(),
        repo: "url".to_string(),
        local_dirs: vec!["/d".to_string()],
        mode: LinkMode::Push,
        poll_interval_secs: None,
    }
}

fn steps(list: Vec<InitStep>) -> Vec<String> {
    list.into_iter()
        .map(|s| match s {
            InitStep::CreateDir(d) => format!("mkdir {}", d),
            InitStep::WriteIfMissing { path, content } => format!("write {} {:?}", path, content),
            InitStep::Must(args) => format!("must {}", args.join(" ")),
            InitStep::Attempt(args) => format!("attempt {}", args.join(" ")),
        })
        .collect()
}

#[test]
fn setting_a_repository_up() {
    let t = GitTransport::new(SyncorPaths::with_home("/h"));
    let dir = "/h/.local/share/syncor/links/id";
    assert_eq!(t.repo_dir(&link()), dir);
    let store = vec![
        format!("mkdir {dir}/stores/n/packs"),
        format!("mkdir {dir}/stores/n/trees"),
        format!("write {dir}/.gitignore {:?}", "index.bin\n*.sqlite-wal\n*.sqlite-shm\n"),
    ];
    assert_eq!(steps(t.after_clone(&link(), true)), store);
    let fresh = steps(t.after_clone(&link(), false));
    assert_eq!(fresh[..2], ["must init".to_string(), "must remote add origin url".to_string()]);
    assert_eq!(fresh[2..], store[..]);
    assert_eq!(
        steps(GitTransport::first_commit("")),
        vec![
            "must add -A",
            "must commit -m init syncor repo --allow-empty",
            "attempt branch -M main"
        ]
    );
    assert!(GitTransport::first_commit("abc").is_empty());
    assert_eq!(GitTransport::clone_args(&link()).join(" "), "clone --progress url .");
    assert_eq!(
        GitTransport::peek_args("url").join(" "),
        "clone --progress --depth=1 url ."
    );
}

#[test]
fn what_a_repository_offers() {
    let manifest = || {
        Some(RepoManifest {
            links: vec![RepoLink { name: "a".to_string(), created_at: None }],
        })
    };
    assert_eq!(GitTransport::offered_links(true, manifest()).len(), 1);
    assert!(GitTransport::offered_links(false, manifest()).is_empty());
    assert!(GitTransport::offered_links(true, None).is_empty());
}

#[test]
fn failures_name_the_command() {
    let args = vec!["commit".to_string(), "-m".to_string(), "x".to_string()];
    assert_eq!(
        git_failure(&args, "  fatal: no\n").message(),
        "transport error: git commit -m x failed: fatal: no"
    );
    assert_eq!(Phase::GitCommit.label(), "Committing");
}

#[test]
fn failed_authentication_is_not_tried_again() {
    for t in [
        "push failed: fatal: Authentication failed",
        "fetch failed: fatal: Authentication failed for 'https://host/r.git/'",
        "push failed: fatal: could not read Username for 'https://host': terminal prompts disabled",
        "fetch failed: git@host: Permission denied (publickey).",
    ] {
        let e = SyncorError::Transport(t.to_string());
        match retry_with_backoff(0, 3, e) {
            Retry::GiveUp(SyncorError::Transport(back)) => assert_eq!(back, t),
            other => panic!("{:?}", other),
        }
    }

    let denied = "\n fatal: Authentication failed for 'x'\n";
    let (flow, m) = pushing().next(exit(false, denied));
    assert_eq!(
        done(m).unwrap_err().message(),
        "transport error: push failed: fatal: Authentication failed for 'x'"
    );
    assert!(matches!(flow, PushFlow::Finished));

    let (flow, _) = PullFlow::start(main_branch());
    let (flow, _) = flow.next(out("abc\n"));
    let (flow, m) = flow.next(exit(false, denied));
    assert!(done(m).unwrap_err().message().contains("fetch failed: fatal: Authentication failed"));
    assert!(matches!(flow, PullFlow::Finished));

    let (flow, _) = ChangesFlow::start(main_branch());
    let (flow, m) = flow.next(exit(false, denied));
    assert!(done(m).is_err());
    assert!(matches!(flow, ChangesFlow::Finished));
}
