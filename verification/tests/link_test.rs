use syncor::cli::{default_link_name, new_link};
use syncor::link::{LinkId, LinkInfo, LinkMode, LinkState, RawLinkInfo};

#[test]
fn link_id_is_deterministic() {
    let id1 = LinkId::from_parts("my-repo", "dotfiles");
    let id2 = LinkId::from_parts("my-repo", "dotfiles");
    assert_eq!(id1, id2);
}

#[test]
fn link_id_differs_for_different_inputs() {
    let id1 = LinkId::from_parts("repo-a", "dotfiles");
    let id2 = LinkId::from_parts("repo-b", "dotfiles");
    assert_ne!(id1, id2);
}

#[test]
fn link_state_default_is_idle() {
    let state = LinkState::default();
    assert!(matches!(state, LinkState::Idle));
}

#[test]
fn link_id_is_stable_xxh3() {
    let id = LinkId::from_parts("https://github.com/user/repo.git", "dotfiles");
    // XXH3-128 produces 32-char hex string
    assert_eq!(id.as_str().len(), 32);
    // Deterministic
    let id2 = LinkId::from_parts("https://github.com/user/repo.git", "dotfiles");
    assert_eq!(id.as_str(), id2.as_str());
}

#[test]
fn link_id_is_the_hash_of_its_parts() {
    let want = chkpt_core::store::blob::hash_content(b"repo\0name");
    assert_eq!(LinkId::from_parts("repo", "name").as_str(), want);
    assert_ne!(LinkId::from_parts("ab", "cd"), LinkId::from_parts("a", "bcd"));
    assert_eq!(LinkId::from_text("x".to_string()).as_str(), "x");
}

fn raw(local_dir: Option<&str>, local_dirs: Option<Vec<&str>>) -> RawLinkInfo {
    RawLinkInfo {
        id: LinkId::from_parts("r", "n"),
        name: "n".to_string(),
        repo: "r".to_string(),
        local_dir: local_dir.map(|d| d.to_string()),
        local_dirs: local_dirs.map(|v| v.into_iter().map(|d| d.to_string()).collect()),
        mode: LinkMode::Pull,
        poll_interval_secs: Some(7),
    }
}

#[test]
fn entries_name_one_directory_or_several() {
    let one: LinkInfo = raw(Some("/a"), None).into_info().unwrap();
    assert_eq!(one.local_dirs, vec!["/a"]);
    assert_eq!(one.poll_interval_secs, Some(7));
    assert_eq!(one.mode, LinkMode::Pull);
    let two = raw(None, Some(vec!["/a", "/b"])).into_info().unwrap();
    assert_eq!(two.local_dirs, vec!["/a", "/b"]);
    assert_eq!(two.primary_dir(), "/a");
}

#[test]
fn entries_with_both_or_neither_are_refused() {
    assert_eq!(
        raw(Some("/a"), Some(vec!["/b"])).into_info().unwrap_err(),
        "link entry has both `local_dir` and `local_dirs`; use `local_dirs` only"
    );
    assert_eq!(
        raw(None, None).into_info().unwrap_err(),
        "link entry is missing `local_dirs` (or legacy `local_dir`)"
    );
}

#[test]
fn new_links_have_the_id_of_their_parts() {
    let l = new_link("repo", "dots", "/home/u/dots", LinkMode::Push);
    assert_eq!(l.id, LinkId::from_parts("repo", "dots"));
    assert_eq!(l.local_dirs, vec!["/home/u/dots"]);
    assert_eq!(l.mode, LinkMode::Push);
    assert_eq!(l.poll_interval_secs, None);
    let c = l.clone();
    assert_eq!((c.name, c.repo), ("dots".to_string(), "repo".to_string()));
}

#[test]
fn links_are_named_after_their_directory() {
    assert_eq!(default_link_name("/home/u/dots"), "dots");
    assert_eq!(default_link_name("/home/u/dots/"), "dots");
    assert_eq!(default_link_name("/"), "default");
    assert_eq!(default_link_name("a/.."), "default");
}

#[test]
fn link_ids_are_hexadecimal() {
    for (repo, name) in [("", ""), ("r", "n"), ("https://host/\u{e9}.git", "\u{1f600}")] {
        let id = LinkId::from_parts(repo, name);
        assert_eq!(id.as_str().len(), 32);
        assert!(id.as_str().chars().all(|c| c.is_ascii_digit() || ('a'..='f').contains(&c)));
    }
}
