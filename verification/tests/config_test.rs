use std::path::Path;
use syncor::config::{LinksRegistry, SyncorConfig, SyncorPaths};
use syncor::error::SyncorError;
use syncor::link::{LinkId, LinkInfo, LinkMode};
use tempfile::TempDir;

#[test]
fn paths_use_xdg_layout() {
    let home = TempDir::new().unwrap();
    let paths = SyncorPaths::with_home(home.path().to_str().unwrap());
    assert!(paths.config_dir().ends_with("syncor"));
    assert!(paths.data_dir().ends_with("syncor"));
    assert!(paths.config_file().ends_with("config.toml"));
    assert!(paths.links_file().ends_with("links.toml"));
}

#[test]
fn config_default_values() {
    let config = SyncorConfig::default();
    assert_eq!(config.debounce_secs, 2);
    assert_eq!(config.default_poll_interval_secs, 60);
}

fn link(repo: &str, name: &str, dirs: &[&str]) -> LinkInfo {
    LinkInfo {
        id: LinkId::from_parts(repo, name),
        name: name.to_string(),
        repo: repo.to_string(),
        local_dirs: dirs.iter().map(|d| d.to_string()).collect(),
        mode: LinkMode::Push,
        poll_interval_secs: None,
    }
}

#[test]
fn links_registry_add_and_get() {
    let mut registry = LinksRegistry::new();
    let info = LinkInfo {
        id: LinkId::from_parts("repo", "dotfiles"),
        name: "dotfiles".to_string(),
        repo: "repo".to_string(),
        local_dirs: vec!["/home/user/dotfiles".into()],
        mode: LinkMode::Push,
        poll_interval_secs: None,
    };
    registry.add(info.clone()).unwrap();
    let saved: Vec<LinkInfo> = registry.iter().into_iter().cloned().collect();

    let loaded = LinksRegistry::from_links(saved);
    let found = loaded.get_by_name("dotfiles").unwrap();
    assert_eq!(found.repo, "repo");
}

#[test]
fn links_registry_rejects_duplicate_dir() {
    let mut registry = LinksRegistry::new();
    let info1 = LinkInfo {
        id: LinkId::from_parts("repo-a", "name1"),
        name: "name1".to_string(),
        repo: "repo-a".to_string(),
        local_dirs: vec!["/same/dir".into()],
        mode: LinkMode::Push,
        poll_interval_secs: None,
    };
    let info2 = LinkInfo {
        id: LinkId::from_parts("repo-b", "name2"),
        name: "name2".to_string(),
        repo: "repo-b".to_string(),
        local_dirs: vec!["/same/dir".into()],
        mode: LinkMode::Push,
        poll_interval_secs: None,
    };
    registry.add(info1).unwrap();
    assert!(registry.add(info2).is_err());
}

#[test]
fn where_things_are_kept() {
    let paths = SyncorPaths::with_home("/home/u");
    let id = LinkId::from_text("abc".to_string());
    assert_eq!(paths.config_file(), "/home/u/.config/syncor/config.toml");
    assert_eq!(paths.links_file(), "/home/u/.config/syncor/links.toml");
    assert_eq!(paths.data_dir(), "/home/u/.local/share/syncor");
    assert_eq!(paths.socket_path(), "/home/u/.local/share/syncor/syncor.sock");
    assert_eq!(paths.pid_file(), "/home/u/.local/share/syncor/daemon.pid");
    assert_eq!(paths.log_file(), "/home/u/.local/share/syncor/daemon.log");
    assert_eq!(paths.link_dir(), "/home/u/.local/share/syncor/links");
    assert_eq!(paths.link_repo_dir(&id), "/home/u/.local/share/syncor/links/abc");
    assert_eq!(paths.link_state_db(), "/home/u/.local/share/syncor/state.db");
    assert_eq!(paths.link_lock_file(&id), "/home/u/.local/share/syncor/links/abc.lock");
    assert_eq!(paths.clone().config_dir(), "/home/u/.config/syncor");
}

#[test]
fn refused_links_say_why() {
    let mut r = LinksRegistry::new();
    r.add(link("r", "a", &["/x", "/y"])).unwrap();
    let id = LinkId::from_parts("r", "a");
    match r.add(link("r", "a", &["/z"])).unwrap_err() {
        SyncorError::LinkAlreadyExists(t) => {
            assert_eq!(t, format!("id {} already registered", id.as_str()))
        }
        e => panic!("{:?}", e),
    }
    match r.add(link("r", "b", &["/z", "/y/./"])).unwrap_err() {
        SyncorError::LinkAlreadyExists(t) => {
            assert_eq!(t, "directory /y/./ is already managed by another link")
        }
        e => panic!("{:?}", e),
    }
    assert!(matches!(r.add(link("r", "c", &[])).unwrap_err(), SyncorError::Config(_)));
    assert_eq!(r.iter().len(), 1);
}

#[test]
fn links_are_found_and_removed() {
    let mut r = LinksRegistry::default();
    r.add(link("r", "a", &["/x", "/y"])).unwrap();
    r.add(link("r", "b", &["/z"])).unwrap();
    assert_eq!(r.get_by_dir("/y//").unwrap().name, "a");
    assert!(r.get_by_dir("/y/x").is_none());
    assert!(r.get_by_dir("y").is_none());
    assert_eq!(r.get_by_name("b").unwrap().local_dirs, vec!["/z"]);
    let id = LinkId::from_parts("r", "a");
    assert_eq!(r.get_by_id(&id).unwrap().name, "a");
    r.remove(&id).unwrap();
    assert!(r.get_by_id(&id).is_none());
    assert!(r.get_by_dir("/x").is_none());
    match r.remove(&id).unwrap_err() {
        SyncorError::LinkNotFound(t) => assert_eq!(t, id.as_str()),
        e => panic!("{:?}", e),
    }
    // the directory is free again
    r.add(link("other", "c", &["/x"])).unwrap();
}

#[test]
fn links_are_listed_by_id_and_read_back() {
    let mut r = LinksRegistry::new();
    for n in ["a", "b", "c", "d"] {
        r.add(link("r", n, &[n])).unwrap();
    }
    let listed: Vec<LinkInfo> = r.iter().into_iter().cloned().collect();
    let ids: Vec<&str> = listed.iter().map(|l| l.id.as_str()).collect();
    let mut sorted = ids.clone();
    sorted.sort();
    assert_eq!(ids, sorted);
    let mut twice = listed.clone();
    let mut again = link("r", "a", &["/new"]);
    again.poll_interval_secs = Some(5);
    twice.push(again);
    let back = LinksRegistry::from_links(twice);
    assert_eq!(back.iter().len(), 4);
    assert_eq!(back.get_by_name("a").unwrap().local_dirs, vec!["/new"]);
}

#[test]
fn settings_are_set_by_name() {
    let c = SyncorConfig::default();
    let d = c.with_value("debounce_secs", "5").unwrap();
    assert_eq!((d.debounce_secs, d.default_poll_interval_secs), (5, 60));
    let p = d.with_value("default_poll_interval_secs", "+120").unwrap();
    assert_eq!((p.debounce_secs, p.default_poll_interval_secs), (5, 120));
    assert_eq!(
        c.with_value("debounce_secs", "x").unwrap_err(),
        "invalid value for debounce_secs"
    );
    assert_eq!(
        c.with_value("default_poll_interval_secs", "-1").unwrap_err(),
        "invalid value for default_poll_interval_secs"
    );
    assert_eq!(
        c.with_value("colour", "1").unwrap_err(),
        "unknown config key: colour. Valid keys: debounce_secs, default_poll_interval_secs"
    );
}

#[test]
fn paths_join_and_compare_like_unix_paths() {
    let some = [
        "", "/", ".", "..", "a", "/a", "a/", "a/b", "a//b", "./a", "a/./b", "a/.", "/./a", "a/../b",
        "//a", ".//a", "/a/b/", "a/b/.", "..//a",
    ];
    for p in some {
        for q in some {
            assert_eq!(
                syncor::path::join(p, q),
                Path::new(p).join(q).to_str().unwrap(),
                "{p:?} {q:?}"
            );
            assert_eq!(
                syncor::path::same_path(p, q),
                Path::new(p) == Path::new(q),
                "{p:?} {q:?}"
            );
        }
        assert_eq!(
            syncor::path::file_name(p).as_deref(),
            Path::new(p).file_name().and_then(|n| n.to_str()),
            "{p:?}"
        );
    }
}

#[test]
fn removing_a_link_undoes_adding_it() {
    let mut r = LinksRegistry::new();
    r.add(link("r", "a", &["/x"])).unwrap();
    let before: Vec<String> = r.iter().into_iter().map(|l| l.id.as_str().to_string()).collect();
    let b = link("r", "b", &["/y", "/z"]);
    r.add(b.clone()).unwrap();
    r.remove(&b.id).unwrap();
    let after: Vec<String> = r.iter().into_iter().map(|l| l.id.as_str().to_string()).collect();
    assert_eq!(before, after);
    assert!(r.get_by_dir("/z").is_none());
    assert_eq!(r.get_by_dir("/x").unwrap().name, "a");
}
