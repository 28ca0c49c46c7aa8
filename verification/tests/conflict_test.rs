use syncor::sync::conflict::{
    detect_conflicts, same_hash, Conflict, ConflictResolver, FileAction, KeepLocalResolver,
    ManifestMap, Resolution,
};

fn map(entries: &[(&str, [u8; 16])]) -> ManifestMap {
    let mut m = ManifestMap::new();
    for (p, h) in entries {
        m.insert(p.to_string(), *h);
    }
    m
}

#[test]
fn no_change() {
    let a = [1u8; 16];
    let base = map(&[("f.txt", a)]);
    let local = map(&[("f.txt", a)]);
    let remote = map(&[("f.txt", a)]);
    let actions = detect_conflicts(&base, &local, &remote);
    assert!(actions.is_empty());
}

#[test]
fn remote_changed_auto_apply() {
    let a = [1u8; 16];
    let b = [2u8; 16];
    let base = map(&[("f.txt", a)]);
    let local = map(&[("f.txt", a)]);
    let remote = map(&[("f.txt", b)]);
    let actions = detect_conflicts(&base, &local, &remote);
    assert_eq!(actions.len(), 1);
    assert!(matches!(actions[0], FileAction::ApplyRemote { .. }));
}

#[test]
fn local_changed_auto_keep() {
    let a = [1u8; 16];
    let b = [2u8; 16];
    let base = map(&[("f.txt", a)]);
    let local = map(&[("f.txt", b)]);
    let remote = map(&[("f.txt", a)]);
    let actions = detect_conflicts(&base, &local, &remote);
    assert!(actions.is_empty());
}

#[test]
fn both_changed_differently_is_conflict() {
    let a = [1u8; 16];
    let b = [2u8; 16];
    let c = [3u8; 16];
    let base = map(&[("f.txt", a)]);
    let local = map(&[("f.txt", b)]);
    let remote = map(&[("f.txt", c)]);
    let actions = detect_conflicts(&base, &local, &remote);
    assert_eq!(actions.len(), 1);
    assert!(matches!(actions[0], FileAction::Conflict { .. }));
}

#[test]
fn remote_added_auto_apply() {
    let b = [2u8; 16];
    let base = map(&[]);
    let local = map(&[]);
    let remote = map(&[("new.txt", b)]);
    let actions = detect_conflicts(&base, &local, &remote);
    assert_eq!(actions.len(), 1);
    assert!(matches!(actions[0], FileAction::ApplyRemote { .. }));
}

#[test]
fn both_added_differently_is_conflict() {
    let b = [2u8; 16];
    let c = [3u8; 16];
    let base = map(&[]);
    let local = map(&[("f.txt", b)]);
    let remote = map(&[("f.txt", c)]);
    let actions = detect_conflicts(&base, &local, &remote);
    assert_eq!(actions.len(), 1);
    assert!(matches!(actions[0], FileAction::Conflict { .. }));
}

#[test]
fn local_deleted_remote_changed_is_conflict() {
    let a = [1u8; 16];
    let b = [2u8; 16];
    let base = map(&[("f.txt", a)]);
    let local = map(&[]);
    let remote = map(&[("f.txt", b)]);
    let actions = detect_conflicts(&base, &local, &remote);
    assert_eq!(actions.len(), 1);
    assert!(matches!(actions[0], FileAction::Conflict { .. }));
}

#[test]
fn remote_deleted_auto_apply() {
    let a = [1u8; 16];
    let base = map(&[("f.txt", a)]);
    let local = map(&[("f.txt", a)]);
    let remote = map(&[]);
    let actions = detect_conflicts(&base, &local, &remote);
    assert_eq!(actions.len(), 1);
    assert!(matches!(actions[0], FileAction::DeleteLocal { .. }));
}

#[test]
fn local_changed_remote_deleted_is_conflict() {
    let base = map(&[("f.txt", [1; 16])]);
    let local = map(&[("f.txt", [2; 16])]);
    let actions = detect_conflicts(&base, &local, &map(&[]));
    assert_eq!(
        actions,
        vec![FileAction::Conflict(Conflict {
            path: "f.txt".to_string(),
            base_hash: Some([1; 16]),
            local_hash: Some([2; 16]),
            remote_hash: None,
        })]
    );
}

#[test]
fn quiet_rows_of_the_table() {
    let a = [1u8; 16];
    let b = [2u8; 16];
    // local added
    assert!(detect_conflicts(&map(&[]), &map(&[("f", b)]), &map(&[])).is_empty());
    // both added the same
    assert!(detect_conflicts(&map(&[]), &map(&[("f", b)]), &map(&[("f", b)])).is_empty());
    // both made the same change
    assert!(detect_conflicts(&map(&[("f", a)]), &map(&[("f", b)]), &map(&[("f", b)])).is_empty());
    // local deleted
    assert!(detect_conflicts(&map(&[("f", a)]), &map(&[]), &map(&[("f", a)])).is_empty());
    // both deleted
    assert!(detect_conflicts(&map(&[("f", a)]), &map(&[]), &map(&[])).is_empty());
}

#[test]
fn actions_come_in_path_order() {
    let base = map(&[("z", [1; 16]), ("m", [1; 16])]);
    let local = map(&[("m", [1; 16]), ("z", [1; 16])]);
    let remote = map(&[("b", [3; 16]), ("a", [4; 16]), ("m", [5; 16])]);
    let actions = detect_conflicts(&base, &local, &remote);
    assert_eq!(
        actions,
        vec![
            FileAction::ApplyRemote { path: "a".to_string(), remote_hash: [4; 16] },
            FileAction::ApplyRemote { path: "b".to_string(), remote_hash: [3; 16] },
            FileAction::ApplyRemote { path: "m".to_string(), remote_hash: [5; 16] },
            FileAction::DeleteLocal { path: "z".to_string() },
        ]
    );
}

#[test]
fn a_conflict_on_one_side_is_one_on_the_other() {
    let base = map(&[("f", [1; 16]), ("g", [1; 16])]);
    let one = map(&[("f", [2; 16]), ("g", [9; 16])]);
    let two = map(&[("f", [3; 16]), ("g", [1; 16])]);
    let here = detect_conflicts(&base, &one, &two);
    let there = detect_conflicts(&base, &two, &one);
    assert!(matches!(&here[0], FileAction::Conflict(c) if c.path == "f"));
    assert!(matches!(&there[0], FileAction::Conflict(c) if c.path == "f"));
    assert_eq!(here.len(), 1);
    assert_eq!(there.len(), 2);
}

#[test]
fn keep_local_resolver_keeps_local() {
    let c = Conflict {
        path: "f".to_string(),
        base_hash: None,
        local_hash: Some([1; 16]),
        remote_hash: Some([2; 16]),
    };
    assert_eq!(KeepLocalResolver.resolve(&c), Resolution::KeepLocal);
}

#[test]
fn hashes_compare_by_every_byte() {
    let mut b = [7u8; 16];
    assert!(same_hash(&[7; 16], &b));
    b[15] = 8;
    assert!(!same_hash(&[7; 16], &b));
}
