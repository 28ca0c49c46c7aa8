use std::collections::BTreeMap;
use std::io::Read;
use syncor::sync::restore::{validate_path, RestorePipeline};
use syncor::sync::save::{
    copy_entry, index_entry, removed_paths, Index, ManifestEntry, SavePipeline, SaveResult,
    SaveRun, ScannedFile, Snapshot,
};
use syncor::digest::CompressError;
use syncor::error::SyncorError;

fn scanned(path: &str, size: u64, mtime: i64, mode: u32) -> ScannedFile {
    ScannedFile {
        relative_path: path.to_string(),
        size,
        mtime_secs: mtime,
        mtime_nanos: 0,
        inode: Some(7),
        mode,
    }
}

/// A directory and a store, in memory.
#[derive(Default)]
struct Workspace {
    files: BTreeMap<String, (Vec<u8>, i64, u32)>,
    clock: i64,
}

impl Workspace {
    fn write(&mut self, path: &str, content: &[u8], mode: u32) {
        self.clock += 1;
        self.files.insert(path.to_string(), (content.to_vec(), self.clock, mode));
    }

    fn scan(&self) -> Vec<ScannedFile> {
        self.files
            .iter()
            .map(|(p, (c, t, m))| scanned(p, c.len() as u64, *t, *m))
            .collect()
    }
}

struct Store {
    index: Index,
    packs: BTreeMap<String, Vec<u8>>,
    catalog: Vec<Snapshot>,
}

impl Store {
    fn new() -> Self {
        Store { index: Index::new(), packs: BTreeMap::new(), catalog: Vec::new() }
    }

    fn save(&mut self, workspace: &Workspace) -> SaveResult {
        let files = workspace.scan();
        let plan = SavePipeline::plan(&files, &self.index);
        let latest = self.catalog.last().map(|s| s.id.clone());
        if plan.is_empty() {
            return SavePipeline::unchanged(files.len(), latest);
        }
        let mut run = SaveRun::new();
        for i in &plan.changed {
            let content = &workspace.files[&files[*i].relative_path].0;
            let packed = SavePipeline::pack(&files[*i], content).unwrap();
            let len = packed.compressed.len() as u64;
            self.packs.insert(packed.hash_hex, packed.compressed);
            run.note(packed.entry, len);
        }
        let snapshot =
            SavePipeline::snapshot(&files, &self.index, &run, Some("p".to_string()), latest)
                .unwrap();
        let result = run.result(snapshot.id.clone(), files.len());
        self.catalog.push(snapshot);
        for path in &plan.removed {
            assert!(self.index.remove(path));
        }
        for entry in run.entries {
            self.index.insert(entry.path.clone(), entry);
        }
        result
    }

    fn restore(&self, workspace: &mut Workspace) -> (usize, usize) {
        let manifest = &self.catalog.last().unwrap().manifest;
        let mut restored = 0;
        for step in RestorePipeline::steps(manifest, "/w") {
            let mut content = Vec::new();
            lz4_flex::frame::FrameDecoder::new(&self.packs[&step.hash_hex][..])
                .read_to_end(&mut content)
                .unwrap();
            let dest = step.dest.unwrap();
            workspace.write(dest.strip_prefix("/w/").unwrap(), &content, step.mode);
            restored += 1;
        }
        let mut removed = 0;
        for dest in RestorePipeline::extras(&workspace.scan(), manifest, "/w") {
            workspace.files.remove(dest.unwrap().strip_prefix("/w/").unwrap());
            removed += 1;
        }
        (restored, removed)
    }
}

#[test]
fn save_creates_snapshot_for_new_files() {
    let mut workspace = Workspace::default();
    let mut store = Store::new();

    workspace.write("hello.txt", b"hello world", 0o644);
    workspace.write("data.bin", &[0u8; 1024], 0o644);
    workspace.write("sub/nested.txt", b"nested", 0o644);

    let result = store.save(&workspace);
    assert!(!result.snapshot_id.is_empty());
    assert_eq!(result.files_scanned, 3);
    assert!(result.files_hashed > 0);
    assert!(!store.packs.is_empty());
    assert!(!store.catalog.is_empty());
}

#[test]
fn save_is_incremental_via_index() {
    let mut workspace = Workspace::default();
    let mut store = Store::new();

    workspace.write("a.txt", b"aaa", 0o644);

    let r1 = store.save(&workspace);
    assert!(r1.files_hashed > 0);

    let r2 = store.save(&workspace);
    assert_eq!(r2.files_hashed, 0);
    assert_eq!(r2.snapshot_id, r1.snapshot_id);
}

#[test]
fn save_detects_modified_file() {
    let mut workspace = Workspace::default();
    let mut store = Store::new();

    workspace.write("a.txt", b"version1", 0o644);
    store.save(&workspace);

    workspace.write("a.txt", b"version2", 0o644);
    let r2 = store.save(&workspace);
    assert_eq!(r2.files_hashed, 1);
}

#[test]
fn restore_recreates_files_from_snapshot() {
    let mut workspace = Workspace::default();
    let mut store = Store::new();

    workspace.write("a.txt", b"hello", 0o644);
    workspace.write("b.txt", b"world", 0o644);
    store.save(&workspace);

    workspace.files.clear();
    let (files_restored, _) = store.restore(&mut workspace);

    assert_eq!(files_restored, 2);
    assert_eq!(workspace.files["a.txt"].0, b"hello");
    assert_eq!(workspace.files["b.txt"].0, b"world");
}

#[test]
fn restore_removes_extra_files() {
    let mut workspace = Workspace::default();
    let mut store = Store::new();

    workspace.write("keep.txt", b"keep", 0o644);
    store.save(&workspace);

    workspace.write("extra.txt", b"extra", 0o644);
    let (_, files_removed) = store.restore(&mut workspace);

    assert_eq!(files_removed, 1);
    assert!(!workspace.files.contains_key("extra.txt"));
    assert!(workspace.files.contains_key("keep.txt"));
}

#[test]
fn restore_preserves_file_permissions() {
    let mut workspace = Workspace::default();
    let mut store = Store::new();

    workspace.write("run.sh", b"#!/bin/bash\necho hi", 0o755);
    store.save(&workspace);

    workspace.files.clear();
    store.restore(&mut workspace);

    let mode = workspace.files["run.sh"].2 & 0o777;
    assert!(mode & 0o100 != 0, "execute bit should be preserved, got {:o}", mode);
}

#[test]
fn the_index_goes_by_size_and_time() {
    let file = scanned("f", 10, 5, 0o644);
    let mut index = Index::new();
    index.insert("f".to_string(), index_entry(&file, [1; 16]));
    index.insert("old/b".to_string(), index_entry(&scanned("old/b", 1, 1, 0), [2; 16]));
    index.insert("old/a".to_string(), index_entry(&scanned("old/a", 1, 1, 0), [3; 16]));

    let mut other_mode = scanned("f", 10, 5, 0o755);
    other_mode.inode = None;
    let plan = SavePipeline::plan(&vec![other_mode], &index);
    assert!(plan.changed.is_empty());
    assert_eq!(plan.removed, vec!["old/a", "old/b"]);

    assert_eq!(SavePipeline::plan(&vec![scanned("f", 11, 5, 0)], &index).changed, vec![0]);
    assert_eq!(SavePipeline::plan(&vec![scanned("f", 10, 6, 0)], &index).changed, vec![0]);
    let mut later = scanned("f", 10, 5, 0);
    later.mtime_nanos = 1;
    assert_eq!(
        SavePipeline::plan(&vec![scanned("f", 10, 5, 0), later], &index).changed,
        vec![1]
    );
    assert!(removed_paths(&vec![scanned("old/a", 0, 0, 0), scanned("old/b", 0, 0, 0), file], &index)
        .is_empty());
}

#[test]
fn packing_hashes_and_compresses() {
    let content = b"the same bytes again and again and again and again and again";
    let file = scanned("f", content.len() as u64, 3, 0o600);
    let p = SavePipeline::pack(&file, content).unwrap();
    assert_eq!(p.hash_hex, chkpt_core::store::blob::hash_content(content));
    assert_eq!(p.hash_hex.len(), 32);
    assert_eq!(p.entry.blob_hash, chkpt_core::store::blob::hash_content_bytes(content));
    assert_eq!(
        (p.entry.path.as_str(), p.entry.size, p.entry.mtime_secs, p.entry.inode, p.entry.mode),
        ("f", 60, 3, Some(7), 0o600)
    );
    assert_ne!(p.compressed, content);
    let mut back = Vec::new();
    lz4_flex::frame::FrameDecoder::new(&p.compressed[..]).read_to_end(&mut back).unwrap();
    assert_eq!(back, content);
}

#[test]
fn contents_of_any_size_unpack_to_themselves() {
    for n in [0usize, 1, 13, 4096, 70_000, 300_000] {
        let content: Vec<u8> = (0..n).map(|i| (i * i / 7 % 251) as u8).collect();
        let p = SavePipeline::pack(&scanned("f", n as u64, 0, 0), &content).unwrap();
        let mut back = Vec::new();
        lz4_flex::frame::FrameDecoder::new(&p.compressed[..]).read_to_end(&mut back).unwrap();
        assert_eq!(back, content);
    }
}

#[test]
fn what_fails_in_compression() {
    let file = scanned("f", 0, 0, 0);
    let e = SavePipeline::packed(&file, [0; 16], Err(CompressError::Write("w".to_string())));
    assert!(matches!(e, Err(SyncorError::Io(t)) if t == "w"));
    let e = SavePipeline::packed(&file, [0; 16], Err(CompressError::Finish("f".to_string())));
    assert!(matches!(e, Err(SyncorError::Other(t)) if t == "f"));
    let p = SavePipeline::packed(&file, [0xab; 16], Ok(vec![1, 2])).unwrap();
    assert_eq!(p.hash_hex, "ab".repeat(16));
    assert_eq!(p.compressed, vec![1, 2]);
}

#[test]
fn snapshots_list_the_scan_by_path() {
    let mut index = Index::new();
    index.insert("kept".to_string(), index_entry(&scanned("kept", 5, 1, 0o644), [1; 16]));
    index.insert("gone".to_string(), index_entry(&scanned("gone", 9, 1, 0o644), [2; 16]));
    let files = vec![
        scanned("zeta", 3, 2, 0o755),
        scanned("kept", 5, 1, 0o644),
        scanned("alpha", 2, 2, 0o600),
    ];
    let mut run = SaveRun::new();
    run.note(index_entry(&files[0], [3; 16]), 100);
    run.note(index_entry(&files[2], [4; 16]), 20);
    let snap = SavePipeline::snapshot_named(
        "id".to_string(),
        &files,
        &index,
        &run,
        Some("pack".to_string()),
        Some("parent".to_string()),
    )
    .unwrap();
    let paths: Vec<&str> = snap.manifest.iter().map(|e| e.path.as_str()).collect();
    assert_eq!(paths, vec!["alpha", "kept", "zeta"]);
    assert_eq!(snap.manifest[1].blob_hash, [1; 16]);
    assert_eq!(snap.manifest[2].mode, 0o755);
    assert_eq!((snap.total_files, snap.total_bytes, snap.new_objects), (3, 10, 2));
    assert_eq!(snap.id, "id");
    assert_eq!(snap.parent_snapshot_id.as_deref(), Some("parent"));
    assert_eq!(snap.blob_locations.len(), 2);
    assert_eq!(snap.blob_locations[1].blob_hash, [4; 16]);
    assert_eq!(snap.blob_locations[1].size, 2);
    assert_eq!(snap.blob_locations[1].pack_hash.as_deref(), Some("pack"));
    let result = run.result("id".to_string(), 3);
    assert_eq!((result.files_hashed, result.bytes_compressed), (2, 120));
}

#[test]
fn sizes_that_do_not_add_up_make_no_snapshot() {
    let files = vec![scanned("a", u64::MAX, 1, 0), scanned("b", 1, 1, 0)];
    let mut run = SaveRun::new();
    run.note(index_entry(&files[0], [0; 16]), 0);
    assert!(SavePipeline::snapshot(&files, &Index::new(), &run, None, None).is_some());
    run.note(index_entry(&files[1], [0; 16]), 0);
    assert!(SavePipeline::snapshot(&files, &Index::new(), &run, None, None).is_none());
}

#[test]
fn snapshot_ids_are_time_ordered_uuids() {
    let run = SaveRun::new();
    let files = Vec::new();
    let a = SavePipeline::snapshot(&files, &Index::new(), &run, None, None).unwrap().id;
    let b = SavePipeline::snapshot(&files, &Index::new(), &run, None, None).unwrap().id;
    for id in [&a, &b] {
        assert_eq!(id.len(), 36);
        assert_eq!(&id[14..15], "7");
        assert!(id.chars().all(|c| c == '-' || c.is_ascii_digit() || ('a'..='f').contains(&c)));
    }
    assert_ne!(a, b);
}

#[test]
fn unchanged_directories_keep_their_snapshot() {
    let r = SavePipeline::unchanged(4, Some("s".to_string()));
    assert_eq!((r.snapshot_id.as_str(), r.files_scanned, r.files_hashed), ("s", 4, 0));
    assert_eq!(SavePipeline::unchanged(0, None).snapshot_id, "");
}

#[test]
fn paths_that_escape_are_refused() {
    for bad in ["/etc/passwd", "\\x", "..", "a/../b", "a/..", "..a", "x...y"] {
        assert_eq!(
            validate_path("/base", bad).unwrap_err().message(),
            format!("unsafe path in manifest: {}", bad)
        );
    }
    for good in ["a", "a/b", ".hidden", "a.b", "", "a\\b"] {
        assert_eq!(validate_path("/base", good).unwrap(), format!("/base/{}", good));
    }
}

#[test]
fn a_bad_path_shows_in_its_step() {
    let entry = |path: &str| ManifestEntry {
        path: path.to_string(),
        blob_hash: [0x1f; 16],
        size: 1,
        mode: 0o644,
    };
    let manifest = vec![entry("ok"), entry("../bad")];
    let steps = RestorePipeline::steps(&manifest, "/t");
    assert_eq!(steps[0].dest.as_ref().unwrap(), "/t/ok");
    assert_eq!(steps[0].hash_hex, "1f".repeat(16));
    assert!(steps[1].dest.is_err());
    let extras = RestorePipeline::extras(
        &vec![scanned("ok", 0, 0, 0), scanned("more", 0, 0, 0)],
        &manifest,
        "/t",
    );
    assert_eq!(extras.len(), 1);
    assert_eq!(extras[0].as_ref().unwrap(), "/t/more");
    assert_eq!(copy_entry(&manifest[1]).path, "../bad");
}

#[test]
fn restoring_mirrors_the_snapshot_and_spares_ignored_files() {
    let mut workspace = Workspace::default();
    let mut store = Store::new();
    workspace.write("a", b"saved", 0o600);
    workspace.write("sub/b", b"saved too", 0o644);
    store.save(&workspace);
    workspace.write("a", b"edited", 0o644);
    workspace.files.remove("sub/b");
    workspace.write("new", b"unsaved", 0o644);
    // a scan that passes over `ignored` never names it
    let scan = workspace.scan();
    let manifest = &store.catalog.last().unwrap().manifest;
    let extras = RestorePipeline::extras(&scan, manifest, "/w");
    assert_eq!(extras.len(), 1);
    assert_eq!(extras[0].as_ref().unwrap(), "/w/new");
    assert_eq!(store.restore(&mut workspace), (2, 1));
    assert_eq!(workspace.files["a"].0, b"saved");
    assert_eq!(workspace.files["a"].2, 0o600);
    assert_eq!(workspace.files["sub/b"].0, b"saved too");
    assert_eq!(workspace.files.len(), 2);
}

#[test]
fn files_that_the_index_kept_are_restored_too() {
    let mut workspace = Workspace::default();
    let mut store = Store::new();
    workspace.write("kept", b"read by the first save", 0o640);
    workspace.write("changed", b"first", 0o644);
    assert_eq!(store.save(&workspace).files_hashed, 2);
    workspace.write("changed", b"second", 0o755);
    let second = store.save(&workspace);
    assert_eq!((second.files_scanned, second.files_hashed), (2, 1));

    workspace.write("kept", b"edited", 0o600);
    workspace.files.remove("changed");
    workspace.write("added", b"new", 0o600);
    assert_eq!(store.restore(&mut workspace), (second.files_scanned, 1));
    assert_eq!(workspace.files.len(), 2);
    assert_eq!(workspace.files["kept"].0, b"read by the first save");
    assert_eq!(workspace.files["kept"].2, 0o640);
    assert_eq!(workspace.files["changed"].0, b"second");
    assert_eq!(workspace.files["changed"].2, 0o755);
}

#[test]
fn empty_directories_go_deepest_first() {
    let words = |list: &[&str]| -> Vec<String> { list.iter().map(|w| w.to_string()).collect() };
    let dirs = words(&["a", "a/b", "a/b/c", "ab", "keep", "keep/x", "keep/y", "z"]);
    let files = words(&["keep/y/file", "abc", "top"]);
    assert_eq!(
        RestorePipeline::empty_dirs(&dirs, &files),
        vec!["z", "keep/x", "ab", "a/b/c", "a/b", "a"]
    );
    // An ignored file keeps its directories, and a longer name is no directory above.
    let files = words(&["a/b/.ignored", "abc/file", "zz"]);
    assert_eq!(
        RestorePipeline::empty_dirs(&dirs, &files),
        vec!["z", "keep/y", "keep/x", "keep", "ab", "a/b/c"]
    );
    assert!(RestorePipeline::empty_dirs(&Vec::new(), &files).is_empty());
}
