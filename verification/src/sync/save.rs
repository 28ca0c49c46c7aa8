//! Saving a directory: which files have to be read again, and what the new snapshot holds.

use crate::clock::{fresh_id, is_uuid_v7};
use crate::digest::{content_hash, hex_text, lz4_content, lz4_frame, CompressError};
use crate::error::{Result, SyncorError};
use crate::sort::{is_order, order};
use crate::text_map::{lists_keys, TextMap};
use chkpt_core::store::blob::{bytes_to_hex, hash_content_bytes};
use vstd::prelude::*;

verus! {

/// A file that a scan of the directory found.
#[derive(Debug)]
pub struct ScannedFile {
    pub relative_path: String,
    pub size: u64,
    pub mtime_secs: i64,
    pub mtime_nanos: i64,
    pub inode: Option<u64>,
    pub mode: u32,
}

/// What the file index remembers of a file.
#[derive(Debug)]
pub struct FileEntry {
    pub path: String,
    pub blob_hash: [u8; 16],
    pub size: u64,
    pub mtime_secs: i64,
    pub mtime_nanos: i64,
    pub inode: Option<u64>,
    pub mode: u32,
}

/// The file index: entries by path.
pub type Index = TextMap<FileEntry>;

/// One file of a snapshot.
#[derive(Debug)]
pub struct ManifestEntry {
    pub path: String,
    pub blob_hash: [u8; 16],
    pub size: u64,
    pub mode: u32,
}

/// Where a blob is kept.
#[derive(Debug)]
pub struct BlobLocation {
    pub blob_hash: [u8; 16],
    pub pack_hash: Option<String>,
    pub size: u64,
}

/// What a save did.
#[derive(Debug)]
pub struct SaveResult {
    pub snapshot_id: String,
    pub files_scanned: usize,
    pub files_hashed: usize,
    pub bytes_compressed: u64,
}

/// Packs are cut into chunks of this many bytes, to stay under the file limit of common hosts.
pub const PACK_CHUNK_BYTES: u64 = 50_000_000;

// ---------------------------------------------------------------------------
// What has changed
// ---------------------------------------------------------------------------

/// Whether the index has the file as it was scanned: same size, same modification time.
pub open spec fn up_to_date(file: ScannedFile, index: Map<Seq<char>, FileEntry>) -> bool {
    let path = file.relative_path@;
    &&& index.dom().contains(path)
    &&& index[path].size == file.size
    &&& index[path].mtime_secs == file.mtime_secs
    &&& index[path].mtime_nanos == file.mtime_nanos
}

/// The positions of the files, among the first `n`, that have to be read again.
pub open spec fn changed_among(
    scanned: Seq<ScannedFile>,
    index: Map<Seq<char>, FileEntry>,
    n: nat,
) -> Seq<usize>
    decreases n,
{
    if n == 0 {
        Seq::empty()
    } else if up_to_date(scanned[n - 1], index) {
        changed_among(scanned, index, (n - 1) as nat)
    } else {
        changed_among(scanned, index, (n - 1) as nat).push((n - 1) as usize)
    }
}

/// The positions of the files that have to be read again.
pub open spec fn changed(scanned: Seq<ScannedFile>, index: Map<Seq<char>, FileEntry>) -> Seq<usize> {
    changed_among(scanned, index, scanned.len())
}

/// Whether a scan found `path`.
pub open spec fn found(scanned: Seq<ScannedFile>, path: Seq<char>) -> bool {
    exists|i: int| 0 <= i < scanned.len() && (#[trigger] scanned[i]).relative_path@ == path
}

/// Whether `removed` are the indexed paths that the scan did not find.
pub open spec fn are_removed(
    removed: Seq<String>,
    scanned: Seq<ScannedFile>,
    index: Map<Seq<char>, FileEntry>,
) -> bool {
    &&& forall|i: int|
        0 <= i < removed.len() ==> index.dom().contains((#[trigger] removed[i])@) && !found(
            scanned,
            removed[i]@,
        )
    &&& forall|path: Seq<char>|
        #[trigger] index.dom().contains(path) && !found(scanned, path) ==> exists|i: int|
            0 <= i < removed.len() && (#[trigger] removed[i])@ == path
    &&& forall|i: int, j: int|
        0 <= i < j < removed.len() ==> crate::text::before(
            (#[trigger] removed[i])@,
            (#[trigger] removed[j])@,
        )
}

/// What the index remembers of a file with a given content.
pub fn index_entry(file: &ScannedFile, blob_hash: [u8; 16]) -> (r: FileEntry)
    ensures
        describes(r, *file),
        r.blob_hash == blob_hash,
{
    FileEntry {
        path: file.relative_path.clone(),
        blob_hash,
        size: file.size,
        mtime_secs: file.mtime_secs,
        mtime_nanos: file.mtime_nanos,
        inode: file.inode,
        mode: file.mode,
    }
}

/// What a save has to do.
#[derive(Debug)]
pub struct SavePlan {
    /// Positions, in the scan, of the files to read.
    pub changed: Vec<usize>,
    /// Indexed paths that are gone.
    pub removed: Vec<String>,
}

/// Whether a plan names what a save has to read, and what is gone.
pub open spec fn is_save_plan(
    plan: SavePlan,
    scanned: Seq<ScannedFile>,
    index: Map<Seq<char>, FileEntry>,
) -> bool {
    plan.changed@ == changed(scanned, index) && are_removed(plan.removed@, scanned, index)
}

/// Whether a save has nothing to do.
pub open spec fn nothing_to_save(plan: SavePlan) -> bool {
    plan.changed@.len() == 0 && plan.removed@.len() == 0
}

impl SavePlan {
    /// Whether there is nothing to save: the latest snapshot stands.
    pub fn is_empty(&self) -> (r: bool)
        ensures
            r == nothing_to_save(*self),
    {
        self.changed.len() == 0 && self.removed.len() == 0
    }
}

/// A file that was read, ready for the pack.
#[derive(Debug)]
pub struct PackedFile {
    pub entry: FileEntry,
    pub hash_hex: String,
    pub compressed: Vec<u8>,
}

/// The set of the paths that a scan found.
fn scanned_paths(scanned: &Vec<ScannedFile>) -> (r: TextMap<()>)
    ensures
        forall|path: Seq<char>| #[trigger] r@.dom().contains(path) <==> found(scanned@, path),
{
    let mut r: TextMap<()> = TextMap::new();
    let mut i: usize = 0;
    while i < scanned.len()
        invariant
            i <= scanned@.len(),
            forall|path: Seq<char>| #[trigger]
                r@.dom().contains(path) <==> found(scanned@.subrange(0, i as int), path),
        decreases scanned@.len() - i,
    {
        let ghost was = r@;
        r.insert(scanned[i].relative_path.clone(), ());
        proof {
            let p = scanned@.subrange(0, i as int);
            let q = scanned@.subrange(0, i + 1);
            let last = scanned@[i as int].relative_path@;
            assert forall|path: Seq<char>| #[trigger]
                r@.dom().contains(path) <==> found(q, path) by {
                assert(r@.dom().contains(path) <==> was.dom().contains(path) || path == last);
                if found(p, path) {
                    let j = choose|j: int|
                        0 <= j < p.len() && (#[trigger] p[j]).relative_path@ == path;
                    assert(q[j].relative_path@ == path);
                }
                assert(q[i as int].relative_path@ == last);
                if found(q, path) {
                    let j = choose|j: int|
                        0 <= j < q.len() && (#[trigger] q[j]).relative_path@ == path;
                    if j < i {
                        assert(p[j].relative_path@ == path);
                    }
                }
            }
        }
        i = i + 1;
    }
    assert(scanned@.subrange(0, scanned@.len() as int) =~= scanned@);
    r
}

/// The indexed paths that the scan did not find, in order.
pub fn removed_paths(scanned: &Vec<ScannedFile>, index: &Index) -> (r: Vec<String>)
    ensures
        are_removed(r@, scanned@, index@),
{
    let present = scanned_paths(scanned);
    let n: usize = index.len();
    let mut r: Vec<String> = Vec::new();
    let mut i: usize = 0;
    while i < n
        invariant
            i <= n,
            n == index.keys().len(),
            lists_keys(index.keys(), index@),
            forall|path: Seq<char>| #[trigger]
                present@.dom().contains(path) <==> found(scanned@, path),
            forall|a: int|
                0 <= a < r@.len() ==> index@.dom().contains((#[trigger] r@[a])@) && !found(
                    scanned@,
                    r@[a]@,
                ),
            forall|b: int|
                0 <= b < i && !found(scanned@, #[trigger] index.keys()[b]) ==> exists|a: int|
                    0 <= a < r@.len() && (#[trigger] r@[a])@ == index.keys()[b],
            forall|a: int, b: int|
                0 <= a < b < r@.len() ==> crate::text::before(
                    (#[trigger] r@[a])@,
                    (#[trigger] r@[b])@,
                ),
            forall|a: int, b: int|
                0 <= a < r@.len() && i <= b < n ==> crate::text::before(
                    (#[trigger] r@[a])@,
                    #[trigger] index.keys()[b],
                ),
        decreases n - i,
    {
        let path = index.key(i);
        let ghost was = r@;
        if !present.contains(path.as_str()) {
            r.push(path.clone());
            assert(r@[was.len() as int]@ == index.keys()[i as int]);
        }
        proof {
            assert forall|b: int|
                0 <= b < i + 1 && !found(scanned@, #[trigger] index.keys()[b]) implies exists|a: int|
                0 <= a < r@.len() && (#[trigger] r@[a])@ == index.keys()[b] by {
                if b < i {
                    let a = choose|a: int|
                        0 <= a < was.len() && (#[trigger] was[a])@ == index.keys()[b];
                    assert(r@[a]@ == index.keys()[b]);
                }
            }
        }
        i = i + 1;
    }
    proof {
        assert forall|path: Seq<char>|
            #[trigger] index@.dom().contains(path) && !found(scanned@, path) implies exists|a: int|
            0 <= a < r@.len() && (#[trigger] r@[a])@ == path by {
            let b = choose|b: int| 0 <= b < index.keys().len() && index.keys()[b] == path;
            assert(!found(scanned@, index.keys()[b]));
        }
    }
    r
}

/// Whether `r` is what comes of a file with a given hash, once its content is compressed or not.
pub open spec fn is_packed(
    file: ScannedFile,
    blob_hash: [u8; 16],
    frame: std::result::Result<Vec<u8>, CompressError>,
    r: Result<PackedFile>,
) -> bool {
    match frame {
        Ok(compressed) => r matches Ok(p) && {
            &&& describes(p.entry, file)
            &&& p.entry.blob_hash == blob_hash
            &&& p.hash_hex@ == hex_text(blob_hash@)
            &&& p.compressed == compressed
        },
        Err(CompressError::Write(e)) => r == Err::<PackedFile, SyncorError>(SyncorError::Io(e)),
        Err(CompressError::Finish(e)) => r == Err::<PackedFile, SyncorError>(
            SyncorError::Other(e),
        ),
    }
}

/// Whether `p` is a file with its content, ready for the pack.
pub open spec fn is_pack_of(file: ScannedFile, content: Seq<u8>, p: PackedFile) -> bool {
    &&& describes(p.entry, file)
    &&& p.entry.blob_hash@ == content_hash(content)
    &&& p.hash_hex@ == hex_text(content_hash(content))
    &&& lz4_content(p.compressed@) == content
}

/// Whether `r` reports a save that found nothing to do.
pub open spec fn leaves_everything(
    files_scanned: usize,
    latest: Option<String>,
    r: SaveResult,
) -> bool {
    &&& r.snapshot_id@ == (match latest {
        Some(id) => id@,
        None => Seq::<char>::empty(),
    })
    &&& r.files_scanned == files_scanned
    &&& r.files_hashed == 0
    &&& r.bytes_compressed == 0
}

/// Saves a directory into a store.
pub struct SavePipeline;

impl SavePipeline {
    /// Compares a scan with the index, by size and modification time.
    pub fn plan(scanned: &Vec<ScannedFile>, index: &Index) -> (r: SavePlan)
        ensures
            is_save_plan(r, scanned@, index@),
    {
        let mut changed: Vec<usize> = Vec::new();
        let mut i: usize = 0;
        while i < scanned.len()
            invariant
                i <= scanned@.len(),
                changed@ == changed_among(scanned@, index@, i as nat),
            decreases scanned@.len() - i,
        {
            let file = &scanned[i];
            let same = match index.get(file.relative_path.as_str()) {
                Some(entry) => entry.size == file.size && entry.mtime_secs == file.mtime_secs
                    && entry.mtime_nanos == file.mtime_nanos,
                None => false,
            };
            if !same {
                changed.push(i);
            }
            i = i + 1;
        }
        SavePlan { changed, removed: removed_paths(scanned, index) }
    }

    /// What comes of a file, once its content is hashed and compressed.
    pub fn packed(
        file: &ScannedFile,
        blob_hash: [u8; 16],
        frame: std::result::Result<Vec<u8>, CompressError>,
    ) -> (r: Result<PackedFile>)
        ensures
            is_packed(*file, blob_hash, frame, r),
    {
        match frame {
            Ok(compressed) => Ok(
                PackedFile {
                    entry: index_entry(file, blob_hash),
                    hash_hex: bytes_to_hex(&blob_hash),
                    compressed,
                },
            ),
            Err(CompressError::Write(e)) => Err(SyncorError::Io(e)),
            Err(CompressError::Finish(e)) => Err(SyncorError::Other(e)),
        }
    }

    /// Hashes and compresses a file that was read.
    pub fn pack(file: &ScannedFile, content: &[u8]) -> (r: Result<PackedFile>)
        ensures
            r matches Ok(p) && is_pack_of(*file, content@, p),
    {
        SavePipeline::packed(file, hash_content_bytes(content), lz4_frame(content))
    }

    /// The result of a save that found nothing to do.
    pub fn unchanged(files_scanned: usize, latest: Option<String>) -> (r: SaveResult)
        ensures
            leaves_everything(files_scanned, latest, r),
    {
        SaveResult {
            snapshot_id: match latest {
                Some(id) => id,
                None => String::new(),
            },
            files_scanned,
            files_hashed: 0,
            bytes_compressed: 0,
        }
    }

    /// The snapshot that a save writes. `None` if the sizes of its files do not add up to a
    /// number of 64 bits.
    pub fn snapshot(
        scanned: &Vec<ScannedFile>,
        index: &Index,
        run: &SaveRun,
        pack_hash: Option<String>,
        parent: Option<String>,
    ) -> (r: Option<Snapshot>)
        ensures
            r is Some <==> total_size(listing(scanned@, index@, run.entries@)) <= u64::MAX,
            r matches Some(snap) ==> is_uuid_v7(snap.id@) && is_snapshot(
                snap,
                scanned@,
                index@,
                run.entries@,
                pack_hash,
                parent,
            ),
    {
        SavePipeline::snapshot_named(fresh_id(), scanned, index, run, pack_hash, parent)
    }

    /// The snapshot that a save writes under a given id.
    pub fn snapshot_named(
        id: String,
        scanned: &Vec<ScannedFile>,
        index: &Index,
        run: &SaveRun,
        pack_hash: Option<String>,
        parent: Option<String>,
    ) -> (r: Option<Snapshot>)
        ensures
            r is Some <==> total_size(listing(scanned@, index@, run.entries@)) <= u64::MAX,
            r matches Some(snap) ==> snap.id == id && is_snapshot(
                snap,
                scanned@,
                index@,
                run.entries@,
                pack_hash,
                parent,
            ),
    {
        let entries = list_entries(scanned, index, &run.entries);
        let total_bytes: u64 = match add_sizes(&entries) {
            Some(n) => n,
            None => {
                return None;
            },
        };
        let manifest = sort_manifest(&entries);
        Some(
            Snapshot {
                id,
                parent_snapshot_id: parent,
                total_files: manifest.len() as u64,
                total_bytes,
                new_objects: run.entries.len() as u64,
                manifest,
                blob_locations: locate(&run.entries, &pack_hash),
            },
        )
    }
}

// ---------------------------------------------------------------------------
// The new snapshot
// ---------------------------------------------------------------------------

/// What a save has read so far.
#[derive(Debug)]
pub struct SaveRun {
    /// The entries of the files read, in the order of the scan.
    pub entries: Vec<FileEntry>,
    /// The size of their compressed contents.
    pub bytes_compressed: u64,
}

/// Whether a save has read nothing.
pub open spec fn has_read_nothing(run: SaveRun) -> bool {
    run.entries@ == Seq::<FileEntry>::empty() && run.bytes_compressed == 0
}

/// Whether `now` is `was` with one more file read.
pub open spec fn is_noted(was: SaveRun, now: SaveRun, entry: FileEntry, compressed_len: u64) -> bool {
    &&& now.entries@ == was.entries@.push(entry)
    &&& now.bytes_compressed == was.bytes_compressed + compressed_len
}

/// Whether `r` reports a save that read what `run` says and wrote a snapshot.
pub open spec fn is_result_of(
    run: SaveRun,
    snapshot_id: String,
    files_scanned: usize,
    r: SaveResult,
) -> bool {
    &&& r.snapshot_id == snapshot_id
    &&& r.files_scanned == files_scanned
    &&& r.files_hashed == run.entries@.len()
    &&& r.bytes_compressed == run.bytes_compressed
}

impl SaveRun {
    /// A save that has read nothing.
    pub fn new() -> (r: Self)
        ensures
            has_read_nothing(r),
    {
        SaveRun { entries: Vec::new(), bytes_compressed: 0 }
    }

    /// Takes note of a file that went into the pack.
    pub fn note(&mut self, entry: FileEntry, compressed_len: u64)
        requires
            old(self).bytes_compressed + compressed_len <= u64::MAX,
        ensures
            is_noted(*old(self), *final(self), entry, compressed_len),
    {
        self.entries.push(entry);
        self.bytes_compressed = self.bytes_compressed + compressed_len;
    }

    /// The result of a save that wrote a snapshot.
    pub fn result(&self, snapshot_id: String, files_scanned: usize) -> (r: SaveResult)
        ensures
            is_result_of(*self, snapshot_id, files_scanned, r),
    {
        SaveResult {
            snapshot_id,
            files_scanned,
            files_hashed: self.entries.len(),
            bytes_compressed: self.bytes_compressed,
        }
    }
}

/// A snapshot to write into the catalog.
#[derive(Debug)]
pub struct Snapshot {
    pub id: String,
    pub parent_snapshot_id: Option<String>,
    pub manifest: Vec<ManifestEntry>,
    pub blob_locations: Vec<BlobLocation>,
    pub total_files: u64,
    pub total_bytes: u64,
    pub new_objects: u64,
}

/// What the manifest says of an indexed file.
pub open spec fn manifest_entry(e: FileEntry) -> ManifestEntry {
    ManifestEntry { path: e.path, blob_hash: e.blob_hash, size: e.size, mode: e.mode }
}

/// Whether one of the entries is for `path`.
pub open spec fn has_entry(entries: Seq<FileEntry>, path: Seq<char>) -> bool {
    exists|i: int| 0 <= i < entries.len() && (#[trigger] entries[i]).path@ == path
}

/// Of the first `n` files of the scan, what the index keeps: those that were not read again.
pub open spec fn kept_among(
    scanned: Seq<ScannedFile>,
    index: Map<Seq<char>, FileEntry>,
    fresh: Seq<FileEntry>,
    n: nat,
) -> Seq<ManifestEntry>
    decreases n,
{
    if n == 0 {
        Seq::empty()
    } else {
        let rest = kept_among(scanned, index, fresh, (n - 1) as nat);
        let path = scanned[n - 1].relative_path@;
        if index.dom().contains(path) && !has_entry(fresh, path) {
            rest.push(manifest_entry(index[path]))
        } else {
            rest
        }
    }
}

/// All files of the snapshot: those that the index keeps, and those that were read.
pub open spec fn listing(
    scanned: Seq<ScannedFile>,
    index: Map<Seq<char>, FileEntry>,
    fresh: Seq<FileEntry>,
) -> Seq<ManifestEntry> {
    kept_among(scanned, index, fresh, scanned.len()) + fresh.map_values(
        |e: FileEntry| manifest_entry(e),
    )
}

/// The size of all files together.
pub open spec fn total_size(entries: Seq<ManifestEntry>) -> nat
    decreases entries.len(),
{
    if entries.len() == 0 {
        0
    } else {
        total_size(entries.drop_last()) + entries.last().size as nat
    }
}

/// The paths of the entries.
pub open spec fn paths_of(entries: Seq<ManifestEntry>) -> Seq<String> {
    entries.map_values(|e: ManifestEntry| e.path)
}

/// Whether `sorted` is `entries` in the order of the paths.
pub open spec fn is_sorted(sorted: Seq<ManifestEntry>, entries: Seq<ManifestEntry>) -> bool {
    exists|o: Seq<usize>| #[trigger]
        is_order(paths_of(entries), o) && sorted == o.map_values(|i: usize| entries[i as int])
}

/// Whether a snapshot holds what a save has to write.
pub open spec fn is_snapshot(
    snap: Snapshot,
    scanned: Seq<ScannedFile>,
    index: Map<Seq<char>, FileEntry>,
    fresh: Seq<FileEntry>,
    pack_hash: Option<String>,
    parent: Option<String>,
) -> bool {
    let all = listing(scanned, index, fresh);
    &&& snap.parent_snapshot_id == parent
    &&& is_sorted(snap.manifest@, all)
    &&& snap.total_files == all.len()
    &&& snap.total_bytes == total_size(all)
    &&& snap.new_objects == fresh.len()
    &&& snap.blob_locations@.len() == fresh.len()
    &&& forall|i: int|
        0 <= i < fresh.len() ==> (#[trigger] snap.blob_locations@[i]).blob_hash == fresh[i].blob_hash
            && snap.blob_locations@[i].pack_hash == pack_hash && snap.blob_locations@[i].size
            == fresh[i].size
}

/// What the manifest says of an indexed file.
fn to_manifest(e: &FileEntry) -> (r: ManifestEntry)
    ensures
        r == manifest_entry(*e),
{
    ManifestEntry { path: e.path.clone(), blob_hash: e.blob_hash, size: e.size, mode: e.mode }
}

/// A copy of a manifest entry.
pub fn copy_entry(e: &ManifestEntry) -> (r: ManifestEntry)
    ensures
        r == *e,
{
    ManifestEntry { path: e.path.clone(), blob_hash: e.blob_hash, size: e.size, mode: e.mode }
}

/// The set of the paths of the entries.
fn entry_paths(entries: &Vec<FileEntry>) -> (r: TextMap<()>)
    ensures
        forall|path: Seq<char>| #[trigger] r@.dom().contains(path) <==> has_entry(entries@, path),
{
    let mut r: TextMap<()> = TextMap::new();
    let mut i: usize = 0;
    while i < entries.len()
        invariant
            i <= entries@.len(),
            forall|path: Seq<char>| #[trigger]
                r@.dom().contains(path) <==> has_entry(entries@.subrange(0, i as int), path),
        decreases entries@.len() - i,
    {
        let ghost was = r@;
        r.insert(entries[i].path.clone(), ());
        proof {
            let p = entries@.subrange(0, i as int);
            let q = entries@.subrange(0, i + 1);
            let last = entries@[i as int].path@;
            assert forall|path: Seq<char>| #[trigger]
                r@.dom().contains(path) <==> has_entry(q, path) by {
                assert(r@.dom().contains(path) <==> was.dom().contains(path) || path == last);
                if has_entry(p, path) {
                    let j = choose|j: int| 0 <= j < p.len() && (#[trigger] p[j]).path@ == path;
                    assert(q[j].path@ == path);
                }
                assert(q[i as int].path@ == last);
                if has_entry(q, path) {
                    let j = choose|j: int| 0 <= j < q.len() && (#[trigger] q[j]).path@ == path;
                    if j < i {
                        assert(p[j].path@ == path);
                    }
                }
            }
        }
        i = i + 1;
    }
    assert(entries@.subrange(0, entries@.len() as int) =~= entries@);
    r
}

/// All files of the snapshot, before they are sorted.
fn list_entries(scanned: &Vec<ScannedFile>, index: &Index, fresh: &Vec<FileEntry>) -> (r: Vec<
    ManifestEntry,
>)
    ensures
        r@ == listing(scanned@, index@, fresh@),
{
    let read_again = entry_paths(fresh);
    let mut r: Vec<ManifestEntry> = Vec::new();
    let mut i: usize = 0;
    while i < scanned.len()
        invariant
            i <= scanned@.len(),
            forall|path: Seq<char>| #[trigger]
                read_again@.dom().contains(path) <==> has_entry(fresh@, path),
            r@ == kept_among(scanned@, index@, fresh@, i as nat),
        decreases scanned@.len() - i,
    {
        let path = scanned[i].relative_path.as_str();
        match index.get(path) {
            Some(entry) => {
                if !read_again.contains(path) {
                    r.push(to_manifest(entry));
                }
            },
            None => {},
        }
        i = i + 1;
    }
    let ghost kept = r@;
    let ghost read = fresh@.map_values(|e: FileEntry| manifest_entry(e));
    let mut j: usize = 0;
    assert(kept + read.subrange(0, 0) =~= kept);
    while j < fresh.len()
        invariant
            j <= fresh@.len(),
            read == fresh@.map_values(|e: FileEntry| manifest_entry(e)),
            r@ == kept + read.subrange(0, j as int),
        decreases fresh@.len() - j,
    {
        r.push(to_manifest(&fresh[j]));
        j = j + 1;
        assert(r@ =~= kept + read.subrange(0, j as int));
    }
    assert(read.subrange(0, j as int) =~= read);
    r
}

/// The size of all files together, if it fits.
fn add_sizes(entries: &Vec<ManifestEntry>) -> (r: Option<u64>)
    ensures
        match r {
            Some(n) => n == total_size(entries@),
            None => total_size(entries@) > u64::MAX,
        },
{
    let mut n: u64 = 0;
    let mut i: usize = 0;
    while i < entries.len()
        invariant
            i <= entries@.len(),
            n == total_size(entries@.subrange(0, i as int)),
        decreases entries@.len() - i,
    {
        proof {
            assert(entries@.subrange(0, i + 1).drop_last() =~= entries@.subrange(0, i as int));
            total_size_grows(entries@, i + 1);
        }
        match n.checked_add(entries[i].size) {
            Some(m) => {
                n = m;
            },
            None => {
                return None;
            },
        }
        i = i + 1;
    }
    assert(entries@.subrange(0, i as int) =~= entries@);
    Some(n)
}

/// More files are never smaller.
proof fn total_size_grows(entries: Seq<ManifestEntry>, n: int)
    requires
        0 <= n <= entries.len(),
    ensures
        total_size(entries.subrange(0, n)) <= total_size(entries),
    decreases entries.len() - n,
{
    if n == entries.len() {
        assert(entries.subrange(0, n) =~= entries);
    } else {
        total_size_grows(entries, n + 1);
        assert(entries.subrange(0, n + 1).drop_last() =~= entries.subrange(0, n));
    }
}

/// The entries in the order of their paths.
fn sort_manifest(entries: &Vec<ManifestEntry>) -> (r: Vec<ManifestEntry>)
    ensures
        is_sorted(r@, entries@),
        r@.len() == entries@.len(),
{
    let mut keys: Vec<String> = Vec::new();
    let mut i: usize = 0;
    while i < entries.len()
        invariant
            i <= entries@.len(),
            keys@ == paths_of(entries@).subrange(0, i as int),
        decreases entries@.len() - i,
    {
        keys.push(entries[i].path.clone());
        i = i + 1;
        assert(keys@ =~= paths_of(entries@).subrange(0, i as int));
    }
    assert(keys@ =~= paths_of(entries@));
    let o = order(&keys);
    let ghost want = o@.map_values(|i: usize| entries@[i as int]);
    let mut r: Vec<ManifestEntry> = Vec::new();
    let mut j: usize = 0;
    while j < o.len()
        invariant
            j <= o@.len(),
            is_order(paths_of(entries@), o@),
            want == o@.map_values(|i: usize| entries@[i as int]),
            r@ == want.subrange(0, j as int),
        decreases o@.len() - j,
    {
        assert(o@.contains(o@[j as int]));
        r.push(copy_entry(&entries[o[j]]));
        j = j + 1;
        assert(r@ =~= want.subrange(0, j as int));
    }
    assert(r@ =~= want);
    r
}

/// A copy of an optional text.
pub fn copy_option(t: &Option<String>) -> (r: Option<String>)
    ensures
        r == *t,
{
    match t {
        Some(s) => Some(s.clone()),
        None => None,
    }
}

/// Where the blobs of the files that were read are kept.
fn locate(fresh: &Vec<FileEntry>, pack_hash: &Option<String>) -> (r: Vec<BlobLocation>)
    ensures
        r@.len() == fresh@.len(),
        forall|i: int|
            0 <= i < fresh@.len() ==> (#[trigger] r@[i]).blob_hash == fresh@[i].blob_hash
                && r@[i].pack_hash == *pack_hash && r@[i].size == fresh@[i].size,
{
    let mut r: Vec<BlobLocation> = Vec::new();
    let mut i: usize = 0;
    while i < fresh.len()
        invariant
            i <= fresh@.len(),
            r@.len() == i,
            forall|j: int|
                0 <= j < i ==> (#[trigger] r@[j]).blob_hash == fresh@[j].blob_hash
                    && r@[j].pack_hash == *pack_hash && r@[j].size == fresh@[j].size,
        decreases fresh@.len() - i,
    {
        r.push(
            BlobLocation {
                blob_hash: fresh[i].blob_hash,
                pack_hash: copy_option(pack_hash),
                size: fresh[i].size,
            },
        );
        i = i + 1;
    }
    r
}

/// Whether an entry takes over everything that a scan says of a file.
pub open spec fn describes(entry: FileEntry, file: ScannedFile) -> bool {
    &&& entry.path@ == file.relative_path@
    &&& entry.size == file.size
    &&& entry.mtime_secs == file.mtime_secs
    &&& entry.mtime_nanos == file.mtime_nanos
    &&& entry.inode == file.inode
    &&& entry.mode == file.mode
}

// ---------------------------------------------------------------------------
// Laws
// ---------------------------------------------------------------------------

/// Whether a scan found no path twice.
pub open spec fn distinct_paths(scanned: Seq<ScannedFile>) -> bool {
    forall|i: int, j: int|
        0 <= i < j < scanned.len() ==> (#[trigger] scanned[i]).relative_path@ != (
        #[trigger] scanned[j]).relative_path@
}

/// Whether `fresh` are the entries of the files that had to be read, in order.
pub open spec fn are_read(
    fresh: Seq<FileEntry>,
    scanned: Seq<ScannedFile>,
    index: Map<Seq<char>, FileEntry>,
) -> bool {
    let which = changed(scanned, index);
    &&& fresh.len() == which.len()
    &&& forall|i: int|
        0 <= i < fresh.len() ==> describes(#[trigger] fresh[i], scanned[which[i] as int])
}

/// Whether the hashes of the entries are those of the contents that were read. `contents` are the
/// contents of the files of the scan, in its order.
pub open spec fn are_hashed(
    fresh: Seq<FileEntry>,
    scanned: Seq<ScannedFile>,
    index: Map<Seq<char>, FileEntry>,
    contents: Seq<Seq<u8>>,
) -> bool {
    forall|i: int|
        0 <= i < fresh.len() ==> (#[trigger] fresh[i]).blob_hash@ == content_hash(
            contents[changed(scanned, index)[i] as int],
        )
}

/// Whether the index speaks the truth of the files that it has up to date: their content and
/// their mode are what it remembers.
pub open spec fn remembers(
    index: Map<Seq<char>, FileEntry>,
    scanned: Seq<ScannedFile>,
    contents: Seq<Seq<u8>>,
) -> bool {
    forall|p: int|
        0 <= p < scanned.len() && up_to_date(#[trigger] scanned[p], index) ==> {
            let entry = index[scanned[p].relative_path@];
            entry.blob_hash@ == content_hash(contents[p]) && entry.mode == scanned[p].mode
        }
}

/// The index without the removed paths.
pub open spec fn without(index: Map<Seq<char>, FileEntry>, removed: Seq<String>) -> Map<
    Seq<char>,
    FileEntry,
>
    decreases removed.len(),
{
    if removed.len() == 0 {
        index
    } else {
        without(index, removed.drop_last()).remove(removed.last()@)
    }
}

/// The index with the entries put in.
pub open spec fn with_entries(index: Map<Seq<char>, FileEntry>, fresh: Seq<FileEntry>) -> Map<
    Seq<char>,
    FileEntry,
>
    decreases fresh.len(),
{
    if fresh.len() == 0 {
        index
    } else {
        with_entries(index, fresh.drop_last()).insert(fresh.last().path@, fresh.last())
    }
}

/// The positions that have to be read are those of the files that are not up to date.
proof fn changed_positions(scanned: Seq<ScannedFile>, index: Map<Seq<char>, FileEntry>, n: nat)
    requires
        n <= scanned.len() <= usize::MAX,
    ensures
        forall|i: int|
            0 <= i < changed_among(scanned, index, n).len() ==> {
                let p = #[trigger] changed_among(scanned, index, n)[i] as int;
                0 <= p < n && !up_to_date(scanned[p], index)
            },
        forall|p: int|
            0 <= p < n && !up_to_date(scanned[p], index) ==> exists|i: int|
                0 <= i < changed_among(scanned, index, n).len() && #[trigger] changed_among(
                    scanned,
                    index,
                    n,
                )[i] == p,
    decreases n,
{
    if n > 0 {
        changed_positions(scanned, index, (n - 1) as nat);
        let before = changed_among(scanned, index, (n - 1) as nat);
        let now = changed_among(scanned, index, n);
        assert forall|p: int| 0 <= p < n && !up_to_date(scanned[p], index) implies exists|i: int|
            0 <= i < now.len() && #[trigger] now[i] == p by {
            if p < n - 1 {
                let i = choose|i: int| 0 <= i < before.len() && #[trigger] before[i] == p;
                assert(now[i] == p);
            } else {
                assert(now[before.len() as int] == p);
            }
        }
    }
}

/// What removing paths leaves.
proof fn without_keeps_others(
    index: Map<Seq<char>, FileEntry>,
    removed: Seq<String>,
    path: Seq<char>,
)
    ensures
        without(index, removed).dom().contains(path) <==> index.dom().contains(path) && !(exists|
            i: int,
        |
            0 <= i < removed.len() && (#[trigger] removed[i])@ == path),
        without(index, removed).dom().contains(path) ==> without(index, removed)[path]
            == index[path],
    decreases removed.len(),
{
    if removed.len() > 0 {
        let rest = removed.drop_last();
        without_keeps_others(index, rest, path);
        if exists|i: int| 0 <= i < removed.len() && (#[trigger] removed[i])@ == path {
            let i = choose|i: int| 0 <= i < removed.len() && (#[trigger] removed[i])@ == path;
            if i < rest.len() {
                assert(rest[i]@ == path);
            }
        }
        if exists|i: int| 0 <= i < rest.len() && (#[trigger] rest[i])@ == path {
            let i = choose|i: int| 0 <= i < rest.len() && (#[trigger] rest[i])@ == path;
            assert(removed[i]@ == path);
        }
        assert(removed[removed.len() - 1]@ == removed.last()@);
    }
}

/// What putting entries in makes of a path.
proof fn with_entries_at(
    index: Map<Seq<char>, FileEntry>,
    fresh: Seq<FileEntry>,
    path: Seq<char>,
)
    ensures
        with_entries(index, fresh).dom().contains(path) <==> index.dom().contains(path)
            || has_entry(fresh, path),
        has_entry(fresh, path) ==> exists|i: int|
            0 <= i < fresh.len() && (#[trigger] fresh[i]).path@ == path && with_entries(
                index,
                fresh,
            )[path] == fresh[i],
        !has_entry(fresh, path) && index.dom().contains(path) ==> with_entries(index, fresh)[path]
            == index[path],
    decreases fresh.len(),
{
    if fresh.len() > 0 {
        let rest = fresh.drop_last();
        let last = fresh.last();
        with_entries_at(index, rest, path);
        assert(fresh[fresh.len() - 1] == last);
        if has_entry(rest, path) {
            let i = choose|i: int| 0 <= i < rest.len() && (#[trigger] rest[i]).path@ == path;
            assert(fresh[i].path@ == path);
        }
        if has_entry(fresh, path) && last.path@ != path {
            let i = choose|i: int| 0 <= i < fresh.len() && (#[trigger] fresh[i]).path@ == path;
            assert(rest[i].path@ == path);
            let j = choose|j: int|
                0 <= j < rest.len() && (#[trigger] rest[j]).path@ == path && with_entries(
                    index,
                    rest,
                )[path] == rest[j];
            assert(fresh[j] == rest[j]);
        }
    }
}

/// An incremental save costs nothing where nothing changed: once a save has brought the index up
/// to date, the same scan has nothing to read and nothing that is gone.
pub proof fn saving_again_reads_nothing(
    scanned: Seq<ScannedFile>,
    index: Map<Seq<char>, FileEntry>,
    removed: Seq<String>,
    fresh: Seq<FileEntry>,
    removed_again: Seq<String>,
)
    requires
        scanned.len() <= usize::MAX,
        distinct_paths(scanned),
        are_removed(removed, scanned, index),
        are_read(fresh, scanned, index),
        are_removed(removed_again, scanned, with_entries(without(index, removed), fresh)),
    ensures
        changed(scanned, with_entries(without(index, removed), fresh)).len() == 0,
        removed_again.len() == 0,
{
    let mid = without(index, removed);
    let now = with_entries(mid, fresh);
    let which = changed(scanned, index);
    changed_positions(scanned, index, scanned.len());
    assert forall|p: int| 0 <= p < scanned.len() implies up_to_date(scanned[p], now) by {
        let path = scanned[p].relative_path@;
        with_entries_at(mid, fresh, path);
        without_keeps_others(index, removed, path);
        assert(found(scanned, path));
        if !up_to_date(scanned[p], index) {
            let i = choose|i: int| 0 <= i < which.len() && #[trigger] which[i] == p;
            assert(describes(fresh[i], scanned[which[i] as int]));
            assert(has_entry(fresh, path));
            let j = choose|j: int|
                0 <= j < fresh.len() && (#[trigger] fresh[j]).path@ == path && now[path] == fresh[j];
            assert(describes(fresh[j], scanned[which[j] as int]));
            assert(scanned[which[j] as int].relative_path@ == path);
        } else {
            if has_entry(fresh, path) {
                let j = choose|j: int| 0 <= j < fresh.len() && (#[trigger] fresh[j]).path@ == path;
                assert(describes(fresh[j], scanned[which[j] as int]));
                let q = which[j] as int;
                assert(scanned[q].relative_path@ == scanned[p].relative_path@);
                assert(p == q);
            }
        }
    }
    nothing_changed(scanned, now, scanned.len());
    if removed_again.len() > 0 {
        let path = removed_again[0]@;
        with_entries_at(mid, fresh, path);
        without_keeps_others(index, removed, path);
        if has_entry(fresh, path) {
            let j = choose|j: int| 0 <= j < fresh.len() && (#[trigger] fresh[j]).path@ == path;
            assert(describes(fresh[j], scanned[which[j] as int]));
            assert(found(scanned, path));
        }
    }
}

/// Of the files of a scan, those that are not up to date have an entry among those read.
proof fn read_means_changed(
    scanned: Seq<ScannedFile>,
    index: Map<Seq<char>, FileEntry>,
    fresh: Seq<FileEntry>,
    p: int,
)
    requires
        scanned.len() <= usize::MAX,
        distinct_paths(scanned),
        are_read(fresh, scanned, index),
        0 <= p < scanned.len(),
    ensures
        has_entry(fresh, scanned[p].relative_path@) <==> !up_to_date(scanned[p], index),
        forall|i: int|
            0 <= i < fresh.len() && (#[trigger] fresh[i]).path@ == scanned[p].relative_path@
                ==> changed(scanned, index)[i] == p,
{
    let which = changed(scanned, index);
    let path = scanned[p].relative_path@;
    changed_positions(scanned, index, scanned.len());
    if !up_to_date(scanned[p], index) {
        let i = choose|i: int| 0 <= i < which.len() && #[trigger] which[i] == p;
        assert(describes(fresh[i], scanned[which[i] as int]));
        assert(fresh[i].path@ == path);
    }
    assert forall|i: int| 0 <= i < fresh.len() && (#[trigger] fresh[i]).path@ == path implies which[i]
        == p by {
        assert(describes(fresh[i], scanned[which[i] as int]));
        let q = which[i] as int;
        assert(scanned[q].relative_path@ == scanned[p].relative_path@);
    }
    if has_entry(fresh, path) {
        let i = choose|i: int| 0 <= i < fresh.len() && (#[trigger] fresh[i]).path@ == path;
        assert(which[i] == p);
    }
}

/// After a save the index speaks the truth of every file of the scan.
pub proof fn saving_keeps_the_index_truthful(
    scanned: Seq<ScannedFile>,
    contents: Seq<Seq<u8>>,
    index: Map<Seq<char>, FileEntry>,
    removed: Seq<String>,
    fresh: Seq<FileEntry>,
)
    requires
        scanned.len() <= usize::MAX,
        distinct_paths(scanned),
        are_removed(removed, scanned, index),
        are_read(fresh, scanned, index),
        are_hashed(fresh, scanned, index, contents),
        remembers(index, scanned, contents),
    ensures
        remembers(with_entries(without(index, removed), fresh), scanned, contents),
{
    let mid = without(index, removed);
    let now = with_entries(mid, fresh);
    let which = changed(scanned, index);
    assert forall|p: int| 0 <= p < scanned.len() && up_to_date(#[trigger] scanned[p], now) implies {
        let entry = now[scanned[p].relative_path@];
        entry.blob_hash@ == content_hash(contents[p]) && entry.mode == scanned[p].mode
    } by {
        let path = scanned[p].relative_path@;
        with_entries_at(mid, fresh, path);
        without_keeps_others(index, removed, path);
        read_means_changed(scanned, index, fresh, p);
        if has_entry(fresh, path) {
            let j = choose|j: int|
                0 <= j < fresh.len() && (#[trigger] fresh[j]).path@ == path && now[path] == fresh[j];
            assert(which[j] == p);
            assert(describes(fresh[j], scanned[which[j] as int]));
        }
    }
}

/// A push right after a pull has nothing to read: once every file of the scan has been entered
/// into the index again, the scan is up to date.
pub proof fn refreshed_index_is_up_to_date(
    scanned: Seq<ScannedFile>,
    index: Map<Seq<char>, FileEntry>,
    removed: Seq<String>,
    entries: Seq<FileEntry>,
)
    requires
        distinct_paths(scanned),
        entries.len() == scanned.len(),
        forall|i: int| 0 <= i < entries.len() ==> describes(#[trigger] entries[i], scanned[i]),
    ensures
        changed(scanned, with_entries(without(index, removed), entries)).len() == 0,
{
    let mid = without(index, removed);
    let now = with_entries(mid, entries);
    assert forall|p: int| 0 <= p < scanned.len() implies up_to_date(#[trigger] scanned[p], now) by {
        let path = scanned[p].relative_path@;
        with_entries_at(mid, entries, path);
        assert(describes(entries[p], scanned[p]));
        assert(entries[p].path@ == path);
        assert(has_entry(entries, path));
        let j = choose|j: int|
            0 <= j < entries.len() && (#[trigger] entries[j]).path@ == path && now[path]
                == entries[j];
        assert(describes(entries[j], scanned[j]));
        assert(scanned[j].relative_path@ == scanned[p].relative_path@);
    }
    nothing_changed(scanned, now, scanned.len());
}

/// A scan that is up to date has no changes.
proof fn nothing_changed(scanned: Seq<ScannedFile>, index: Map<Seq<char>, FileEntry>, n: nat)
    requires
        n <= scanned.len(),
        forall|p: int| 0 <= p < scanned.len() ==> up_to_date(#[trigger] scanned[p], index),
    ensures
        changed_among(scanned, index, n).len() == 0,
    decreases n,
{
    if n > 0 {
        nothing_changed(scanned, index, (n - 1) as nat);
    }
}

/// What the index keeps of the first files of a scan.
proof fn kept_paths(
    scanned: Seq<ScannedFile>,
    index: Map<Seq<char>, FileEntry>,
    fresh: Seq<FileEntry>,
    n: nat,
)
    requires
        n <= scanned.len(),
        forall|k: Seq<char>| #[trigger] index.dom().contains(k) ==> index[k].path@ == k,
    ensures
        forall|i: int|
            0 <= i < kept_among(scanned, index, fresh, n).len() ==> found(
                scanned,
                (#[trigger] kept_among(scanned, index, fresh, n)[i]).path@,
            ),
        forall|p: int|
            0 <= p < n && index.dom().contains((#[trigger] scanned[p]).relative_path@)
                && !has_entry(fresh, scanned[p].relative_path@) ==> exists|i: int|
                0 <= i < kept_among(scanned, index, fresh, n).len() && (#[trigger] kept_among(
                    scanned,
                    index,
                    fresh,
                    n,
                )[i]).path@ == scanned[p].relative_path@,
    decreases n,
{
    if n > 0 {
        kept_paths(scanned, index, fresh, (n - 1) as nat);
        let before = kept_among(scanned, index, fresh, (n - 1) as nat);
        let now = kept_among(scanned, index, fresh, n);
        let last = scanned[n - 1].relative_path@;
        assert(found(scanned, last));
        assert forall|p: int|
            0 <= p < n && index.dom().contains((#[trigger] scanned[p]).relative_path@)
                && !has_entry(fresh, scanned[p].relative_path@) implies exists|i: int|
            0 <= i < now.len() && (#[trigger] now[i]).path@ == scanned[p].relative_path@ by {
            if p < n - 1 {
                let i = choose|i: int|
                    0 <= i < before.len() && (#[trigger] before[i]).path@
                        == scanned[p].relative_path@;
                assert(now[i].path@ == scanned[p].relative_path@);
            } else {
                assert(now[before.len() as int].path@ == last);
            }
        }
    }
}

/// Whether an entry is what the index remembers of a file of the scan that is up to date.
pub open spec fn is_remembered(
    e: ManifestEntry,
    scanned: Seq<ScannedFile>,
    index: Map<Seq<char>, FileEntry>,
) -> bool {
    exists|p: int|
        0 <= p < scanned.len() && up_to_date(#[trigger] scanned[p], index) && e == manifest_entry(
            index[scanned[p].relative_path@],
        )
}

/// Where what the index keeps of the first files of a scan comes from.
proof fn kept_entries(
    scanned: Seq<ScannedFile>,
    index: Map<Seq<char>, FileEntry>,
    fresh: Seq<FileEntry>,
    n: nat,
)
    requires
        n <= scanned.len() <= usize::MAX,
        distinct_paths(scanned),
        are_read(fresh, scanned, index),
    ensures
        kept_among(scanned, index, fresh, n).len() + changed_among(scanned, index, n).len() == n,
        forall|i: int|
            0 <= i < kept_among(scanned, index, fresh, n).len() ==> is_remembered(
                #[trigger] kept_among(scanned, index, fresh, n)[i],
                scanned,
                index,
            ),
    decreases n,
{
    if n > 0 {
        let m = (n - 1) as nat;
        kept_entries(scanned, index, fresh, m);
        read_means_changed(scanned, index, fresh, n - 1);
        let before = kept_among(scanned, index, fresh, m);
        let now = kept_among(scanned, index, fresh, n);
        assert forall|i: int| 0 <= i < now.len() implies is_remembered(
            #[trigger] now[i],
            scanned,
            index,
        ) by {
            if i < before.len() {
                assert(now[i] == before[i]);
                assert(is_remembered(before[i], scanned, index));
            } else {
                assert(up_to_date(scanned[n - 1], index));
            }
        }
    }
}

/// A snapshot lists a file of the scan with the hash of its content and with its mode, whether it
/// was read or the index kept it.
pub proof fn snapshot_describes_the_scan(
    scanned: Seq<ScannedFile>,
    contents: Seq<Seq<u8>>,
    index: Map<Seq<char>, FileEntry>,
    fresh: Seq<FileEntry>,
    p: int,
    i: int,
)
    requires
        scanned.len() <= usize::MAX,
        distinct_paths(scanned),
        forall|k: Seq<char>| #[trigger] index.dom().contains(k) ==> index[k].path@ == k,
        are_read(fresh, scanned, index),
        are_hashed(fresh, scanned, index, contents),
        remembers(index, scanned, contents),
        0 <= p < scanned.len(),
        0 <= i < listing(scanned, index, fresh).len(),
        listing(scanned, index, fresh)[i].path@ == scanned[p].relative_path@,
    ensures
        listing(scanned, index, fresh)[i].blob_hash@ == content_hash(contents[p]),
        listing(scanned, index, fresh)[i].mode == scanned[p].mode,
{
    let kept = kept_among(scanned, index, fresh, scanned.len());
    let which = changed(scanned, index);
    kept_entries(scanned, index, fresh, scanned.len());
    read_means_changed(scanned, index, fresh, p);
    if i < kept.len() {
        assert(listing(scanned, index, fresh)[i] == kept[i]);
        assert(is_remembered(kept[i], scanned, index));
        let q = choose|q: int|
            0 <= q < scanned.len() && up_to_date(#[trigger] scanned[q], index) && kept[i]
                == manifest_entry(index[scanned[q].relative_path@]);
        assert(scanned[q].relative_path@ == scanned[p].relative_path@);
        assert(q == p);
    } else {
        let j = i - kept.len();
        assert(listing(scanned, index, fresh)[i] == manifest_entry(fresh[j]));
        assert(which[j] == p);
        assert(describes(fresh[j], scanned[which[j] as int]));
    }
}

/// A snapshot has as many files as the scan.
pub proof fn snapshot_counts_the_scan(
    scanned: Seq<ScannedFile>,
    index: Map<Seq<char>, FileEntry>,
    fresh: Seq<FileEntry>,
)
    requires
        scanned.len() <= usize::MAX,
        distinct_paths(scanned),
        are_read(fresh, scanned, index),
    ensures
        listing(scanned, index, fresh).len() == scanned.len(),
{
    kept_entries(scanned, index, fresh, scanned.len());
}

/// A snapshot lists exactly the paths of the scan.
pub proof fn snapshot_lists_the_scan(
    scanned: Seq<ScannedFile>,
    index: Map<Seq<char>, FileEntry>,
    fresh: Seq<FileEntry>,
    path: Seq<char>,
)
    requires
        scanned.len() <= usize::MAX,
        forall|k: Seq<char>| #[trigger] index.dom().contains(k) ==> index[k].path@ == k,
        are_read(fresh, scanned, index),
    ensures
        found(scanned, path) <==> exists|i: int|
            0 <= i < listing(scanned, index, fresh).len() && (#[trigger] listing(
                scanned,
                index,
                fresh,
            )[i]).path@ == path,
{
    let kept = kept_among(scanned, index, fresh, scanned.len());
    let all = listing(scanned, index, fresh);
    let which = changed(scanned, index);
    changed_positions(scanned, index, scanned.len());
    kept_paths(scanned, index, fresh, scanned.len());
    if found(scanned, path) {
        let p = choose|p: int|
            0 <= p < scanned.len() && (#[trigger] scanned[p]).relative_path@ == path;
        if !up_to_date(scanned[p], index) {
            let i = choose|i: int| 0 <= i < which.len() && #[trigger] which[i] == p;
            assert(describes(fresh[i], scanned[which[i] as int]));
            assert(all[kept.len() + i].path@ == path);
        } else if has_entry(fresh, path) {
            let j = choose|j: int| 0 <= j < fresh.len() && (#[trigger] fresh[j]).path@ == path;
            assert(all[kept.len() + j].path@ == path);
        } else {
            let i = choose|i: int|
                0 <= i < kept.len() && (#[trigger] kept[i]).path@ == scanned[p].relative_path@;
            assert(all[i].path@ == path);
        }
    }
    if exists|i: int| 0 <= i < all.len() && (#[trigger] all[i]).path@ == path {
        let i = choose|i: int| 0 <= i < all.len() && (#[trigger] all[i]).path@ == path;
        if i < kept.len() {
            assert(found(scanned, kept[i].path@));
        } else {
            let j = i - kept.len();
            assert(describes(fresh[j], scanned[which[j] as int]));
            assert(scanned[which[j] as int].relative_path@ == path);
        }
    }
}

/// A save reads a file again exactly if the index does not have it with the same size, the same
/// seconds and the same nanoseconds of its modification time.
pub proof fn modified_files_are_read(
    plan: SavePlan,
    scanned: Seq<ScannedFile>,
    index: Map<Seq<char>, FileEntry>,
    p: int,
)
    requires
        is_save_plan(plan, scanned, index),
        0 <= p < scanned.len() <= usize::MAX,
    ensures
        plan.changed@.contains(p as usize) <==> !(index.dom().contains(scanned[p].relative_path@)
            && index[scanned[p].relative_path@].size == scanned[p].size
            && index[scanned[p].relative_path@].mtime_secs == scanned[p].mtime_secs
            && index[scanned[p].relative_path@].mtime_nanos == scanned[p].mtime_nanos),
{
    changed_by_fields(scanned, index, p);
}

/// Which files have to be read, by what the index has of them.
pub proof fn changed_by_fields(
    scanned: Seq<ScannedFile>,
    index: Map<Seq<char>, FileEntry>,
    p: int,
)
    requires
        0 <= p < scanned.len() <= usize::MAX,
    ensures
        changed(scanned, index).contains(p as usize) <==> !(index.dom().contains(
            scanned[p].relative_path@,
        ) && index[scanned[p].relative_path@].size == scanned[p].size
            && index[scanned[p].relative_path@].mtime_secs == scanned[p].mtime_secs
            && index[scanned[p].relative_path@].mtime_nanos == scanned[p].mtime_nanos),
{
    changed_positions(scanned, index, scanned.len());
    let which = changed(scanned, index);
    if which.contains(p as usize) {
        let i = choose|i: int| 0 <= i < which.len() && which[i] == p as usize;
        assert(which[i] as int == p);
    }
    if !up_to_date(scanned[p], index) {
        let i = choose|i: int| 0 <= i < which.len() && #[trigger] which[i] == p;
        assert(which[i] == p as usize);
    }
}

/// The positions of the files to read ascend, so that each file is read once, in the order of the
/// scan; each is a position of the scan.
pub proof fn files_are_read_in_order(
    plan: SavePlan,
    scanned: Seq<ScannedFile>,
    index: Map<Seq<char>, FileEntry>,
)
    requires
        is_save_plan(plan, scanned, index),
        scanned.len() <= usize::MAX,
    ensures
        forall|i: int|
            0 <= i < plan.changed@.len() ==> #[trigger] plan.changed@[i] < scanned.len(),
        forall|i: int, j: int|
            0 <= i < j < plan.changed@.len() ==> #[trigger] plan.changed@[i]
                < #[trigger] plan.changed@[j],
{
    positions_ascend(scanned, index, scanned.len());
}

/// The positions of the files to read ascend.
proof fn positions_ascend(scanned: Seq<ScannedFile>, index: Map<Seq<char>, FileEntry>, n: nat)
    requires
        n <= scanned.len() <= usize::MAX,
    ensures
        forall|i: int|
            0 <= i < changed_among(scanned, index, n).len() ==> #[trigger] changed_among(
                scanned,
                index,
                n,
            )[i] < n,
        forall|i: int, j: int|
            0 <= i < j < changed_among(scanned, index, n).len() ==> #[trigger] changed_among(
                scanned,
                index,
                n,
            )[i] < #[trigger] changed_among(scanned, index, n)[j],
    decreases n,
{
    if n > 0 {
        positions_ascend(scanned, index, (n - 1) as nat);
        let before = changed_among(scanned, index, (n - 1) as nat);
        let now = changed_among(scanned, index, n);
        assert forall|i: int| 0 <= i < now.len() implies #[trigger] now[i] < n by {
            if i < before.len() {
                assert(now[i] == before[i]);
            }
        }
        assert forall|i: int, j: int| 0 <= i < j < now.len() implies #[trigger] now[i]
            < #[trigger] now[j] by {
            assert(now[i] == before[i]);
            if j < before.len() {
                assert(now[j] == before[j]);
            }
        }
    }
}

/// A save drops a path from the index exactly if the index has it and no file of the scan does.
pub proof fn gone_files_are_dropped(
    plan: SavePlan,
    scanned: Seq<ScannedFile>,
    index: Map<Seq<char>, FileEntry>,
    path: Seq<char>,
)
    requires
        is_save_plan(plan, scanned, index),
    ensures
        (exists|i: int| 0 <= i < plan.removed@.len() && (#[trigger] plan.removed@[i])@ == path) <==> (
        index.dom().contains(path) && forall|p: int|
            0 <= p < scanned.len() ==> (#[trigger] scanned[p]).relative_path@ != path),
{
    let removed = plan.removed@;
    if index.dom().contains(path) && forall|p: int|
        0 <= p < scanned.len() ==> (#[trigger] scanned[p]).relative_path@ != path {
        assert(!found(scanned, path));
    }
    if exists|i: int| 0 <= i < removed.len() && (#[trigger] removed[i])@ == path {
        let i = choose|i: int| 0 <= i < removed.len() && (#[trigger] removed[i])@ == path;
        assert(!found(scanned, removed[i]@));
        assert forall|p: int| 0 <= p < scanned.len() implies (#[trigger] scanned[p]).relative_path@
            != path by {
            if scanned[p].relative_path@ == path {
                assert(found(scanned, path));
            }
        }
    }
}

/// The sizes of the first `n` files of a scan together.
pub open spec fn scanned_size(scanned: Seq<ScannedFile>, n: nat) -> nat
    decreases n,
{
    if n == 0 {
        0
    } else {
        scanned_size(scanned, (n - 1) as nat) + scanned[n - 1].size as nat
    }
}

/// The sizes of the files at the positions together.
spec fn size_at(scanned: Seq<ScannedFile>, which: Seq<usize>) -> nat
    decreases which.len(),
{
    if which.len() == 0 {
        0
    } else {
        size_at(scanned, which.drop_last()) + scanned[which.last() as int].size as nat
    }
}

/// What the index keeps of the first files, and what has to be read of them, add up.
proof fn sizes_add_up(
    scanned: Seq<ScannedFile>,
    index: Map<Seq<char>, FileEntry>,
    fresh: Seq<FileEntry>,
    n: nat,
)
    requires
        n <= scanned.len() <= usize::MAX,
        distinct_paths(scanned),
        are_read(fresh, scanned, index),
    ensures
        total_size(kept_among(scanned, index, fresh, n)) + size_at(
            scanned,
            changed_among(scanned, index, n),
        ) == scanned_size(scanned, n),
    decreases n,
{
    if n > 0 {
        let m = (n - 1) as nat;
        sizes_add_up(scanned, index, fresh, m);
        read_means_changed(scanned, index, fresh, n - 1);
        let kept = kept_among(scanned, index, fresh, m);
        let which = changed_among(scanned, index, m);
        if up_to_date(scanned[n - 1], index) {
            let e = manifest_entry(index[scanned[n - 1].relative_path@]);
            assert(kept.push(e).drop_last() =~= kept);
        } else {
            assert(which.push(m as usize).drop_last() =~= which);
        }
    }
}

/// The sizes of two lists add up.
proof fn sizes_of_both(a: Seq<ManifestEntry>, b: Seq<ManifestEntry>)
    ensures
        total_size(a + b) == total_size(a) + total_size(b),
    decreases b.len(),
{
    if b.len() == 0 {
        assert(a + b =~= a);
    } else {
        sizes_of_both(a, b.drop_last());
        assert((a + b).drop_last() =~= a + b.drop_last());
    }
}

/// The files that were read have the sizes that the scan found.
proof fn sizes_of_the_read(
    fresh: Seq<FileEntry>,
    scanned: Seq<ScannedFile>,
    which: Seq<usize>,
)
    requires
        fresh.len() == which.len(),
        forall|i: int|
            0 <= i < fresh.len() ==> (#[trigger] fresh[i]).size == scanned[which[i] as int].size,
    ensures
        total_size(fresh.map_values(|e: FileEntry| manifest_entry(e))) == size_at(scanned, which),
    decreases fresh.len(),
{
    let read = fresh.map_values(|e: FileEntry| manifest_entry(e));
    if fresh.len() > 0 {
        let rest = fresh.drop_last();
        sizes_of_the_read(rest, scanned, which.drop_last());
        assert(read.drop_last() =~= rest.map_values(|e: FileEntry| manifest_entry(e)));
        assert(fresh[fresh.len() - 1].size == scanned[which[which.len() - 1] as int].size);
    }
}

/// A snapshot adds up what the scan found: as many files, as many bytes; its new objects are the
/// files that were read.
pub proof fn snapshot_adds_up_the_scan(
    snap: Snapshot,
    scanned: Seq<ScannedFile>,
    index: Map<Seq<char>, FileEntry>,
    fresh: Seq<FileEntry>,
    pack_hash: Option<String>,
    parent: Option<String>,
)
    requires
        scanned.len() <= usize::MAX,
        distinct_paths(scanned),
        are_read(fresh, scanned, index),
        is_snapshot(snap, scanned, index, fresh, pack_hash, parent),
    ensures
        snap.total_files == scanned.len(),
        snap.manifest@.len() == scanned.len(),
        snap.total_bytes == scanned_size(scanned, scanned.len()),
        snap.new_objects == fresh.len(),
        snap.blob_locations@.len() == fresh.len(),
{
    let kept = kept_among(scanned, index, fresh, scanned.len());
    let read = fresh.map_values(|e: FileEntry| manifest_entry(e));
    let which = changed(scanned, index);
    snapshot_counts_the_scan(scanned, index, fresh);
    sizes_add_up(scanned, index, fresh, scanned.len());
    sizes_of_both(kept, read);
    assert forall|i: int| 0 <= i < fresh.len() implies (#[trigger] fresh[i]).size
        == scanned[which[i] as int].size by {
        assert(describes(fresh[i], scanned[which[i] as int]));
    }
    sizes_of_the_read(fresh, scanned, which);
}

/// A save fails to make a snapshot exactly if the sizes of the scanned files do not add up to a
/// number of 64 bits.
pub proof fn only_oversized_scans_fail(
    scanned: Seq<ScannedFile>,
    index: Map<Seq<char>, FileEntry>,
    fresh: Seq<FileEntry>,
)
    requires
        scanned.len() <= usize::MAX,
        distinct_paths(scanned),
        are_read(fresh, scanned, index),
    ensures
        total_size(listing(scanned, index, fresh)) == scanned_size(scanned, scanned.len()),
{
    let kept = kept_among(scanned, index, fresh, scanned.len());
    let read = fresh.map_values(|e: FileEntry| manifest_entry(e));
    let which = changed(scanned, index);
    sizes_add_up(scanned, index, fresh, scanned.len());
    sizes_of_both(kept, read);
    assert forall|i: int| 0 <= i < fresh.len() implies (#[trigger] fresh[i]).size
        == scanned[which[i] as int].size by {
        assert(describes(fresh[i], scanned[which[i] as int]));
    }
    sizes_of_the_read(fresh, scanned, which);
}

/// Every file of the scan is in the snapshot, with the path and the size that the scan found. If
/// it was read, its hash is the one that came of reading it, and its mode is that of the scan; if
/// not, hash and mode are those of the index.
pub proof fn snapshot_has_every_file(
    snap: Snapshot,
    scanned: Seq<ScannedFile>,
    index: Map<Seq<char>, FileEntry>,
    fresh: Seq<FileEntry>,
    pack_hash: Option<String>,
    parent: Option<String>,
    p: int,
)
    requires
        scanned.len() <= usize::MAX,
        distinct_paths(scanned),
        forall|k: Seq<char>| #[trigger] index.dom().contains(k) ==> index[k].path@ == k,
        are_read(fresh, scanned, index),
        is_snapshot(snap, scanned, index, fresh, pack_hash, parent),
        0 <= p < scanned.len(),
    ensures
        exists|k: int|
            #![trigger snap.manifest@[k]]
            {
                let e = snap.manifest@[k];
                &&& 0 <= k < snap.manifest@.len()
                &&& e.path@ == scanned[p].relative_path@
                &&& e.size == scanned[p].size
                &&& if changed(scanned, index).contains(p as usize) {
                    e.mode == scanned[p].mode && exists|i: int|
                        0 <= i < fresh.len() && changed(scanned, index)[i] == p && (
                        #[trigger] fresh[i]).blob_hash == e.blob_hash
                } else {
                    e.mode == index[e.path@].mode && e.blob_hash == index[e.path@].blob_hash
                }
            },
{
    let all = listing(scanned, index, fresh);
    let kept = kept_among(scanned, index, fresh, scanned.len());
    let which = changed(scanned, index);
    let path = scanned[p].relative_path@;
    assert(found(scanned, path));
    snapshot_lists_the_scan(scanned, index, fresh, path);
    let i = choose|i: int| 0 <= i < all.len() && (#[trigger] all[i]).path@ == path;
    kept_entries(scanned, index, fresh, scanned.len());
    read_means_changed(scanned, index, fresh, p);
    changed_by_fields(scanned, index, p);
    let o = choose|o: Seq<usize>| #[trigger]
        is_order(paths_of(all), o) && snap.manifest@ == o.map_values(|i: usize| all[i as int]);
    assert(all.len() <= usize::MAX) by {
        snapshot_counts_the_scan(scanned, index, fresh);
    }
    assert(o.contains(i as usize));
    let k = choose|k: int| 0 <= k < o.len() && o[k] == i as usize;
    assert(snap.manifest@[k] == all[i]);
    if i < kept.len() {
        assert(all[i] == kept[i]);
        assert(is_remembered(kept[i], scanned, index));
        let q = choose|q: int|
            0 <= q < scanned.len() && up_to_date(#[trigger] scanned[q], index) && kept[i]
                == manifest_entry(index[scanned[q].relative_path@]);
        assert(scanned[q].relative_path@ == scanned[p].relative_path@);
        assert(q == p);
    } else {
        let j = i - kept.len();
        assert(all[i] == manifest_entry(fresh[j]));
        assert(which[j] == p);
        assert(describes(fresh[j], scanned[which[j] as int]));
        assert(which.contains(p as usize));
        assert(fresh[j].blob_hash == all[i].blob_hash);
    }
}

/// The files of a snapshot are in the order of their paths.
pub proof fn snapshot_is_sorted(
    snap: Snapshot,
    scanned: Seq<ScannedFile>,
    index: Map<Seq<char>, FileEntry>,
    fresh: Seq<FileEntry>,
    pack_hash: Option<String>,
    parent: Option<String>,
)
    requires
        is_snapshot(snap, scanned, index, fresh, pack_hash, parent),
    ensures
        snap.parent_snapshot_id == parent,
        forall|a: int, b: int|
            0 <= a < b < snap.manifest@.len() ==> {
                let x = (#[trigger] snap.manifest@[a]).path@;
                let y = (#[trigger] snap.manifest@[b]).path@;
                x == y || crate::text::before(x, y)
            },
{
    let all = listing(scanned, index, fresh);
    let keys = paths_of(all);
    let o = choose|o: Seq<usize>| #[trigger]
        is_order(keys, o) && snap.manifest@ == o.map_values(|i: usize| all[i as int]);
    assert forall|a: int, b: int| 0 <= a < b < snap.manifest@.len() implies {
        let x = (#[trigger] snap.manifest@[a]).path@;
        let y = (#[trigger] snap.manifest@[b]).path@;
        x == y || crate::text::before(x, y)
    } by {
        assert(crate::sort::precedes(keys, o[a] as int, o[b] as int));
        assert(o.contains(o[a]));
        assert(o.contains(o[b]));
        assert(keys[o[a] as int] == all[o[a] as int].path);
        assert(keys[o[b] as int] == all[o[b] as int].path);
    }
}

/// A snapshot says of every blob that was read which pack holds it, and how long it is.
pub proof fn snapshot_locates_the_read(
    snap: Snapshot,
    scanned: Seq<ScannedFile>,
    index: Map<Seq<char>, FileEntry>,
    fresh: Seq<FileEntry>,
    pack_hash: Option<String>,
    parent: Option<String>,
    i: int,
)
    requires
        are_read(fresh, scanned, index),
        is_snapshot(snap, scanned, index, fresh, pack_hash, parent),
        0 <= i < fresh.len(),
    ensures
        snap.blob_locations@[i].blob_hash == fresh[i].blob_hash,
        snap.blob_locations@[i].pack_hash == pack_hash,
        snap.blob_locations@[i].size == scanned[changed(scanned, index)[i] as int].size,
{
    assert(describes(fresh[i], scanned[changed(scanned, index)[i] as int]));
}

/// The entry of a file holds all that the scan says of it.
pub proof fn entries_take_over_the_scan(entry: FileEntry, file: ScannedFile)
    requires
        describes(entry, file),
    ensures
        entry.path@ == file.relative_path@,
        entry.size == file.size,
        entry.mtime_secs == file.mtime_secs,
        entry.mtime_nanos == file.mtime_nanos,
        entry.inode == file.inode,
        entry.mode == file.mode,
{
}

/// A save has nothing to do exactly if the index has every file of the scan, with the same size
/// and time of modification, and no other file.
pub proof fn unmodified_directories_are_left_alone(
    plan: SavePlan,
    scanned: Seq<ScannedFile>,
    index: Map<Seq<char>, FileEntry>,
)
    requires
        scanned.len() <= usize::MAX,
        is_save_plan(plan, scanned, index),
    ensures
        nothing_to_save(plan) <==> {
            &&& forall|p: int|
                0 <= p < scanned.len() ==> {
                    let path = (#[trigger] scanned[p]).relative_path@;
                    &&& index.dom().contains(path)
                    &&& index[path].size == scanned[p].size
                    &&& index[path].mtime_secs == scanned[p].mtime_secs
                    &&& index[path].mtime_nanos == scanned[p].mtime_nanos
                }
            &&& forall|path: Seq<char>| #[trigger]
                index.dom().contains(path) ==> exists|p: int|
                    0 <= p < scanned.len() && (#[trigger] scanned[p]).relative_path@ == path
        },
{
    let which = changed(scanned, index);
    changed_positions(scanned, index, scanned.len());
    if nothing_to_save(plan) {
        assert forall|p: int| 0 <= p < scanned.len() implies up_to_date(
            #[trigger] scanned[p],
            index,
        ) by {
            if !up_to_date(scanned[p], index) {
                let i = choose|i: int| 0 <= i < which.len() && #[trigger] which[i] == p;
            }
        }
        assert forall|path: Seq<char>| #[trigger] index.dom().contains(path) implies exists|p: int|
            0 <= p < scanned.len() && (#[trigger] scanned[p]).relative_path@ == path by {
            if !found(scanned, path) {
                let i = choose|i: int|
                    0 <= i < plan.removed@.len() && (#[trigger] plan.removed@[i])@ == path;
            }
        }
    } else {
        if which.len() > 0 {
            let p = which[0] as int;
            assert(!up_to_date(scanned[p], index));
        } else {
            let path = plan.removed@[0]@;
            assert(index.dom().contains(path) && !found(scanned, path));
        }
    }
}

/// What is packed is the file as it was scanned and read: its entry has all that the scan says of
/// it and the hash of its content, under which it is kept, and the pack unpacks to its content.
pub proof fn packs_hold_what_was_read(file: ScannedFile, content: Seq<u8>, p: PackedFile)
    requires
        is_pack_of(file, content, p),
    ensures
        lz4_content(p.compressed@) == content,
        p.entry.blob_hash@ == content_hash(content),
        p.hash_hex@ == hex_text(p.entry.blob_hash@),
        p.entry.path@ == file.relative_path@,
        p.entry.size == file.size,
        p.entry.mtime_secs == file.mtime_secs,
        p.entry.mtime_nanos == file.mtime_nanos,
        p.entry.inode == file.inode,
        p.entry.mode == file.mode,
{
}

/// Whatever was compressed is packed as it is; where compression failed, the error is passed on.
pub proof fn compressed_contents_are_packed(
    file: ScannedFile,
    blob_hash: [u8; 16],
    frame: std::result::Result<Vec<u8>, CompressError>,
    r: Result<PackedFile>,
)
    requires
        is_packed(file, blob_hash, frame, r),
    ensures
        frame matches Ok(bytes) ==> (r matches Ok(p) && p.compressed@ == bytes@ && p.entry.blob_hash
            == blob_hash && p.hash_hex@ == hex_text(blob_hash@) && p.entry.path@
            == file.relative_path@ && p.entry.mode == file.mode && p.entry.size == file.size),
        frame matches Err(CompressError::Write(e)) ==> (r matches Err(SyncorError::Io(t)) && t@
            == e@),
        frame matches Err(CompressError::Finish(e)) ==> (r matches Err(SyncorError::Other(t)) && t@
            == e@),
{
}

/// A save counts every file that it read, and adds up the sizes of what it packed. One that read
/// nothing counts none.
pub proof fn saves_count_what_they_read(
    start: SaveRun,
    was: SaveRun,
    entry: FileEntry,
    compressed_len: u64,
    now: SaveRun,
    snapshot_id: String,
    files_scanned: usize,
    a: SaveResult,
    b: SaveResult,
    c: SaveResult,
)
    requires
        has_read_nothing(start),
        is_noted(was, now, entry, compressed_len),
        is_result_of(start, snapshot_id, files_scanned, a),
        is_result_of(was, snapshot_id, files_scanned, b),
        is_result_of(now, snapshot_id, files_scanned, c),
    ensures
        a.files_hashed == 0 && a.bytes_compressed == 0,
        c.files_hashed == b.files_hashed + 1,
        c.bytes_compressed == b.bytes_compressed + compressed_len,
        c.files_scanned == files_scanned,
        c.snapshot_id@ == snapshot_id@,
        now.entries@[was.entries@.len() as int] == entry,
        forall|i: int| 0 <= i < was.entries@.len() ==> #[trigger] now.entries@[i] == was.entries@[i],
{
}

/// A save that found nothing to do reports the snapshot that stands, if there is one, and no file
/// read.
pub proof fn idle_saves_report_the_latest_snapshot(
    files_scanned: usize,
    latest: Option<String>,
    r: SaveResult,
)
    requires
        leaves_everything(files_scanned, latest, r),
    ensures
        latest matches Some(id) ==> r.snapshot_id@ == id@,
        latest is None ==> r.snapshot_id@.len() == 0,
        r.files_scanned == files_scanned,
        r.files_hashed == 0,
        r.bytes_compressed == 0,
{
}

} // verus!
