//! Progress reporting.
//!
//! Consumers (sync pipelines, transports) call `phase_start`, any number of `phase_tick`s and
//! `phase_end` for each logical phase. `ItemTotal` tells the reporter what kind of bar or
//! spinner to draw; unknown totals render as spinners, counts as count bars, and byte totals as
//! byte/ETA bars.

use vstd::prelude::*;

verus! {

/// A logical step of a long operation.
#[derive(Debug, Clone, Copy, PartialEq, Eq, Hash, Structural)]
pub enum Phase {
    Scan,
    DetectChanges,
    Hash,
    PackFinish,
    Catalog,
    GitStage,
    GitCommit,
    GitEnumerate,
    GitCount,
    GitCompress,
    GitWrite,
    GitReceive,
    GitResolve,
    Merge,
    Restore,
    Cleanup,
}

impl Phase {
    /// What the phase is called on screen.
    pub open spec fn label_text(self) -> Seq<char> {
        match self {
            Phase::Scan => "Scanning workspace"@,
            Phase::DetectChanges => "Detecting changes"@,
            Phase::Hash => "Hashing & packing"@,
            Phase::PackFinish => "Finalizing pack"@,
            Phase::Catalog => "Writing snapshot catalog"@,
            Phase::GitStage => "Staging changes"@,
            Phase::GitCommit => "Committing"@,
            Phase::GitEnumerate => "Enumerating objects"@,
            Phase::GitCount => "Counting objects"@,
            Phase::GitCompress => "Compressing objects"@,
            Phase::GitWrite => "Writing objects"@,
            Phase::GitReceive => "Receiving objects"@,
            Phase::GitResolve => "Resolving deltas"@,
            Phase::Merge => "Merging"@,
            Phase::Restore => "Restoring files"@,
            Phase::Cleanup => "Cleaning up"@,
        }
    }

    /// What the phase is called on screen.
    pub fn label(self) -> (r: &'static str)
        ensures
            r@ == self.label_text(),
    {
        match self {
            Phase::Scan => "Scanning workspace",
            Phase::DetectChanges => "Detecting changes",
            Phase::Hash => "Hashing & packing",
            Phase::PackFinish => "Finalizing pack",
            Phase::Catalog => "Writing snapshot catalog",
            Phase::GitStage => "Staging changes",
            Phase::GitCommit => "Committing",
            Phase::GitEnumerate => "Enumerating objects",
            Phase::GitCount => "Counting objects",
            Phase::GitCompress => "Compressing objects",
            Phase::GitWrite => "Writing objects",
            Phase::GitReceive => "Receiving objects",
            Phase::GitResolve => "Resolving deltas",
            Phase::Merge => "Merging",
            Phase::Restore => "Restoring files",
            Phase::Cleanup => "Cleaning up",
        }
    }
}

/// How much work a phase has ahead of it.
#[derive(Debug, Clone, Copy)]
pub enum ItemTotal {
    Unknown,
    Count(u64),
    Bytes { items: u64, bytes: u64 },
}

/// All sizes together.
pub open spec fn sum_of(sizes: Seq<u64>) -> nat
    decreases sizes.len(),
{
    if sizes.len() == 0 {
        0
    } else {
        sum_of(sizes.drop_last()) + sizes.last() as nat
    }
}

/// The total for a phase that goes through files of these sizes.
pub open spec fn total_of(sizes: Seq<u64>) -> ItemTotal {
    ItemTotal::Bytes {
        items: sizes.len() as u64,
        bytes: if sum_of(sizes) > u64::MAX {
            u64::MAX
        } else {
            sum_of(sizes) as u64
        },
    }
}

/// The total for a phase that goes through files of these sizes. A sum beyond 64 bits is shown as
/// the largest number there is.
pub fn files_total(sizes: &Vec<u64>) -> (r: ItemTotal)
    ensures
        r == total_of(sizes@),
{
    let mut bytes: u64 = 0;
    let mut i: usize = 0;
    while i < sizes.len()
        invariant
            i <= sizes@.len(),
            bytes == if sum_of(sizes@.subrange(0, i as int)) > u64::MAX {
                u64::MAX as nat
            } else {
                sum_of(sizes@.subrange(0, i as int))
            },
        decreases sizes@.len() - i,
    {
        assert(sizes@.subrange(0, i + 1).drop_last() =~= sizes@.subrange(0, i as int));
        bytes = match bytes.checked_add(sizes[i]) {
            Some(n) => n,
            None => u64::MAX,
        };
        i = i + 1;
    }
    assert(sizes@.subrange(0, i as int) =~= sizes@);
    ItemTotal::Bytes { items: sizes.len() as u64, bytes }
}

/// Receives what happens during a long operation.
///
/// Callers start a phase, tick it and end it, in that order. An implementation takes a late
/// `phase_end` on a phase that is already closed as a no-op.
pub trait ProgressReporter: Send + Sync {
    fn phase_start(&self, phase: Phase, total: ItemTotal);

    fn phase_tick(&self, items_delta: u64, bytes_delta: u64);

    fn phase_end(&self, phase: Phase);

    fn log(&self, msg: &str);
}

/// Reports nothing.
pub struct NullReporter;

impl ProgressReporter for NullReporter {
    fn phase_start(&self, _phase: Phase, _total: ItemTotal) {
    }

    fn phase_tick(&self, _items_delta: u64, _bytes_delta: u64) {
    }

    fn phase_end(&self, _phase: Phase) {
    }

    fn log(&self, _msg: &str) {
    }
}

// ---------------------------------------------------------------------------
// Laws
// ---------------------------------------------------------------------------

/// No two phases are called the same.
pub proof fn labels_tell_phases_apart(a: Phase, b: Phase)
    requires
        a.label_text() == b.label_text(),
    ensures
        a == b,
{
    label_by_characters(a);
    label_by_characters(b);
}

/// What tells the label of a phase from the others.
spec fn telling(phase: Phase) -> (nat, char, char) {
    match phase {
        Phase::Scan => (18, 'S', 'c'),
        Phase::DetectChanges => (17, 'D', 'e'),
        Phase::Hash => (17, 'H', 'a'),
        Phase::PackFinish => (15, 'F', 'i'),
        Phase::Catalog => (24, 'W', 'r'),
        Phase::GitStage => (15, 'S', 't'),
        Phase::GitCommit => (10, 'C', 'o'),
        Phase::GitEnumerate => (19, 'E', 'n'),
        Phase::GitCount => (16, 'C', 'o'),
        Phase::GitCompress => (19, 'C', 'o'),
        Phase::GitWrite => (15, 'W', 'r'),
        Phase::GitReceive => (17, 'R', 'e'),
        Phase::GitResolve => (16, 'R', 'e'),
        Phase::Merge => (7, 'M', 'e'),
        Phase::Restore => (15, 'R', 'e'),
        Phase::Cleanup => (11, 'C', 'l'),
    }
}

/// The label of a phase by its length and its first characters.
proof fn label_by_characters(phase: Phase)
    ensures
        phase.label_text().len() == telling(phase).0,
        phase.label_text()[0] == telling(phase).1,
        phase.label_text()[1] == telling(phase).2,
{
    reveal_strlit("Scanning workspace");
    reveal_strlit("Detecting changes");
    reveal_strlit("Hashing & packing");
    reveal_strlit("Finalizing pack");
    reveal_strlit("Writing snapshot catalog");
    reveal_strlit("Staging changes");
    reveal_strlit("Committing");
    reveal_strlit("Enumerating objects");
    reveal_strlit("Counting objects");
    reveal_strlit("Compressing objects");
    reveal_strlit("Writing objects");
    reveal_strlit("Receiving objects");
    reveal_strlit("Resolving deltas");
    reveal_strlit("Merging");
    reveal_strlit("Restoring files");
    reveal_strlit("Cleaning up");
}

/// A file more adds one item, and its size as long as the sum can be counted; the total never
/// shrinks, and the total of no files is nothing.
pub proof fn totals_grow_with_every_file(sizes: Seq<u64>, size: u64)
    requires
        sizes.len() < u64::MAX,
    ensures
        total_of(Seq::empty()) == (ItemTotal::Bytes { items: 0, bytes: 0 }),
        ({
            let was = total_of(sizes);
            let now = total_of(sizes.push(size));
            &&& now->items == was->items + 1
            &&& was->Bytes_bytes < u64::MAX && was->Bytes_bytes + size <= u64::MAX
                ==> now->Bytes_bytes == was->Bytes_bytes + size
            &&& was->Bytes_bytes + size > u64::MAX ==> now->Bytes_bytes == u64::MAX
        }),
{
    assert(sizes.push(size).drop_last() =~= sizes);
    assert(sum_of(sizes.push(size)) == sum_of(sizes) + size);
}

} // verus!
