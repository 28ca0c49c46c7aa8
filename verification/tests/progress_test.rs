use syncor::display::{
    human_bytes, progress_disabled, shows_log, BarEnd, BarKind, BarTick, NullCliReporter,
    ProgressDisplay,
};
use syncor::progress::{files_total, ItemTotal, NullReporter, Phase, ProgressReporter};

#[test]
fn null_reporter_accepts_all_calls() {
    let r = NullReporter;
    r.phase_start(Phase::Hash, ItemTotal::Unknown);
    r.phase_tick(3, 100);
    r.log("retry 1/3: fetch failed");
    r.phase_end(Phase::Hash);
}

#[test]
fn null_reporter_is_object_safe() {
    let r: Box<dyn ProgressReporter> = Box::new(NullReporter);
    r.phase_start(Phase::Scan, ItemTotal::Count(5));
    r.phase_end(Phase::Scan);
}

#[test]
fn labels_of_phases() {
    assert_eq!(Phase::Scan.label(), "Scanning workspace");
    assert_eq!(Phase::DetectChanges.label(), "Detecting changes");
    assert_eq!(Phase::Hash.label(), "Hashing & packing");
    assert_eq!(Phase::PackFinish.label(), "Finalizing pack");
    assert_eq!(Phase::Catalog.label(), "Writing snapshot catalog");
    assert_eq!(Phase::GitStage.label(), "Staging changes");
    assert_eq!(Phase::GitCommit.label(), "Committing");
    assert_eq!(Phase::GitEnumerate.label(), "Enumerating objects");
    assert_eq!(Phase::GitCount.label(), "Counting objects");
    assert_eq!(Phase::GitCompress.label(), "Compressing objects");
    assert_eq!(Phase::GitWrite.label(), "Writing objects");
    assert_eq!(Phase::GitReceive.label(), "Receiving objects");
    assert_eq!(Phase::GitResolve.label(), "Resolving deltas");
    assert_eq!(Phase::Merge.label(), "Merging");
    assert_eq!(Phase::Restore.label(), "Restoring files");
    assert_eq!(Phase::Cleanup.label(), "Cleaning up");
}

#[test]
fn totals_of_files() {
    assert!(matches!(
        files_total(&vec![1, 2, 40]),
        ItemTotal::Bytes { items: 3, bytes: 43 }
    ));
    assert!(matches!(
        files_total(&vec![u64::MAX, 2]),
        ItemTotal::Bytes { items: 2, bytes: u64::MAX }
    ));
    assert!(matches!(files_total(&vec![]), ItemTotal::Bytes { items: 0, bytes: 0 }));
}

#[test]
fn sizes_for_people() {
    assert_eq!(human_bytes(0), "0 B");
    assert_eq!(human_bytes(1023), "1023 B");
    assert_eq!(human_bytes(1024), "1.0 KiB");
    assert_eq!(human_bytes(1280), "1.2 KiB");
    assert_eq!(human_bytes(1792), "1.8 KiB");
    assert_eq!(human_bytes(1048575), "1024.0 KiB");
    assert_eq!(human_bytes(1048576), "1.0 MiB");
    assert_eq!(human_bytes(5 << 30), "5.0 GiB");
    assert_eq!(human_bytes(3 << 40), "3.0 TiB");
    assert_eq!(human_bytes(u64::MAX), "16777216.0 TiB");
}

#[test]
fn sizes_are_rounded_like_double_precision() {
    let units = ["B", "KiB", "MiB", "GiB", "TiB"];
    let reference = |bytes: u64| {
        if bytes < 1024 {
            return format!("{} B", bytes);
        }
        let mut value = bytes as f64;
        let mut unit = 0usize;
        while value >= 1024.0 && unit < units.len() - 1 {
            value /= 1024.0;
            unit += 1;
        }
        format!("{:.1} {}", value, units[unit])
    };
    let mut n: u64 = 0x9e37_79b9_7f4a_7c15;
    for _ in 0..20000 {
        n ^= n << 13;
        n ^= n >> 7;
        n ^= n << 17;
        for shift in [0, 1, 5, 10, 13, 20, 30, 40, 50, 54] {
            let b = n >> shift;
            assert_eq!(human_bytes(b), reference(b), "{}", b);
        }
    }
    for k in 0..64 {
        for d in 0..5u64 {
            let b = (1u64 << k).wrapping_add(d).wrapping_sub(2);
            assert_eq!(human_bytes(b), reference(b), "{}", b);
        }
    }
    for m in 0..2000u64 {
        // halfway between two decimals, and right beside
        for b in [m << 38, (m << 38) + 1, (m << 38).saturating_sub(1), m * 256, (m << 53).wrapping_add(m)] {
            assert_eq!(human_bytes(b), reference(b), "{}", b);
        }
    }
}

#[test]
fn a_bar_counts_and_is_announced() {
    let mut d = ProgressDisplay::new();
    assert_eq!(d.start(Phase::Hash, ItemTotal::Bytes { items: 2, bytes: 30 }), BarKind::Bytes(30));
    assert!(d.has_room(1));
    match d.tick(1, 10) {
        BarTick::AdvanceFiles { bytes, message } => {
            assert_eq!(bytes, 10);
            assert_eq!(message, "Hashing & packing (1/2 files)");
        }
        other => panic!("{:?}", other),
    }
    assert_eq!(d.end(Phase::Hash), BarEnd::Announce);
    assert_eq!(d.end(Phase::Hash), BarEnd::Ignore);
}

#[test]
fn a_preempted_bar_is_silent() {
    let mut d = ProgressDisplay::new();
    assert_eq!(d.start(Phase::GitWrite, ItemTotal::Count(4)), BarKind::Count(4));
    assert_eq!(d.start(Phase::GitEnumerate, ItemTotal::Count(9)), BarKind::Count(9));
    assert_eq!(d.end(Phase::GitWrite), BarEnd::Ignore);
    assert_eq!(d.end(Phase::GitEnumerate), BarEnd::Clear);
}

#[test]
fn a_spinner_is_always_announced() {
    let mut d = ProgressDisplay::new();
    assert!(matches!(d.tick(1, 1), BarTick::Still));
    assert_eq!(d.start(Phase::Scan, ItemTotal::Unknown), BarKind::Spinner);
    assert!(matches!(d.tick(1, 1), BarTick::Still));
    assert_eq!(d.end(Phase::Scan), BarEnd::Announce);
    d.start(Phase::GitCount, ItemTotal::Count(3));
    assert!(matches!(d.tick(2, 7), BarTick::Advance(2)));
    d.start(Phase::Restore, ItemTotal::Bytes { items: 1, bytes: 1 });
    d.tick(u64::MAX, 0);
    assert!(!d.has_room(1));
}

#[test]
fn retry_warnings_are_always_shown() {
    assert!(shows_log(false, "retry 1/3: fetch failed"));
    assert!(!shows_log(false, "retrying"));
    assert!(shows_log(true, "anything"));
    assert!(NullCliReporter::new(true).prints("x"));
    assert!(!NullCliReporter::new(false).prints("x"));
}

#[test]
fn the_display_can_be_switched_off() {
    assert!(!progress_disabled(false, false, true));
    assert!(progress_disabled(true, false, true));
    assert!(progress_disabled(false, true, true));
    assert!(progress_disabled(false, false, false));
}
