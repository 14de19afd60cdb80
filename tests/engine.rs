use ghostsync::engine::{decide, progress_due, Outcome, RunSummary};

#[test]
fn decision_table() {
    assert_eq!(decide(false, false), Outcome::Copied);
    assert_eq!(decide(false, true), Outcome::SkippedExists);
    assert_eq!(decide(true, false), Outcome::SkippedDataless);
}

#[test]
fn dataless_takes_priority_over_exists() {
    assert_eq!(decide(true, true), Outcome::SkippedDataless);
}

#[test]
fn counters_advance_once_per_file() {
    let mut s = RunSummary::new();
    assert_eq!(s.process(true, false), Outcome::SkippedDataless);
    assert_eq!(s.process(true, true), Outcome::SkippedDataless);
    assert_eq!(s.process(false, true), Outcome::SkippedExists);
    assert_eq!(s.process(false, false), Outcome::Copied);
    s.record(Outcome::Copied);
    assert_eq!(s.total, 5);
    assert_eq!(s.skipped_dataless, 2);
    assert_eq!(s.skipped_exists, 1);
    assert_eq!(s.copied, 2);
}

#[test]
fn scenario_exists_and_dataless() {
    // a.txt is resident and already present at the destination; b.txt is a placeholder.
    let mut s = RunSummary::new();
    let a = s.process(false, true);
    let b = s.process(true, false);
    assert_eq!(a, Outcome::SkippedExists);
    assert_eq!(b, Outcome::SkippedDataless);
    assert_eq!((s.copied, s.skipped_exists, s.skipped_dataless), (0, 1, 1));
    assert_eq!(s.total, 2);
}

#[test]
fn scenario_empty_source() {
    let s = RunSummary::new();
    assert_eq!((s.total, s.copied, s.skipped_exists, s.skipped_dataless), (0, 0, 0, 0));
}

#[test]
fn scenario_nested_missing_destination() {
    let mut s = RunSummary::new();
    assert_eq!(s.process(false, false), Outcome::Copied);
    assert_eq!(s.copied, 1);
}

#[test]
fn second_pass_copies_nothing() {
    let mut first = RunSummary::new();
    first.process(false, false);
    first.process(true, false);
    first.process(false, true);
    let mut second = RunSummary::new();
    second.process(false, true);
    second.process(true, false);
    second.process(false, true);
    assert_eq!(first.copied, 1);
    assert_eq!(second.copied, 0);
    assert_eq!(second.skipped_exists, 2);
}

#[test]
fn progress_every_hundred() {
    assert!(!progress_due(1));
    assert!(!progress_due(99));
    assert!(progress_due(100));
    assert!(!progress_due(101));
    assert!(progress_due(300));
}
