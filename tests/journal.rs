use ghostsync::engine::{Outcome, RunSummary};
use ghostsync::journal::{decimal, decision_line, header, report, xattr_block};
use ghostsync::logfile::{backup_name, default_log_path, plan_log};

#[test]
fn decision_lines() {
    assert_eq!(decision_line(Outcome::SkippedDataless, "/src/b.txt", "b.txt"), "SKIPPED (dataless): /src/b.txt\n");
    assert_eq!(decision_line(Outcome::SkippedExists, "/src/a.txt", "a.txt"), "SKIPPED (exists): a.txt\n");
    assert_eq!(decision_line(Outcome::Copied, "/src/d/c.txt", "d/c.txt"), "COPIED: d/c.txt\n");
}

#[test]
fn one_line_per_decision() {
    for o in [Outcome::Copied, Outcome::SkippedDataless, Outcome::SkippedExists] {
        let line = decision_line(o, "/s/x", "x");
        assert_eq!(line.matches('\n').count(), 1);
        assert!(line.ends_with('\n'));
    }
}

#[test]
fn attribute_block() {
    let names = vec!["com.apple.quarantine".to_string(), "user.tag".to_string()];
    assert_eq!(
        xattr_block("/src/a.txt", &names),
        "xattrs for /src/a.txt:\n - com.apple.quarantine\n - user.tag\n"
    );
    assert_eq!(xattr_block("/src/a.txt", &vec![]), "xattrs for /src/a.txt:\n");
}

#[test]
fn decimal_forms() {
    assert_eq!(decimal(0), "0");
    assert_eq!(decimal(7), "7");
    assert_eq!(decimal(10), "10");
    assert_eq!(decimal(407), "407");
    assert_eq!(decimal(u64::MAX), "18446744073709551615");
}

#[test]
fn header_lines() {
    assert_eq!(
        header("/data/src", 0),
        "Analyzing directory: /data/src\nTotal files detected for processing: 0\n"
    );
    assert_eq!(header("s", 1234), "Analyzing directory: s\nTotal files detected for processing: 1234\n");
}

#[test]
fn final_report() {
    let mut s = RunSummary::new();
    s.record(Outcome::Copied);
    s.record(Outcome::SkippedExists);
    s.record(Outcome::SkippedExists);
    s.record(Outcome::SkippedDataless);
    assert_eq!(
        report(&s, "ghostsync_log.txt"),
        "\n\nSummary:\n  Total files scanned:        4\n  Files copied:               1\n  Files skipped (exists):     2\n  Files skipped (dataless):   1\n  Log saved to:               ghostsync_log.txt\n"
    );
}

#[test]
fn log_plan() {
    assert_eq!(default_log_path(), "ghostsync_log.txt");
    assert_eq!(backup_name("20240102_030405"), "ghostsync_log_backup_20240102_030405.txt");
    let p = plan_log(None, true, true, "20240102_030405");
    assert_eq!(p.backup_to.as_deref(), Some("ghostsync_log_backup_20240102_030405.txt"));
    assert_eq!(p.log_path, "ghostsync_log.txt");
    let p = plan_log(Some("mine.log".to_string()), true, false, "x");
    assert_eq!(p.backup_to, None);
    assert_eq!(p.log_path, "mine.log");
    let p = plan_log(None, false, true, "x");
    assert_eq!(p.backup_to, None);
}
