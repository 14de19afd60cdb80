use ghostsync::classify::{classify, flag_verdict, is_dataless, xattr_marks_placeholder, xattr_verdict, Verdict};
use ghostsync::text::contains_text;

fn names(list: &[&str]) -> Option<Vec<String>> {
    Some(list.iter().map(|s| s.to_string()).collect())
}

#[test]
fn substring_search() {
    assert!(contains_text("flags dataless x", "dataless"));
    assert!(contains_text("dataless", "dataless"));
    assert!(contains_text("abc", ""));
    assert!(contains_text("", ""));
    assert!(!contains_text("", "a"));
    assert!(!contains_text("datales", "dataless"));
    assert!(contains_text("ääb", "äb"));
}

#[test]
fn attribute_names_that_mark_placeholders() {
    assert!(xattr_marks_placeholder("com.apple.fileprovider.dir#N"));
    assert!(xattr_marks_placeholder("com.apple.icloud.itemName"));
    assert!(xattr_marks_placeholder("com.apple.dataless"));
    assert!(!xattr_marks_placeholder("com.apple.quarantine"));
    assert!(!xattr_marks_placeholder("user.cloud"));
    assert!(!xattr_marks_placeholder(""));
}

#[test]
fn first_conclusive_verdict_wins() {
    assert!(!classify(&vec![]));
    assert!(!classify(&vec![Verdict::Indeterminate, Verdict::Indeterminate]));
    assert!(classify(&vec![Verdict::Indeterminate, Verdict::Dataless, Verdict::Resident]));
    assert!(!classify(&vec![Verdict::Resident, Verdict::Dataless]));
    assert!(classify(&vec![Verdict::Dataless, Verdict::Resident]));
}

#[test]
fn strategy_verdicts() {
    assert_eq!(xattr_verdict(&None), Verdict::Indeterminate);
    assert_eq!(xattr_verdict(&names(&[])), Verdict::Indeterminate);
    assert_eq!(xattr_verdict(&names(&["user.x", "com.apple.cloud.x"])), Verdict::Dataless);
    assert_eq!(xattr_verdict(&names(&["com.apple.quarantine"])), Verdict::Indeterminate);
    assert_eq!(flag_verdict(&None), Verdict::Indeterminate);
    assert_eq!(flag_verdict(&Some("-rw-r--r--  1 u  staff  compressed,dataless 10 f".to_string())), Verdict::Dataless);
    assert_eq!(flag_verdict(&Some("-rw-r--r--  1 u  staff  - 10 f".to_string())), Verdict::Resident);
}

#[test]
fn classification_falls_back_and_fails_open() {
    assert!(!is_dataless(&None, &None));
    assert!(is_dataless(&names(&["com.apple.fileprovider.x"]), &None));
    assert!(is_dataless(&names(&["com.apple.fileprovider.x"]), &Some("plain".to_string())));
    assert!(is_dataless(&names(&["user.a"]), &Some("dataless".to_string())));
    assert!(!is_dataless(&names(&["user.a"]), &Some("uchg".to_string())));
    assert!(!is_dataless(&None, &Some(String::new())));
}
