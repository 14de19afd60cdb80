//! The text of the decision log and of the final report.

use vstd::prelude::*;
use crate::engine::{Outcome, RunSummary};

verus! {

/// The decimal digit character of `d`.
pub open spec fn digit_char(d: nat) -> char {
    ((d % 10) + ('0' as nat)) as char
}

/// The decimal form of `n`, without leading zeros.
pub open spec fn decimal_spec(n: nat) -> Seq<char>
    decreases n,
{
    if n < 10 {
        seq![digit_char(n)]
    } else {
        decimal_spec(n / 10) + seq![digit_char(n % 10)]
    }
}

fn digit_str(d: u64) -> (r: &'static str)
    requires
        d < 10,
    ensures
        r@ == seq![digit_char(d as nat)],
{
    match d {
        0 => {
            proof { reveal_strlit("0"); }
            "0"
        },
        1 => {
            proof { reveal_strlit("1"); }
            "1"
        },
        2 => {
            proof { reveal_strlit("2"); }
            "2"
        },
        3 => {
            proof { reveal_strlit("3"); }
            "3"
        },
        4 => {
            proof { reveal_strlit("4"); }
            "4"
        },
        5 => {
            proof { reveal_strlit("5"); }
            "5"
        },
        6 => {
            proof { reveal_strlit("6"); }
            "6"
        },
        7 => {
            proof { reveal_strlit("7"); }
            "7"
        },
        8 => {
            proof { reveal_strlit("8"); }
            "8"
        },
        _ => {
            proof { reveal_strlit("9"); }
            "9"
        },
    }
}

/// The decimal form of `n`.
pub fn decimal(n: u64) -> (r: String)
    ensures
        r@ == decimal_spec(n as nat),
    decreases n,
{
    if n < 10 {
        String::from_str(digit_str(n))
    } else {
        let mut s = decimal(n / 10);
        s.append(digit_str(n % 10));
        s
    }
}

/// The log line recording a decision: the absolute path for a dataless
/// skip, the relative path otherwise.
pub open spec fn decision_line_spec(o: Outcome, abs: Seq<char>, rel: Seq<char>) -> Seq<char> {
    match o {
        Outcome::SkippedDataless => "SKIPPED (dataless): "@ + abs + "\n"@,
        Outcome::SkippedExists => "SKIPPED (exists): "@ + rel + "\n"@,
        Outcome::Copied => "COPIED: "@ + rel + "\n"@,
    }
}

/// The log line, newline included, that records `outcome` for the file at
/// absolute path `abs` and relative path `rel`.
pub fn decision_line(outcome: Outcome, abs: &str, rel: &str) -> (r: String)
    ensures
        r@ == decision_line_spec(outcome, abs@, rel@),
{
    let (head, path) = match outcome {
        Outcome::SkippedDataless => ("SKIPPED (dataless): ", abs),
        Outcome::SkippedExists => ("SKIPPED (exists): ", rel),
        Outcome::Copied => ("COPIED: ", rel),
    };
    let mut s = String::from_str(head);
    s.append(path);
    s.append("\n");
    s
}

/// One indented line per attribute name.
pub open spec fn attr_lines(names: Seq<Seq<char>>) -> Seq<char>
    decreases names.len(),
{
    if names.len() == 0 {
        Seq::empty()
    } else {
        attr_lines(names.drop_last()) + " - "@ + names.last() + "\n"@
    }
}

/// The diagnostic block listing a file's extended attributes.
pub open spec fn xattr_block_spec(path: Seq<char>, names: Seq<Seq<char>>) -> Seq<char> {
    "xattrs for "@ + path + ":\n"@ + attr_lines(names)
}

/// The diagnostic block for the file at `path` with attribute `names`.
pub fn xattr_block(path: &str, names: &Vec<String>) -> (r: String)
    ensures
        r@ == xattr_block_spec(path@, names.deep_view()),
{
    let mut s = String::from_str("xattrs for ");
    s.append(path);
    s.append(":\n");
    let ghost head = s@;
    let mut i: usize = 0;
    while i < names.len()
        invariant
            i <= names@.len(),
            head == "xattrs for "@ + path@ + ":\n"@,
            s@ == head + attr_lines(names.deep_view().subrange(0, i as int)),
        decreases names@.len() - i,
    {
        let ghost before = s@;
        s.append(" - ");
        s.append(names[i].as_str());
        s.append("\n");
        proof {
            let dv = names.deep_view();
            let pre = dv.subrange(0, i as int);
            let next = dv.subrange(0, i + 1);
            assert(next.drop_last() =~= pre);
            assert(next.last() == names@[i as int]@);
            assert(s@ =~= head + attr_lines(next));
        }
        i = i + 1;
    }
    assert(names.deep_view().subrange(0, i as int) =~= names.deep_view());
    s
}

/// The two header lines of the log.
pub open spec fn header_spec(source: Seq<char>, total: nat) -> Seq<char> {
    "Analyzing directory: "@ + source + "\n"@ + "Total files detected for processing: "@
        + decimal_spec(total) + "\n"@
}

/// The header lines naming the source root and the number of files found.
pub fn header(source: &str, total: u64) -> (r: String)
    ensures
        r@ == header_spec(source@, total as nat),
{
    let mut s = String::from_str("Analyzing directory: ");
    s.append(source);
    s.append("\n");
    s.append("Total files detected for processing: ");
    let n = decimal(total);
    s.append(n.as_str());
    s.append("\n");
    proof {
        assert(s@ =~= header_spec(source@, total as nat));
    }
    s
}

/// The final report of a run.
pub open spec fn report_spec(sum: RunSummary, log_path: Seq<char>) -> Seq<char> {
    "\n\nSummary:\n"@ + "  Total files scanned:        "@ + decimal_spec(sum.total as nat) + "\n"@
        + "  Files copied:               "@ + decimal_spec(sum.copied as nat) + "\n"@
        + "  Files skipped (exists):     "@ + decimal_spec(sum.skipped_exists as nat) + "\n"@
        + "  Files skipped (dataless):   "@ + decimal_spec(sum.skipped_dataless as nat) + "\n"@
        + "  Log saved to:               "@ + log_path + "\n"@
}

/// The report printed at the end of a run: the counters and where the log is.
pub fn report(summary: &RunSummary, log_path: &str) -> (r: String)
    ensures
        r@ == report_spec(*summary, log_path@),
{
    let mut s = String::from_str("\n\nSummary:\n");
    s.append("  Total files scanned:        ");
    let n = decimal(summary.total);
    s.append(n.as_str());
    s.append("\n");
    s.append("  Files copied:               ");
    let n = decimal(summary.copied);
    s.append(n.as_str());
    s.append("\n");
    s.append("  Files skipped (exists):     ");
    let n = decimal(summary.skipped_exists);
    s.append(n.as_str());
    s.append("\n");
    s.append("  Files skipped (dataless):   ");
    let n = decimal(summary.skipped_dataless);
    s.append(n.as_str());
    s.append("\n");
    s.append("  Log saved to:               ");
    s.append(log_path);
    s.append("\n");
    proof {
        assert(s@ =~= report_spec(*summary, log_path@));
    }
    s
}

/// The number of line breaks in `s`.
pub open spec fn newlines(s: Seq<char>) -> nat
    decreases s.len(),
{
    if s.len() == 0 {
        0
    } else {
        newlines(s.drop_last()) + if s.last() == '\n' {
            1nat
        } else {
            0nat
        }
    }
}

proof fn lemma_newlines_concat(a: Seq<char>, b: Seq<char>)
    ensures
        newlines(a + b) == newlines(a) + newlines(b),
    decreases b.len(),
{
    if b.len() == 0 {
        assert(a + b =~= a);
    } else {
        assert((a + b).drop_last() =~= a + b.drop_last());
        assert((a + b).last() == b.last());
        lemma_newlines_concat(a, b.drop_last());
    }
}

/// Each decision is recorded on exactly one line: where the paths hold no
/// line break, the decision line holds one, at its end.
pub proof fn lemma_decision_line_is_one_line(o: Outcome, abs: Seq<char>, rel: Seq<char>)
    requires
        newlines(abs) == 0,
        newlines(rel) == 0,
    ensures
        newlines(decision_line_spec(o, abs, rel)) == 1,
        decision_line_spec(o, abs, rel).last() == '\n',
{
    reveal_strlit("SKIPPED (dataless): ");
    reveal_strlit("SKIPPED (exists): ");
    reveal_strlit("COPIED: ");
    reveal_strlit("\n");
    reveal_with_fuel(newlines, 22);
    let head = match o {
        Outcome::SkippedDataless => "SKIPPED (dataless): "@,
        Outcome::SkippedExists => "SKIPPED (exists): "@,
        Outcome::Copied => "COPIED: "@,
    };
    let path = match o {
        Outcome::SkippedDataless => abs,
        _ => rel,
    };
    assert(newlines(head) == 0);
    assert(newlines("\n"@) == 1);
    lemma_newlines_concat(head, path);
    lemma_newlines_concat(head + path, "\n"@);
    assert(decision_line_spec(o, abs, rel) == head + path + "\n"@);
}

} // verus!
