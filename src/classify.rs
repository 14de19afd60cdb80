//! Deciding whether a file is a placeholder whose bytes are not on local
//! storage, from the signals gathered about it.
//!
//! Each detection strategy yields a [`Verdict`]; the strategies are folded in
//! order, the first conclusive one wins, and a file with no conclusive
//! strategy counts as resident.

use vstd::prelude::*;
use crate::text::{contains_seq, contains_text};

verus! {

/// What one detection strategy concluded about a file.
#[derive(PartialEq, Eq, Structural, Clone, Copy, Debug)]
pub enum Verdict {
    Dataless,
    Resident,
    Indeterminate,
}

/// The first conclusive verdict of `vs`, with "resident" (`false`) when none is.
pub open spec fn fold_verdicts(vs: Seq<Verdict>) -> bool
    decreases vs.len(),
{
    if vs.len() == 0 {
        false
    } else {
        match vs[0] {
            Verdict::Dataless => true,
            Verdict::Resident => false,
            Verdict::Indeterminate => fold_verdicts(vs.drop_first()),
        }
    }
}

/// Folds the verdicts left to right: the first that is not indeterminate
/// decides, and "resident" is the default.
pub fn classify(verdicts: &Vec<Verdict>) -> (r: bool)
    ensures
        r == fold_verdicts(verdicts@),
{
    let mut i: usize = 0;
    assert(verdicts@.subrange(0, verdicts@.len() as int) =~= verdicts@);
    while i < verdicts.len()
        invariant
            i <= verdicts@.len(),
            fold_verdicts(verdicts@) == fold_verdicts(verdicts@.subrange(i as int, verdicts@.len() as int)),
        decreases verdicts@.len() - i,
    {
        let ghost rest = verdicts@.subrange(i as int, verdicts@.len() as int);
        assert(rest[0] == verdicts@[i as int]);
        match verdicts[i] {
            Verdict::Dataless => {
                return true;
            },
            Verdict::Resident => {
                return false;
            },
            Verdict::Indeterminate => {
                assert(rest.drop_first() =~= verdicts@.subrange(i + 1, verdicts@.len() as int));
            },
        }
        i = i + 1;
    }
    assert(verdicts@.subrange(i as int, verdicts@.len() as int).len() == 0);
    false
}

/// The attribute name lies in the vendor namespace and names a placeholder.
pub open spec fn marks_placeholder(name: Seq<char>) -> bool {
    &&& contains_seq(name, "com.apple."@)
    &&& (contains_seq(name, "dataless"@) || contains_seq(name, "cloud"@) || contains_seq(
        name,
        "fileprovider"@,
    ))
}

/// Whether an extended attribute name is a placeholder signature.
pub fn xattr_marks_placeholder(name: &str) -> (r: bool)
    ensures
        r == marks_placeholder(name@),
{
    contains_text(name, "com.apple.") && (contains_text(name, "dataless") || contains_text(
        name,
        "cloud",
    ) || contains_text(name, "fileprovider"))
}

/// Some name of `names` is a placeholder signature.
pub open spec fn any_marks_placeholder(names: Seq<Seq<char>>) -> bool {
    exists|i: int| 0 <= i < names.len() && #[trigger] marks_placeholder(names[i])
}

/// The extended-attribute strategy's verdict, from the file's attribute
/// names (`None` where they could not be listed).
pub open spec fn xattr_verdict_spec(names: Option<Seq<Seq<char>>>) -> Verdict {
    match names {
        Some(ns) => if any_marks_placeholder(ns) {
            Verdict::Dataless
        } else {
            Verdict::Indeterminate
        },
        None => Verdict::Indeterminate,
    }
}

/// The attribute names as character sequences.
pub open spec fn names_view(names: &Option<Vec<String>>) -> Option<Seq<Seq<char>>> {
    match names {
        Some(ns) => Some(ns.deep_view()),
        None => None,
    }
}

/// The flag listing as a character sequence.
pub open spec fn listing_view(listing: &Option<String>) -> Option<Seq<char>> {
    match listing {
        Some(t) => Some(t@),
        None => None,
    }
}

/// Extended-attribute strategy: a placeholder signature among the names makes
/// the file dataless; anything else leaves the question open.
pub fn xattr_verdict(names: &Option<Vec<String>>) -> (r: Verdict)
    ensures
        r == xattr_verdict_spec(names_view(names)),
{
    match names {
        None => Verdict::Indeterminate,
        Some(ns) => {
            let mut i: usize = 0;
            assert(names_view(names) == Some(ns.deep_view()));
            while i < ns.len()
                invariant
                    names_view(names) == Some(ns.deep_view()),
                    i <= ns@.len(),
                    forall|j: int| 0 <= j < i ==> !marks_placeholder(#[trigger] ns@[j]@),
                decreases ns@.len() - i,
            {
                if xattr_marks_placeholder(ns[i].as_str()) {
                    assert(ns.deep_view()[i as int] == ns@[i as int]@);
                    assert(marks_placeholder(ns.deep_view()[i as int]));
                    assert(any_marks_placeholder(ns.deep_view()));
                    return Verdict::Dataless;
                }
                i = i + 1;
            }
            assert forall|j: int| 0 <= j < ns.deep_view().len() implies !marks_placeholder(
                #[trigger] ns.deep_view()[j],
            ) by {
                assert(ns.deep_view()[j] == ns@[j]@);
            }
            assert(names_view(names) == Some(ns.deep_view()));
            Verdict::Indeterminate
        },
    }
}

/// The file-flag strategy's verdict, from the text of the flag listing
/// (`None` where it could not be had).
pub open spec fn flag_verdict_spec(listing: Option<Seq<char>>) -> Verdict {
    match listing {
        Some(t) => if contains_seq(t, "dataless"@) {
            Verdict::Dataless
        } else {
            Verdict::Resident
        },
        None => Verdict::Indeterminate,
    }
}

/// File-flag strategy: the listing is untrusted text, searched for the
/// "dataless" flag word.
pub fn flag_verdict(listing: &Option<String>) -> (r: Verdict)
    ensures
        r == flag_verdict_spec(listing_view(listing)),
{
    match listing {
        None => Verdict::Indeterminate,
        Some(t) => if contains_text(t.as_str(), "dataless") {
            Verdict::Dataless
        } else {
            Verdict::Resident
        },
    }
}

/// The verdict on a file: the attribute strategy first, then the flag
/// strategy, and "resident" where neither is conclusive.
pub open spec fn dataless_spec(names: Option<Seq<Seq<char>>>, listing: Option<Seq<char>>) -> bool {
    fold_verdicts(seq![xattr_verdict_spec(names), flag_verdict_spec(listing)])
}

/// Whether a file is dataless, given its extended attribute names and the
/// text of its flag listing, each `None` where the query failed.
pub fn is_dataless(xattr_names: &Option<Vec<String>>, flag_listing: &Option<String>) -> (r: bool)
    ensures
        r == dataless_spec(names_view(xattr_names), listing_view(flag_listing)),
        r == ((xattr_names is Some && any_marks_placeholder(xattr_names->0.deep_view())) || (
        flag_listing is Some && contains_seq(flag_listing->0@, "dataless"@))),
{
    let verdicts = vec![xattr_verdict(xattr_names), flag_verdict(flag_listing)];
    let r = classify(&verdicts);
    proof {
        let vs = verdicts@;
        assert(vs =~= seq![vs[0], vs[1]]);
        reveal_with_fuel(fold_verdicts, 3);
        assert(vs.drop_first() =~= seq![vs[1]]);
        assert(vs.drop_first().drop_first() =~= Seq::<Verdict>::empty());
    }
    r
}

} // verus!
