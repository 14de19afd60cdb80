//! A model of a whole run: the destination tree as a map from relative path
//! to bytes, the source files in walk order, and what the engine makes of
//! them. The guarantees of the mirror are proved over this model.

use vstd::prelude::*;
use crate::engine::{counts_for, outcome_spec, Outcome, RunSummary};

verus! {

/// A source file as the engine sees it.
pub ghost struct SourceFile {
    pub rel: Seq<char>,
    pub content: Seq<u8>,
    pub dataless: bool,
}

/// The destination tree after the engine handles one file.
pub open spec fn step_tree(dest: Map<Seq<char>, Seq<u8>>, f: SourceFile) -> Map<Seq<char>, Seq<u8>> {
    if outcome_spec(f.dataless, dest.contains_key(f.rel)) == Outcome::Copied {
        dest.insert(f.rel, f.content)
    } else {
        dest
    }
}

/// The destination tree after a run over `files`.
pub open spec fn run_tree(dest: Map<Seq<char>, Seq<u8>>, files: Seq<SourceFile>) -> Map<
    Seq<char>,
    Seq<u8>,
>
    decreases files.len(),
{
    if files.len() == 0 {
        dest
    } else {
        run_tree(step_tree(dest, files[0]), files.drop_first())
    }
}

/// The outcome of each file of a run, in walk order.
pub open spec fn run_outcomes(dest: Map<Seq<char>, Seq<u8>>, files: Seq<SourceFile>) -> Seq<
    Outcome,
>
    decreases files.len(),
{
    if files.len() == 0 {
        Seq::empty()
    } else {
        seq![outcome_spec(files[0].dataless, dest.contains_key(files[0].rel))] + run_outcomes(
            step_tree(dest, files[0]),
            files.drop_first(),
        )
    }
}

/// How many of `outs` are `o`.
pub open spec fn count_of(outs: Seq<Outcome>, o: Outcome) -> nat
    decreases outs.len(),
{
    if outs.len() == 0 {
        0
    } else {
        count_of(outs.drop_last(), o) + if outs.last() == o {
            1nat
        } else {
            0nat
        }
    }
}

/// How many of `files` call for outcome `o` against the tree as it was
/// before the run.
pub open spec fn count_files(dest: Map<Seq<char>, Seq<u8>>, files: Seq<SourceFile>, o: Outcome) -> nat
    decreases files.len(),
{
    if files.len() == 0 {
        0
    } else {
        (if outcome_spec(files[0].dataless, dest.contains_key(files[0].rel)) == o {
            1nat
        } else {
            0nat
        }) + count_files(dest, files.drop_first(), o)
    }
}

/// No two files share a relative path, as in any walk of a tree.
pub open spec fn distinct_rels(files: Seq<SourceFile>) -> bool {
    forall|i: int, j: int|
        0 <= i < files.len() && 0 <= j < files.len() && i != j ==> files[i].rel != files[j].rel
}

/// The counters of `s` are those of the outcomes `outs`.
pub open spec fn tallies(s: RunSummary, outs: Seq<Outcome>) -> bool {
    &&& s.total == outs.len()
    &&& s.copied == count_of(outs, Outcome::Copied)
    &&& s.skipped_dataless == count_of(outs, Outcome::SkippedDataless)
    &&& s.skipped_exists == count_of(outs, Outcome::SkippedExists)
}

proof fn lemma_frame(dest: Map<Seq<char>, Seq<u8>>, files: Seq<SourceFile>, r: Seq<char>)
    requires
        forall|k: int| 0 <= k < files.len() ==> files[k].rel != r,
    ensures
        run_tree(dest, files).contains_key(r) == dest.contains_key(r),
        dest.contains_key(r) ==> run_tree(dest, files)[r] == dest[r],
    decreases files.len(),
{
    if files.len() > 0 {
        let rest = files.drop_first();
        assert forall|k: int| 0 <= k < rest.len() implies rest[k].rel != r by {
            assert(rest[k] == files[k + 1]);
        }
        assert(files[0].rel != r);
        lemma_frame(step_tree(dest, files[0]), rest, r);
    }
}

proof fn lemma_nth(dest: Map<Seq<char>, Seq<u8>>, files: Seq<SourceFile>, i: int)
    requires
        distinct_rels(files),
        0 <= i < files.len(),
    ensures
        run_outcomes(dest, files).len() == files.len(),
        run_outcomes(dest, files)[i] == outcome_spec(
            files[i].dataless,
            dest.contains_key(files[i].rel),
        ),
        run_tree(dest, files).contains_key(files[i].rel) == step_tree(dest, files[i]).contains_key(
            files[i].rel,
        ),
        step_tree(dest, files[i]).contains_key(files[i].rel) ==> run_tree(dest, files)[files[i].rel]
            == step_tree(dest, files[i])[files[i].rel],
    decreases files.len(),
{
    let rest = files.drop_first();
    let d1 = step_tree(dest, files[0]);
    lemma_outcomes_len(d1, rest);
    assert forall|a: int, b: int|
        0 <= a < rest.len() && 0 <= b < rest.len() && a != b implies rest[a].rel != rest[b].rel by {
        assert(rest[a] == files[a + 1]);
        assert(rest[b] == files[b + 1]);
    }
    if i == 0 {
        assert forall|k: int| 0 <= k < rest.len() implies rest[k].rel != files[0].rel by {
            assert(rest[k] == files[k + 1]);
        }
        lemma_frame(d1, rest, files[0].rel);
    } else {
        lemma_nth(d1, rest, i - 1);
        assert(rest[i - 1] == files[i]);
        assert(files[0].rel != files[i].rel);
    }
}

proof fn lemma_outcomes_len(dest: Map<Seq<char>, Seq<u8>>, files: Seq<SourceFile>)
    ensures
        run_outcomes(dest, files).len() == files.len(),
    decreases files.len(),
{
    if files.len() > 0 {
        lemma_outcomes_len(step_tree(dest, files[0]), files.drop_first());
    }
}

/// A dataless file is skipped as dataless, and nothing is written at its
/// destination path: the path holds after the run what it held before.
pub proof fn lemma_dataless_untouched(
    dest: Map<Seq<char>, Seq<u8>>,
    files: Seq<SourceFile>,
    i: int,
)
    requires
        distinct_rels(files),
        0 <= i < files.len(),
        files[i].dataless,
    ensures
        run_outcomes(dest, files)[i] == Outcome::SkippedDataless,
        run_tree(dest, files).contains_key(files[i].rel) == dest.contains_key(files[i].rel),
        dest.contains_key(files[i].rel) ==> run_tree(dest, files)[files[i].rel]
            == dest[files[i].rel],
{
    lemma_nth(dest, files, i);
}

/// A resident file whose destination path already exists is skipped as
/// existing, and the bytes there are left as they were.
pub proof fn lemma_existing_kept(dest: Map<Seq<char>, Seq<u8>>, files: Seq<SourceFile>, i: int)
    requires
        distinct_rels(files),
        0 <= i < files.len(),
        !files[i].dataless,
        dest.contains_key(files[i].rel),
    ensures
        run_outcomes(dest, files)[i] == Outcome::SkippedExists,
        run_tree(dest, files).contains_key(files[i].rel),
        run_tree(dest, files)[files[i].rel] == dest[files[i].rel],
{
    lemma_nth(dest, files, i);
}

/// Any other file is copied: after the run its destination path holds the
/// source bytes.
pub proof fn lemma_others_copied(dest: Map<Seq<char>, Seq<u8>>, files: Seq<SourceFile>, i: int)
    requires
        distinct_rels(files),
        0 <= i < files.len(),
        !files[i].dataless,
        !dest.contains_key(files[i].rel),
    ensures
        run_outcomes(dest, files)[i] == Outcome::Copied,
        run_tree(dest, files).contains_key(files[i].rel),
        run_tree(dest, files)[files[i].rel] == files[i].content,
{
    lemma_nth(dest, files, i);
}

proof fn lemma_count_files_frame(
    d1: Map<Seq<char>, Seq<u8>>,
    d2: Map<Seq<char>, Seq<u8>>,
    files: Seq<SourceFile>,
    o: Outcome,
)
    requires
        forall|k: int|
            0 <= k < files.len() ==> d1.contains_key(#[trigger] files[k].rel) == d2.contains_key(
                files[k].rel,
            ),
    ensures
        count_files(d1, files, o) == count_files(d2, files, o),
    decreases files.len(),
{
    if files.len() > 0 {
        let rest = files.drop_first();
        assert forall|k: int| 0 <= k < rest.len() implies d1.contains_key(
            #[trigger] rest[k].rel,
        ) == d2.contains_key(rest[k].rel) by {
            assert(rest[k] == files[k + 1]);
        }
        assert(d1.contains_key(files[0].rel) == d2.contains_key(files[0].rel));
        lemma_count_files_frame(d1, d2, rest, o);
    }
}

proof fn lemma_count_of_prepend(x: Outcome, outs: Seq<Outcome>, o: Outcome)
    ensures
        count_of(seq![x] + outs, o) == (if x == o {
            1nat
        } else {
            0nat
        }) + count_of(outs, o),
    decreases outs.len(),
{
    if outs.len() == 0 {
        let whole = seq![x] + outs;
        assert(whole.drop_last() =~= Seq::<Outcome>::empty());
        assert(whole.last() == x);
        assert(count_of(whole.drop_last(), o) == 0);
        assert(count_of(outs, o) == 0);
    } else {
        let whole = seq![x] + outs;
        assert(whole.drop_last() =~= seq![x] + outs.drop_last());
        assert(whole.last() == outs.last());
        lemma_count_of_prepend(x, outs.drop_last(), o);
    }
}

proof fn lemma_counts(dest: Map<Seq<char>, Seq<u8>>, files: Seq<SourceFile>, o: Outcome)
    requires
        distinct_rels(files),
    ensures
        count_of(run_outcomes(dest, files), o) == count_files(dest, files, o),
    decreases files.len(),
{
    if files.len() > 0 {
        let rest = files.drop_first();
        let d1 = step_tree(dest, files[0]);
        assert forall|a: int, b: int|
            0 <= a < rest.len() && 0 <= b < rest.len() && a != b implies rest[a].rel
            != rest[b].rel by {
            assert(rest[a] == files[a + 1]);
            assert(rest[b] == files[b + 1]);
        }
        lemma_counts(d1, rest, o);
        assert forall|k: int| 0 <= k < rest.len() implies d1.contains_key(
            #[trigger] rest[k].rel,
        ) == dest.contains_key(rest[k].rel) by {
            assert(rest[k] == files[k + 1]);
            assert(files[0].rel != files[k + 1].rel);
        }
        lemma_count_files_frame(d1, dest, rest, o);
        lemma_count_of_prepend(
            outcome_spec(files[0].dataless, dest.contains_key(files[0].rel)),
            run_outcomes(d1, rest),
            o,
        );
    }
}

/// Each counter of a run counts exactly the files that call for its outcome
/// against the destination as it was before the run: the dataless counter
/// the dataless files, the exists counter the resident files already
/// present, the copied counter the rest.
pub proof fn lemma_counters_exact(dest: Map<Seq<char>, Seq<u8>>, files: Seq<SourceFile>)
    requires
        distinct_rels(files),
    ensures
        count_of(run_outcomes(dest, files), Outcome::SkippedDataless) == count_files(
            dest,
            files,
            Outcome::SkippedDataless,
        ),
        count_of(run_outcomes(dest, files), Outcome::SkippedExists) == count_files(
            dest,
            files,
            Outcome::SkippedExists,
        ),
        count_of(run_outcomes(dest, files), Outcome::Copied) == count_files(
            dest,
            files,
            Outcome::Copied,
        ),
{
    lemma_counts(dest, files, Outcome::SkippedDataless);
    lemma_counts(dest, files, Outcome::SkippedExists);
    lemma_counts(dest, files, Outcome::Copied);
}

proof fn lemma_partition(outs: Seq<Outcome>)
    ensures
        count_of(outs, Outcome::Copied) + count_of(outs, Outcome::SkippedDataless) + count_of(
            outs,
            Outcome::SkippedExists,
        ) == outs.len(),
    decreases outs.len(),
{
    if outs.len() > 0 {
        lemma_partition(outs.drop_last());
    }
}

/// Every file of a run gets exactly one outcome, hence one decision line,
/// and the counters add up to the number of files walked.
pub proof fn lemma_one_outcome_per_file(dest: Map<Seq<char>, Seq<u8>>, files: Seq<SourceFile>)
    ensures
        run_outcomes(dest, files).len() == files.len(),
        count_of(run_outcomes(dest, files), Outcome::Copied) + count_of(
            run_outcomes(dest, files),
            Outcome::SkippedDataless,
        ) + count_of(run_outcomes(dest, files), Outcome::SkippedExists) == files.len(),
{
    lemma_outcomes_len(dest, files);
    lemma_partition(run_outcomes(dest, files));
}

/// A fresh summary tallies no outcome.
pub proof fn lemma_new_tallies(s: RunSummary)
    requires
        s.total == 0,
        s.copied == 0,
        s.skipped_dataless == 0,
        s.skipped_exists == 0,
    ensures
        tallies(s, Seq::empty()),
{
}

/// Recording an outcome in a summary that tallies `outs` gives one that
/// tallies `outs` followed by that outcome.
pub proof fn lemma_record_tallies(before: RunSummary, after: RunSummary, outs: Seq<Outcome>, o: Outcome)
    requires
        tallies(before, outs),
        after.total == before.total + 1,
        after.copied == before.copied + counts_for(o).0,
        after.skipped_dataless == before.skipped_dataless + counts_for(o).1,
        after.skipped_exists == before.skipped_exists + counts_for(o).2,
    ensures
        tallies(after, outs.push(o)),
{
    assert(outs.push(o).drop_last() =~= outs);
}

proof fn lemma_keys_grow(dest: Map<Seq<char>, Seq<u8>>, files: Seq<SourceFile>, r: Seq<char>)
    requires
        dest.contains_key(r),
    ensures
        run_tree(dest, files).contains_key(r),
    decreases files.len(),
{
    if files.len() > 0 {
        lemma_keys_grow(step_tree(dest, files[0]), files.drop_first(), r);
    }
}

proof fn lemma_all_present(dest: Map<Seq<char>, Seq<u8>>, files: Seq<SourceFile>, k: int)
    requires
        0 <= k < files.len(),
        !files[k].dataless,
    ensures
        run_tree(dest, files).contains_key(files[k].rel),
    decreases files.len(),
{
    let rest = files.drop_first();
    let d1 = step_tree(dest, files[0]);
    if k == 0 {
        assert(d1.contains_key(files[0].rel));
        lemma_keys_grow(d1, rest, files[0].rel);
    } else {
        assert(rest[k - 1] == files[k]);
        lemma_all_present(d1, rest, k - 1);
    }
}

proof fn lemma_settled(t: Map<Seq<char>, Seq<u8>>, files: Seq<SourceFile>)
    requires
        forall|k: int|
            0 <= k < files.len() ==> files[k].dataless || t.contains_key(#[trigger] files[k].rel),
    ensures
        run_tree(t, files) == t,
        count_of(run_outcomes(t, files), Outcome::Copied) == 0,
    decreases files.len(),
{
    if files.len() > 0 {
        let rest = files.drop_first();
        assert(files[0].dataless || t.contains_key(files[0].rel));
        assert(step_tree(t, files[0]) == t);
        assert forall|k: int| 0 <= k < rest.len() implies rest[k].dataless || t.contains_key(
            #[trigger] rest[k].rel,
        ) by {
            assert(rest[k] == files[k + 1]);
        }
        lemma_settled(t, rest);
        lemma_count_of_prepend(
            outcome_spec(files[0].dataless, t.contains_key(files[0].rel)),
            run_outcomes(t, rest),
            Outcome::Copied,
        );
    }
}

/// A second run over the same source, with nothing changed in between,
/// copies nothing and leaves the destination as the first run left it.
pub proof fn lemma_second_run_idle(dest: Map<Seq<char>, Seq<u8>>, files: Seq<SourceFile>)
    ensures
        run_tree(run_tree(dest, files), files) == run_tree(dest, files),
        count_of(run_outcomes(run_tree(dest, files), files), Outcome::Copied) == 0,
{
    let t = run_tree(dest, files);
    assert forall|k: int| 0 <= k < files.len() implies files[k].dataless || t.contains_key(
        #[trigger] files[k].rel,
    ) by {
        if !files[k].dataless {
            lemma_all_present(dest, files, k);
        }
    }
    lemma_settled(t, files);
}

} // verus!
