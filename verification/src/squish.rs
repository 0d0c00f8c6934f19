//! The aggregator's logic: frame a file's content for the output artifact,
//! and account a batch of per-file outcomes in the result accumulator.

use vstd::prelude::*;
use vstd::string::StringExecFns;

use crate::types::{
    has_sized_path, record_error, record_size, SquishResult, SquishResultView,
};

verus! {

/// How processing one selected file ended.
#[derive(Debug, Clone)]
pub enum OutcomeKind {
    /// The file's content could not be read as text.
    ReadFailure,
    /// The framed block could not be written to the output.
    WriteFailure,
    /// The framed block was written; the content was this many bytes long.
    Success { size: u64 },
}

/// The outcome of processing one selected file.
#[derive(Debug, Clone)]
pub struct FileOutcome {
    pub path: String,
    pub kind: OutcomeKind,
}

/// The header line that introduces one file's block in the output artifact.
pub open spec fn block_header(path: Seq<char>) -> Seq<char> {
    "// ─── "@ + path + " ───────────────────────────────────────────\n"@
}

/// One file's block in the output artifact: the header line, the content
/// verbatim, the newline that ends its last line, and two blank lines.
pub open spec fn framed_block(path: Seq<char>, content: Seq<char>) -> Seq<char> {
    block_header(path) + content + "\n\n\n"@
}

/// Build the output block for one file.
pub fn frame_block(path: &str, content: &str) -> (r: String)
    ensures
        r@ == framed_block(path@, content@),
{
    let mut s = String::from_str("// ─── ");
    s.append(path);
    s.append(" ───────────────────────────────────────────\n");
    s.append(content);
    s.append("\n\n\n");
    proof {
        assert(s@ =~= framed_block(path@, content@));
    }
    s
}

/// How many line breaks a character sequence holds.
pub open spec fn newline_count(s: Seq<char>) -> nat
    decreases s.len(),
{
    if s.len() == 0 {
        0nat
    } else {
        newline_count(s.drop_last()) + (if s.last() == '\n' {
            1nat
        } else {
            0nat
        })
    }
}

proof fn lemma_newline_count_concat(a: Seq<char>, b: Seq<char>)
    ensures
        newline_count(a + b) == newline_count(a) + newline_count(b),
    decreases b.len(),
{
    if b.len() == 0 {
        assert(a + b =~= a);
    } else {
        lemma_newline_count_concat(a, b.drop_last());
        assert((a + b).drop_last() =~= a + b.drop_last());
        assert((a + b).last() == b.last());
    }
}

/// Law: a block embeds its content verbatim, between the header and exactly
/// the three newlines that end the content's last line and leave two blank
/// lines; and when the path holds no line break, the header is exactly one
/// line, ended by its final character.
pub proof fn lemma_block_round_trip(path: Seq<char>, content: Seq<char>)
    ensures
        framed_block(path, content).len() == block_header(path).len() + content.len() + 3,
        framed_block(path, content).subrange(
            block_header(path).len() as int,
            (block_header(path).len() + content.len()) as int,
        ) == content,
        framed_block(path, content).subrange(
            (block_header(path).len() + content.len()) as int,
            framed_block(path, content).len() as int,
        ) == "\n\n\n"@,
        newline_count(path) == 0 ==> newline_count(block_header(path)) == 1,
        block_header(path).len() > 0 && block_header(path).last() == '\n',
{
    reveal_strlit("// ─── ");
    reveal_strlit(" ───────────────────────────────────────────\n");
    reveal_strlit("\n\n\n");
    let h = block_header(path);
    let blk = framed_block(path, content);
    assert(blk.subrange(h.len() as int, (h.len() + content.len()) as int) =~= content);
    assert(blk.subrange((h.len() + content.len()) as int, blk.len() as int) =~= "\n\n\n"@);
    assert(newline_count("// ─── "@) == 0) by {
        reveal_with_fuel(newline_count, 10);
    }
    assert(newline_count(" ───────────────────────────────────────────\n"@) == 1) by {
        reveal_with_fuel(newline_count, 48);
    }
    lemma_newline_count_concat("// ─── "@, path);
    lemma_newline_count_concat("// ─── "@ + path, " ───────────────────────────────────────────\n"@);
}

/// The failures a batch of outcomes records for unreadable files, in order.
pub open spec fn read_failure_entries(outs: Seq<FileOutcome>) -> Seq<(Seq<char>, Seq<char>)>
    decreases outs.len(),
{
    if outs.len() == 0 {
        Seq::<(Seq<char>, Seq<char>)>::empty()
    } else {
        read_failure_entries(outs.drop_last()) + (if outs.last().kind is ReadFailure {
            seq![(outs.last().path@, "Read failure"@)]
        } else {
            Seq::<(Seq<char>, Seq<char>)>::empty()
        })
    }
}

/// The failures a batch of outcomes records for unwritable blocks, in order.
pub open spec fn write_failure_entries(outs: Seq<FileOutcome>) -> Seq<(Seq<char>, Seq<char>)>
    decreases outs.len(),
{
    if outs.len() == 0 {
        Seq::<(Seq<char>, Seq<char>)>::empty()
    } else {
        write_failure_entries(outs.drop_last()) + (if outs.last().kind is WriteFailure {
            seq![(outs.last().path@, "Write failure"@)]
        } else {
            Seq::<(Seq<char>, Seq<char>)>::empty()
        })
    }
}

/// The successes a batch of outcomes records, in order, with their sizes.
pub open spec fn success_entries(outs: Seq<FileOutcome>) -> Seq<(Seq<char>, u64)>
    decreases outs.len(),
{
    if outs.len() == 0 {
        Seq::<(Seq<char>, u64)>::empty()
    } else {
        success_entries(outs.drop_last()) + (match outs.last().kind {
            OutcomeKind::Success { size } => seq![(outs.last().path@, size)],
            _ => Seq::<(Seq<char>, u64)>::empty(),
        })
    }
}

pub open spec fn apply_read_failures(acc: SquishResultView, outs: Seq<FileOutcome>) -> SquishResultView
    decreases outs.len(),
{
    if outs.len() == 0 {
        acc
    } else {
        let prev = apply_read_failures(acc, outs.drop_last());
        if outs.last().kind is ReadFailure {
            SquishResultView {
                failed: record_error(prev.failed, outs.last().path@, "Read failure"@),
                ..prev
            }
        } else {
            prev
        }
    }
}

pub open spec fn apply_write_failures(acc: SquishResultView, outs: Seq<FileOutcome>) -> SquishResultView
    decreases outs.len(),
{
    if outs.len() == 0 {
        acc
    } else {
        let prev = apply_write_failures(acc, outs.drop_last());
        if outs.last().kind is WriteFailure {
            SquishResultView {
                failed: record_error(prev.failed, outs.last().path@, "Write failure"@),
                ..prev
            }
        } else {
            prev
        }
    }
}

pub open spec fn apply_successes(acc: SquishResultView, outs: Seq<FileOutcome>) -> SquishResultView
    decreases outs.len(),
{
    if outs.len() == 0 {
        acc
    } else {
        let prev = apply_successes(acc, outs.drop_last());
        match outs.last().kind {
            OutcomeKind::Success { size } => SquishResultView {
                squished: record_size(prev.squished, outs.last().path@, size),
                ..prev
            },
            _ => prev,
        }
    }
}

/// What accounting a whole batch of outcomes does to the accumulator: all
/// read failures are recorded first, then all write failures, then all
/// successes, each in batch order.
pub open spec fn squish_model(acc: SquishResultView, outs: Seq<FileOutcome>) -> SquishResultView {
    apply_successes(apply_write_failures(apply_read_failures(acc, outs), outs), outs)
}

/// The paths of a batch of outcomes, in batch order.
pub open spec fn outcome_paths(outs: Seq<FileOutcome>) -> Seq<Seq<char>> {
    outs.map_values(|o: FileOutcome| o.path@)
}

proof fn lemma_read_entries_shape(outs: Seq<FileOutcome>)
    ensures
        forall|j: int|
            0 <= j < read_failure_entries(outs).len() ==> (#[trigger] read_failure_entries(
                outs,
            )[j]).1 == "Read failure"@ && outcome_paths(outs).contains(read_failure_entries(
                outs,
            )[j].0),
    decreases outs.len(),
{
    if outs.len() > 0 {
        let front = read_failure_entries(outs.drop_last());
        lemma_read_entries_shape(outs.drop_last());
        assert forall|j: int|
            0 <= j < read_failure_entries(outs).len() implies (#[trigger] read_failure_entries(
            outs,
        )[j]).1 == "Read failure"@ && outcome_paths(outs).contains(read_failure_entries(
            outs,
        )[j].0) by {
            if j < front.len() {
                assert(read_failure_entries(outs)[j] == front[j]);
                let p = front[j].0;
                let i = choose|i: int|
                    0 <= i < outcome_paths(outs.drop_last()).len() && outcome_paths(
                        outs.drop_last(),
                    )[i] == p;
                assert(outcome_paths(outs)[i] == p);
            } else {
                assert(outs.last().kind is ReadFailure);
                assert(read_failure_entries(outs)[j] == (outs.last().path@, "Read failure"@));
                assert(outcome_paths(outs)[outs.len() - 1] == outs.last().path@);
            }
        }
    }
}

proof fn lemma_write_entries_shape(outs: Seq<FileOutcome>)
    ensures
        forall|j: int|
            0 <= j < write_failure_entries(outs).len() ==> (#[trigger] write_failure_entries(
                outs,
            )[j]).1 == "Write failure"@ && outcome_paths(outs).contains(write_failure_entries(
                outs,
            )[j].0),
    decreases outs.len(),
{
    if outs.len() > 0 {
        let front = write_failure_entries(outs.drop_last());
        lemma_write_entries_shape(outs.drop_last());
        assert forall|j: int|
            0 <= j < write_failure_entries(outs).len() implies (#[trigger] write_failure_entries(
            outs,
        )[j]).1 == "Write failure"@ && outcome_paths(outs).contains(write_failure_entries(
            outs,
        )[j].0) by {
            if j < front.len() {
                assert(write_failure_entries(outs)[j] == front[j]);
                let p = front[j].0;
                let i = choose|i: int|
                    0 <= i < outcome_paths(outs.drop_last()).len() && outcome_paths(
                        outs.drop_last(),
                    )[i] == p;
                assert(outcome_paths(outs)[i] == p);
            } else {
                assert(outs.last().kind is WriteFailure);
                assert(write_failure_entries(outs)[j] == (outs.last().path@, "Write failure"@));
                assert(outcome_paths(outs)[outs.len() - 1] == outs.last().path@);
            }
        }
    }
}

proof fn lemma_success_entries_shape(outs: Seq<FileOutcome>)
    ensures
        forall|j: int|
            0 <= j < success_entries(outs).len() ==> outcome_paths(outs).contains(
                (#[trigger] success_entries(outs)[j]).0,
            ),
    decreases outs.len(),
{
    if outs.len() > 0 {
        let front = success_entries(outs.drop_last());
        lemma_success_entries_shape(outs.drop_last());
        assert forall|j: int|
            0 <= j < success_entries(outs).len() implies outcome_paths(outs).contains(
            (#[trigger] success_entries(outs)[j]).0,
        ) by {
            if j < front.len() {
                assert(success_entries(outs)[j] == front[j]);
                let p = front[j].0;
                let i = choose|i: int|
                    0 <= i < outcome_paths(outs.drop_last()).len() && outcome_paths(
                        outs.drop_last(),
                    )[i] == p;
                assert(outcome_paths(outs)[i] == p);
            } else {
                assert(outs.last().kind is Success);
                assert(outcome_paths(outs)[outs.len() - 1] == outs.last().path@);
            }
        }
    }
}

proof fn lemma_entry_counts(outs: Seq<FileOutcome>)
    ensures
        read_failure_entries(outs).len() + write_failure_entries(outs).len() + success_entries(
            outs,
        ).len() == outs.len(),
    decreases outs.len(),
{
    if outs.len() > 0 {
        lemma_entry_counts(outs.drop_last());
    }
}

proof fn lemma_apply_read_failures(acc: SquishResultView, outs: Seq<FileOutcome>)
    requires
        outcome_paths(outs).no_duplicates(),
        forall|i: int|
            0 <= i < outs.len() ==> !acc.failed.contains(((#[trigger] outs[i]).path@,
            "Read failure"@)),
    ensures
        apply_read_failures(acc, outs) == (SquishResultView {
            failed: acc.failed + read_failure_entries(outs),
            ..acc
        }),
    decreases outs.len(),
{
    if outs.len() == 0 {
        assert(acc.failed + read_failure_entries(outs) =~= acc.failed);
        assert(apply_read_failures(acc, outs) =~= (SquishResultView {
            failed: acc.failed + read_failure_entries(outs),
            ..acc
        }));
    } else {
        let o0 = outs.drop_last();
        let e = outs.last();
        assert(outcome_paths(o0) =~= outcome_paths(outs).drop_last());
        lemma_apply_read_failures(acc, o0);
        let prev = apply_read_failures(acc, o0);
        if e.kind is ReadFailure {
            let pair = (e.path@, "Read failure"@);
            assert(!prev.failed.contains(pair)) by {
                lemma_read_entries_shape(o0);
                if prev.failed.contains(pair) {
                    let j = choose|j: int| 0 <= j < prev.failed.len() && prev.failed[j] == pair;
                    if j < acc.failed.len() {
                        assert(acc.failed[j] == pair);
                        assert(acc.failed.contains(pair));
                        assert(outs[outs.len() - 1] == e);
                    } else {
                        let j2 = j - acc.failed.len();
                        assert(read_failure_entries(o0)[j2] == pair);
                        let i = choose|i: int|
                            0 <= i < outcome_paths(o0).len() && outcome_paths(o0)[i] == pair.0;
                        assert(outcome_paths(outs)[i] == e.path@);
                        assert(outcome_paths(outs)[outs.len() - 1] == e.path@);
                    }
                }
            }
            assert(apply_read_failures(acc, outs).failed =~= acc.failed + read_failure_entries(
                outs,
            ));
        } else {
            assert(read_failure_entries(outs) =~= read_failure_entries(o0));
        }
        assert(apply_read_failures(acc, outs) =~= (SquishResultView {
            failed: acc.failed + read_failure_entries(outs),
            ..acc
        }));
    }
}

proof fn lemma_apply_write_failures(acc: SquishResultView, outs: Seq<FileOutcome>)
    requires
        outcome_paths(outs).no_duplicates(),
        forall|i: int|
            0 <= i < outs.len() ==> !acc.failed.contains(((#[trigger] outs[i]).path@,
            "Write failure"@)),
    ensures
        apply_write_failures(acc, outs) == (SquishResultView {
            failed: acc.failed + write_failure_entries(outs),
            ..acc
        }),
    decreases outs.len(),
{
    if outs.len() == 0 {
        assert(acc.failed + write_failure_entries(outs) =~= acc.failed);
        assert(apply_write_failures(acc, outs) =~= (SquishResultView {
            failed: acc.failed + write_failure_entries(outs),
            ..acc
        }));
    } else {
        let o0 = outs.drop_last();
        let e = outs.last();
        assert(outcome_paths(o0) =~= outcome_paths(outs).drop_last());
        lemma_apply_write_failures(acc, o0);
        let prev = apply_write_failures(acc, o0);
        if e.kind is WriteFailure {
            let pair = (e.path@, "Write failure"@);
            assert(!prev.failed.contains(pair)) by {
                lemma_write_entries_shape(o0);
                if prev.failed.contains(pair) {
                    let j = choose|j: int| 0 <= j < prev.failed.len() && prev.failed[j] == pair;
                    if j < acc.failed.len() {
                        assert(acc.failed[j] == pair);
                        assert(acc.failed.contains(pair));
                        assert(outs[outs.len() - 1] == e);
                    } else {
                        let j2 = j - acc.failed.len();
                        assert(write_failure_entries(o0)[j2] == pair);
                        let i = choose|i: int|
                            0 <= i < outcome_paths(o0).len() && outcome_paths(o0)[i] == pair.0;
                        assert(outcome_paths(outs)[i] == e.path@);
                        assert(outcome_paths(outs)[outs.len() - 1] == e.path@);
                    }
                }
            }
            assert(apply_write_failures(acc, outs).failed =~= acc.failed + write_failure_entries(
                outs,
            ));
        } else {
            assert(write_failure_entries(outs) =~= write_failure_entries(o0));
        }
        assert(apply_write_failures(acc, outs) =~= (SquishResultView {
            failed: acc.failed + write_failure_entries(outs),
            ..acc
        }));
    }
}

proof fn lemma_apply_successes(acc: SquishResultView, outs: Seq<FileOutcome>)
    requires
        outcome_paths(outs).no_duplicates(),
        forall|i: int|
            0 <= i < outs.len() ==> !has_sized_path(acc.squished, (#[trigger] outs[i]).path@),
    ensures
        apply_successes(acc, outs) == (SquishResultView {
            squished: acc.squished + success_entries(outs),
            ..acc
        }),
    decreases outs.len(),
{
    if outs.len() == 0 {
        assert(acc.squished + success_entries(outs) =~= acc.squished);
        assert(apply_successes(acc, outs) =~= (SquishResultView {
            squished: acc.squished + success_entries(outs),
            ..acc
        }));
    } else {
        let o0 = outs.drop_last();
        let e = outs.last();
        assert(outcome_paths(o0) =~= outcome_paths(outs).drop_last());
        lemma_apply_successes(acc, o0);
        let prev = apply_successes(acc, o0);
        if e.kind is Success {
            assert(!has_sized_path(prev.squished, e.path@)) by {
                lemma_success_entries_shape(o0);
                if has_sized_path(prev.squished, e.path@) {
                    let j = choose|j: int|
                        0 <= j < prev.squished.len() && prev.squished[j].0 == e.path@;
                    if j < acc.squished.len() {
                        assert(acc.squished[j].0 == e.path@);
                        assert(has_sized_path(acc.squished, e.path@));
                        assert(outs[outs.len() - 1] == e);
                    } else {
                        let j2 = j - acc.squished.len();
                        assert(success_entries(o0)[j2].0 == e.path@);
                        let i = choose|i: int|
                            0 <= i < outcome_paths(o0).len() && outcome_paths(o0)[i] == e.path@;
                        assert(outcome_paths(outs)[i] == e.path@);
                        assert(outcome_paths(outs)[outs.len() - 1] == e.path@);
                    }
                }
            }
            assert(apply_successes(acc, outs).squished =~= acc.squished + success_entries(outs));
        } else {
            assert(success_entries(outs) =~= success_entries(o0));
        }
        assert(apply_successes(acc, outs) =~= (SquishResultView {
            squished: acc.squished + success_entries(outs),
            ..acc
        }));
    }
}

/// Law: over a batch with one outcome per selected file and pairwise distinct
/// paths, starting from an accumulator that has not yet recorded any of those
/// paths as successes or as read or write failures, accounting the batch
/// appends exactly the batch's successes and failures, in order, and touches
/// nothing else; in particular every file of the batch ends up accounted:
/// successes plus new failures equal the number of outcomes.
pub proof fn lemma_squish_accounting(acc: SquishResultView, outs: Seq<FileOutcome>)
    requires
        outcome_paths(outs).no_duplicates(),
        forall|i: int|
            0 <= i < outs.len() ==> !has_sized_path(acc.squished, (#[trigger] outs[i]).path@),
        forall|i: int|
            0 <= i < outs.len() ==> !acc.failed.contains(((#[trigger] outs[i]).path@,
            "Read failure"@)),
        forall|i: int|
            0 <= i < outs.len() ==> !acc.failed.contains(((#[trigger] outs[i]).path@,
            "Write failure"@)),
    ensures
        squish_model(acc, outs) == (SquishResultView {
            squished: acc.squished + success_entries(outs),
            failed: acc.failed + read_failure_entries(outs) + write_failure_entries(outs),
            ..acc
        }),
        squish_model(acc, outs).squished.len() + squish_model(acc, outs).failed.len()
            == acc.squished.len() + acc.failed.len() + outs.len(),
{
    lemma_apply_read_failures(acc, outs);
    let acc1 = apply_read_failures(acc, outs);
    assert(forall|i: int|
        0 <= i < outs.len() ==> !acc1.failed.contains(((#[trigger] outs[i]).path@,
        "Write failure"@))) by {
        lemma_read_entries_shape(outs);
        assert forall|i: int|
            0 <= i < outs.len() implies !acc1.failed.contains(((#[trigger] outs[i]).path@,
        "Write failure"@)) by {
            let pair = (outs[i].path@, "Write failure"@);
            if acc1.failed.contains(pair) {
                let j = choose|j: int| 0 <= j < acc1.failed.len() && acc1.failed[j] == pair;
                if j < acc.failed.len() {
                    assert(acc.failed[j] == pair);
                    assert(acc.failed.contains(pair));
                } else {
                    let j2 = j - acc.failed.len();
                    assert(read_failure_entries(outs)[j2] == pair);
                    assert(read_failure_entries(outs)[j2].1 == "Read failure"@);
                    assert("Read failure"@ == "Write failure"@);
                    reveal_strlit("Read failure");
                    reveal_strlit("Write failure");
                    assert("Read failure"@.len() != "Write failure"@.len());
                }
            }
        }
    }
    lemma_apply_write_failures(acc1, outs);
    let acc2 = apply_write_failures(acc1, outs);
    assert(acc2.squished == acc.squished);
    lemma_apply_successes(acc2, outs);
    assert(squish_model(acc, outs) =~= (SquishResultView {
        squished: acc.squished + success_entries(outs),
        failed: acc.failed + read_failure_entries(outs) + write_failure_entries(outs),
        ..acc
    }));
    lemma_entry_counts(outs);
}

/// Account a batch of per-file outcomes: failures first, then successes, as
/// the accumulator's recording operations define them. A failure of one file
/// never prevents the accounting of another.
pub fn squish(result: &mut SquishResult, outcomes: &Vec<FileOutcome>)
    ensures
        final (result)@ == squish_model(old(result)@, outcomes@),
{
    let n = outcomes.len();
    let mut i: usize = 0;
    while i < n
        invariant
            n == outcomes.len(),
            0 <= i <= n,
            result@ == apply_read_failures(old(result)@, outcomes@.subrange(0, i as int)),
        decreases n - i,
    {
        match outcomes[i].kind {
            OutcomeKind::ReadFailure => result.failure(outcomes[i].path.as_str(), "Read failure"),
            _ => {},
        }
        proof {
            assert(outcomes@.subrange(0, i + 1 as int).drop_last() =~= outcomes@.subrange(
                0,
                i as int,
            ));
            assert(outcomes@.subrange(0, i + 1 as int).last() == outcomes@[i as int]);
        }
        i = i + 1;
    }
    proof {
        assert(outcomes@.subrange(0, n as int) =~= outcomes@);
    }
    let ghost after_reads = result@;
    let mut i: usize = 0;
    while i < n
        invariant
            n == outcomes.len(),
            0 <= i <= n,
            result@ == apply_write_failures(after_reads, outcomes@.subrange(0, i as int)),
        decreases n - i,
    {
        match outcomes[i].kind {
            OutcomeKind::WriteFailure => result.failure(outcomes[i].path.as_str(), "Write failure"),
            _ => {},
        }
        proof {
            assert(outcomes@.subrange(0, i + 1 as int).drop_last() =~= outcomes@.subrange(
                0,
                i as int,
            ));
            assert(outcomes@.subrange(0, i + 1 as int).last() == outcomes@[i as int]);
        }
        i = i + 1;
    }
    proof {
        assert(outcomes@.subrange(0, n as int) =~= outcomes@);
    }
    let ghost after_writes = result@;
    let mut i: usize = 0;
    while i < n
        invariant
            n == outcomes.len(),
            0 <= i <= n,
            result@ == apply_successes(after_writes, outcomes@.subrange(0, i as int)),
        decreases n - i,
    {
        match outcomes[i].kind {
            OutcomeKind::Success { size } => result.success(outcomes[i].path.as_str(), size),
            _ => {},
        }
        proof {
            assert(outcomes@.subrange(0, i + 1 as int).drop_last() =~= outcomes@.subrange(
                0,
                i as int,
            ));
            assert(outcomes@.subrange(0, i + 1 as int).last() == outcomes@[i as int]);
        }
        i = i + 1;
    }
    proof {
        assert(outcomes@.subrange(0, n as int) =~= outcomes@);
    }
}

} // verus!
