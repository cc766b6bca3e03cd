//! What becomes of the files that are recovered: their names, their bytes, and what
//! is said of them.

use vstd::prelude::*;

use crate::carver::PlanView;
use crate::copying::{copy_may, piece_may, read_failed, Sink};
use crate::disk::ReadAt;
use crate::error::{CarveErrorView, IoError, IoErrorKind};
use crate::output::{file_name, save_verdict, LogEntryView};
use crate::report::{
    are_entries_of, bytes_counted, bytes_in, dry_run_name, entry_of, entry_views, failure_note,
    files_counted, is_entry_of, of_type, truncated_in, types_in, RunReport, TypeTally,
};
use crate::sizes::least;
use crate::text::{all_digits, before_is_irreflexive, decimal, digits_value, four_digits};
use crate::text_laws::four_digits_stand_for_their_number;

verus! {

// ---------------------------------------------------------------------------
// Names
// ---------------------------------------------------------------------------

/// A file is named by its number, in at least four digits, and its extension.
pub proof fn names_tell_number_and_extension(n: nat, extension: Seq<char>) -> (digits: Seq<char>)
    ensures
        file_name(n, extension) == "recovered_"@ + digits + "."@ + extension,
        all_digits(digits),
        digits_value(digits) == n,
        digits.len() == 4 || digits.len() > 4 && n >= 10000,
{
    four_digits_stand_for_their_number(n);
    if n >= 10000 {
        digits_of_large_numbers(n);
    }
    four_digits(n)
}

/// Large numbers have five digits or more.
proof fn digits_of_large_numbers(n: nat)
    requires
        n >= 10000,
    ensures
        decimal(n).len() > 4,
{
    reveal_with_fuel(decimal, 6);
}

// ---------------------------------------------------------------------------
// Saving
// ---------------------------------------------------------------------------

/// A file is saved, and stays, just if bytes were copied and the file holds bytes.
/// A file that is known to be empty never stays. After any other failure a file
/// with bytes goes just if the disk is full, and the failure is told.
pub proof fn only_whole_copies_are_saved(
    path: Seq<char>,
    copied: Result<u64, IoError>,
    len: Option<u64>,
    no_space: i32,
)
    ensures
        ({
            let (remove, failure) = save_verdict(path, copied, len, no_space);
            let saved = copied matches Ok(n) && n > 0 && (len matches Some(m) && m > 0);
            let full = copied matches Err(e) && e.os_code == Some(no_space);
            &&& failure is None <==> saved
            &&& saved ==> !remove
            &&& len == Some(0u64) ==> remove
            &&& copied is Ok && !saved ==> remove
            &&& copied is Err && len != Some(0u64) ==> (remove <==> full)
            &&& failure == Some(CarveErrorView::DiskFull(path)) <==> full
            &&& copied matches Err(e) ==> !full ==> failure == Some(
                CarveErrorView::Io { path, source: e@ },
            )
            &&& copied is Ok && !saved ==> (failure matches Some(CarveErrorView::Io {
                path: p,
                source,
            }) && p == path && source.kind == IoErrorKind::Other && source.os_code is None
                && source.message == "carved file is zero-length"@)
        }),
{
}

/// A copy holds the bytes of the range from its start on: all of them unless it
/// failed, and else those before the piece of up to 1048576 bytes whose read
/// failed.
pub proof fn failed_copies_hold_a_beginning<R: ReadAt + ?Sized>(
    reader: &R,
    image: Seq<u8>,
    before: Vec<u8>,
    offset: int,
    len: int,
    after: Vec<u8>,
    failed: Option<IoError>,
) -> (m: int)
    requires
        forall|at: u64, n: nat, b: Seq<u8>| #[trigger]
            reader.may_read(at, n, Ok(b)) ==> at + n <= image.len() && b == image.subrange(
                at as int,
                at + n,
            ),
        0 <= offset <= image.len(),
        0 <= len,
        offset + len <= u64::MAX,
        copy_may(reader, before, offset, len, after, failed),
    ensures
        0 <= m <= len,
        offset + m <= image.len(),
        after@ == before@ + image.subrange(offset, offset + m),
        failed is None <==> m == len,
        failed matches Some(e) ==> m % 1048576 == 0 && reader.may_read(
            (offset + m) as u64,
            (if len - m < 1048576 {
                len - m
            } else {
                1048576
            }) as nat,
            Err(e@),
        ),
    decreases len,
{
    if len <= 0 {
        assert(after@ =~= before@ + image.subrange(offset, offset));
        0
    } else {
        let n = least(len, 1048576);
        if read_failed(reader, before, offset, n, after, failed) {
            assert(after@ =~= before@ + image.subrange(offset, offset));
            0
        } else {
            let (piece, next) = choose|piece: Seq<u8>, next: Vec<u8>| #[trigger]
                piece_may(reader, offset, n, piece) && #[trigger] next.has_taken(before, piece)
                    && copy_may(reader, next, offset + n, len - n, after, failed);
            let m = failed_copies_hold_a_beginning(
                reader,
                image,
                next,
                offset + n,
                len - n,
                after,
                failed,
            );
            assert(piece == image.subrange(offset, offset + n));
            assert(after@ =~= before@ + image.subrange(offset, offset + n + m));
            m + n
        }
    }
}

/// How a copy went: the pieces that were read, and the sink before the first and
/// after each.
pub struct Copied<W> {
    pub pieces: Seq<Seq<u8>>,
    pub sinks: Seq<W>,
}

/// A copy that does not fail has handed every piece of the range to the sink, in
/// order, and the sink has taken each of them.
pub proof fn copies_are_taken_whole<R: ReadAt + ?Sized, W: Sink>(
    reader: &R,
    before: W,
    offset: int,
    len: int,
    after: W,
) -> (c: Copied<W>)
    requires
        0 <= len,
        copy_may(reader, before, offset, len, after, None),
    ensures
        c.sinks.len() == c.pieces.len() + 1,
        c.sinks[0] == before,
        c.sinks.last() == after,
        forall|k: int|
            #![trigger c.pieces[k]]
            0 <= k < c.pieces.len() ==> c.sinks[k + 1].has_taken(c.sinks[k], c.pieces[k])
                && reader.may_read(
                (offset + 1048576 * k) as u64,
                c.pieces[k].len(),
                Ok(c.pieces[k]),
            ),
        forall|k: int|
            0 <= k < c.pieces.len() - 1 ==> (#[trigger] c.pieces[k]).len() == 1048576,
        len > 0 ==> c.pieces.len() > 0 && 1048576 * (c.pieces.len() - 1) + c.pieces.last().len()
            == len,
        len == 0 ==> c.pieces.len() == 0,
    decreases len,
{
    if len <= 0 {
        Copied { pieces: Seq::empty(), sinks: seq![before] }
    } else {
        let n = least(len, 1048576);
        let (piece, next) = choose|piece: Seq<u8>, next: W| #[trigger]
            piece_may(reader, offset, n, piece) && #[trigger] next.has_taken(before, piece)
                && copy_may(reader, next, offset + n, len - n, after, None);
        let rest = copies_are_taken_whole(reader, next, offset + n, len - n, after);
        let pieces = seq![piece] + rest.pieces;
        let sinks = seq![before] + rest.sinks;
        assert forall|k: int| #![trigger pieces[k]] 0 <= k < pieces.len() implies sinks[k
            + 1].has_taken(sinks[k], pieces[k]) && reader.may_read(
            (offset + 1048576 * k) as u64,
            pieces[k].len(),
            Ok(pieces[k]),
        ) by {
            if k > 0 {
                assert(pieces[k] == rest.pieces[k - 1]);
                assert(sinks[k] == rest.sinks[k - 1] && sinks[k + 1] == rest.sinks[k]);
            } else {
                assert(sinks[1] == rest.sinks[0]);
            }
        }
        assert forall|k: int| 0 <= k < pieces.len() - 1 implies (#[trigger] pieces[k]).len()
            == 1048576 by {
            if k > 0 {
                assert(pieces[k] == rest.pieces[k - 1]);
            }
        }
        if rest.pieces.len() > 0 {
            assert(pieces.last() == rest.pieces.last());
        } else {
            assert(pieces.last() == piece);
        }
        assert(sinks.last() == rest.sinks.last());
        Copied { pieces, sinks }
    }
}

/// A copy to a sink that takes nothing fails.
pub proof fn refused_copies_fail<R: ReadAt + ?Sized, W: Sink>(
    reader: &R,
    before: W,
    offset: int,
    len: int,
    after: W,
    failed: Option<IoError>,
)
    requires
        0 < len,
        copy_may(reader, before, offset, len, after, failed),
        forall|next: W, piece: Seq<u8>| !#[trigger] next.has_taken(before, piece),
    ensures
        failed is Some,
{
    if failed is None {
        let c = copies_are_taken_whole(reader, before, offset, len, after);
        assert(c.pieces[0].len() == c.pieces[0].len());
        assert(c.sinks[1].has_taken(c.sinks[0], c.pieces[0]));
    }
}

// ---------------------------------------------------------------------------
// Counting
// ---------------------------------------------------------------------------

/// Bytes add up, plan by plan.
pub proof fn bytes_add_up(a: Seq<PlanView>, b: Seq<PlanView>, p: PlanView)
    ensures
        bytes_in(Seq::<PlanView>::empty()) == 0,
        bytes_in(seq![p]) == p.size,
        bytes_in(a + b) == bytes_in(a) + bytes_in(b),
    decreases b.len(),
{
    let one = seq![p];
    assert(one.drop_last() =~= Seq::<PlanView>::empty());
    assert(bytes_in(one.drop_last()) == 0);
    let all = a + b;
    if b.len() > 0 {
        assert(all.drop_last() =~= a + b.drop_last());
        assert(all.last() == b.last());
        bytes_add_up(a, b.drop_last(), p);
    } else {
        assert(all =~= a);
    }
}

/// The plans of a type are those with that type, in order; the truncated ones are
/// counted.
pub proof fn groups_are_of_their_type(plans: Seq<PlanView>, t: Seq<char>)
    ensures
        of_type(plans, t) == plans.filter(|p: PlanView| p.file_type == t),
        truncated_in(plans) == plans.filter(|p: PlanView| p.truncated).len(),
    decreases plans.len(),
{
    let same = |p: PlanView| p.file_type == t;
    let cut = |p: PlanView| p.truncated;
    if plans.len() > 0 {
        let rest = plans.drop_last();
        groups_are_of_their_type(rest, t);
        assert(rest.push(plans.last()) =~= plans);
        rest.lemma_filter_push(plans.last(), same);
        rest.lemma_filter_push(plans.last(), cut);
    } else {
        assert(plans.filter(same) =~= of_type(plans, t)) by {
            reveal(Seq::filter);
        }
        assert(plans.filter(cut).len() == 0) by {
            reveal(Seq::filter);
        }
    }
}

/// A report counts what its plans hold: the files, their bytes, those that are cut
/// off; and for each type that occurs, once, its files and their bytes.
pub proof fn reports_count_their_plans(report: RunReport, plans: Seq<PlanView>, k: int, j: int)
    requires
        report.wf(),
        report.tallies(plans),
        0 <= k < report.counts@.len(),
        0 <= j < report.counts@.len(),
    ensures
        report.total_files == plans.len(),
        report.total_bytes == bytes_in(plans),
        report.truncated_count == plans.filter(|p: PlanView| p.truncated).len(),
        ({
            let t = report.counts@[k].file_type@;
            let group = plans.filter(|p: PlanView| p.file_type == t);
            &&& group.len() > 0
            &&& report.counts@[k].count.files == group.len()
            &&& report.counts@[k].count.bytes == bytes_in(group)
        }),
        report.counts@[k].file_type@ == report.counts@[j].file_type@ ==> k == j,
{
    let t = report.counts@[k].file_type@;
    groups_are_of_their_type(plans, t);
    let names = types_in(report.counts@);
    assert(names[k] == t && names[j] == report.counts@[j].file_type@);
    before_is_irreflexive(t);
}

/// Every type that is planned is counted.
pub proof fn reports_leave_out_no_type(report: RunReport, plans: Seq<PlanView>, i: int) -> (k: int)
    requires
        report.tallies(plans),
        0 <= i < plans.len(),
    ensures
        0 <= k < report.counts@.len(),
        report.counts@[k].file_type@ == plans[i].file_type,
{
    let names = types_in(report.counts@);
    assert(names.contains(plans[i].file_type));
    let k = names.index_of(plans[i].file_type);
    assert(names[k] == plans[i].file_type);
    k
}

/// The counts of the types add up, type by type.
pub proof fn counts_add_up(counts: Seq<TypeTally>, c: TypeTally)
    ensures
        files_counted(Seq::<TypeTally>::empty()) == 0,
        bytes_counted(Seq::<TypeTally>::empty()) == 0,
        files_counted(counts.push(c)) == files_counted(counts) + c.count.files,
        bytes_counted(counts.push(c)) == bytes_counted(counts) + c.count.bytes,
{
    assert(counts.push(c).drop_last() =~= counts);
}

/// The log has one entry for each plan, in order, which says where the file was
/// found, how large it is, of what type, and whether it was cut off.
pub proof fn logs_say_what_was_planned(report: RunReport, plans: Seq<PlanView>, k: int)
    requires
        report.logs(plans),
    ensures
        report.entries@.len() == plans.len(),
        0 <= k < plans.len() ==> {
            let e = report.entries@[k];
            &&& e.offset == plans[k].offset
            &&& e.size == plans[k].size
            &&& e.file_type@ == plans[k].file_type
            &&& e.truncated == plans[k].truncated
        },
{
    let entries = entry_views(report.entries@);
    if 0 <= k < plans.len() {
        assert(is_entry_of(entries[k], plans[k]));
        assert(entries[k] == report.entries@[k]@);
    }
}

/// An entry says what its plan says, under the name and with the time given.
pub proof fn entries_say_what_plans_say(plan: PlanView, file: Seq<char>, time: int)
    ensures
        entry_of(plan, file, time).file == file,
        entry_of(plan, file, time).timestamp_unix == time,
        entry_of(plan, file, time).offset == plan.offset,
        entry_of(plan, file, time).size == plan.size,
        entry_of(plan, file, time).file_type == plan.file_type,
        entry_of(plan, file, time).truncated == plan.truncated,
        is_entry_of(entry_of(plan, file, time), plan),
{
}

/// Entries that are those of two lists of plans are of plans that say the same,
/// but for extensions.
pub proof fn entries_are_of_one_list(
    entries: Seq<LogEntryView>,
    a: Seq<PlanView>,
    b: Seq<PlanView>,
    k: int,
)
    requires
        are_entries_of(entries, a),
        are_entries_of(entries, b),
        0 <= k < entries.len(),
    ensures
        a.len() == b.len(),
        a[k].offset == b[k].offset,
        a[k].size == b[k].size,
        a[k].file_type == b[k].file_type,
        a[k].truncated == b[k].truncated,
{
    assert(is_entry_of(entries[k], a[k]));
    assert(is_entry_of(entries[k], b[k]));
}

/// What a dry run says in place of a name ends with the extension and, before it,
/// a dot.
pub proof fn dry_runs_name_the_extension(extension: Seq<char>) -> (words: Seq<char>)
    ensures
        dry_run_name(extension) == words + seq!['.'] + extension,
{
    reveal_strlit("(not written — dry run) would-be .");
    let start = "(not written — dry run) would-be ."@;
    assert(start.drop_last() + seq!['.'] =~= start);
    start.drop_last()
}

/// What is noted of a file that could not be saved tells where it stands in the
/// source, of what type it is, and what went wrong; of a full disk, where it is.
pub proof fn failures_are_told(plan: PlanView, e: CarveErrorView)
    ensures
        e matches CarveErrorView::DiskFull(path) ==> failure_note(plan, e)
            == "output disk full at "@ + path + " — recovery stopped early"@,
        !(e is DiskFull) ==> failure_note(plan, e) == "offset "@ + decimal(plan.offset as nat)
            + " ("@ + plan.file_type + "): "@ + e.in_words(),
{
}

} // verus!
