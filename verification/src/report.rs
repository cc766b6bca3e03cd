//! What a run has recovered: totals, counts by type, log entries and errors.

use vstd::prelude::*;

use crate::carver::{CarvePlan, PlanView};
use crate::error::{CarveError, CarveErrorView};
use crate::output::{LogEntry, LogEntryView, TypeCount};
use crate::text::{
    ascending, before, before_is_irreflexive, comes_before, decimal, inserted_in_order,
    push_decimal, same_text, texts,
};

verus! {

/// The count of one type.
#[derive(Debug)]
pub struct TypeTally {
    pub file_type: String,
    pub count: TypeCount,
}

/// What the plans of a list say.
pub open spec fn plan_views(plans: Seq<CarvePlan>) -> Seq<PlanView> {
    plans.map_values(|p: CarvePlan| p@)
}

/// How large planned files are together.
pub open spec fn bytes_in(plans: Seq<PlanView>) -> int
    decreases plans.len(),
{
    if plans.len() == 0 {
        0
    } else {
        bytes_in(plans.drop_last()) + plans.last().size
    }
}

/// How many of the planned files are truncated.
pub open spec fn truncated_in(plans: Seq<PlanView>) -> int
    decreases plans.len(),
{
    if plans.len() == 0 {
        0
    } else {
        truncated_in(plans.drop_last()) + (if plans.last().truncated {
            1int
        } else {
            0int
        })
    }
}

/// The planned files of one type.
pub open spec fn of_type(plans: Seq<PlanView>, file_type: Seq<char>) -> Seq<PlanView>
    decreases plans.len(),
{
    if plans.len() == 0 {
        Seq::empty()
    } else {
        let before = of_type(plans.drop_last(), file_type);
        if plans.last().file_type == file_type {
            before.push(plans.last())
        } else {
            before
        }
    }
}

/// The types of a list of counts.
pub open spec fn types_in(counts: Seq<TypeTally>) -> Seq<Seq<char>> {
    counts.map_values(|t: TypeTally| t.file_type@)
}

/// The number of files of all counts.
pub open spec fn files_counted(counts: Seq<TypeTally>) -> int
    decreases counts.len(),
{
    if counts.len() == 0 {
        0
    } else {
        files_counted(counts.drop_last()) + counts.last().count.files
    }
}

/// The number of bytes of all counts.
pub open spec fn bytes_counted(counts: Seq<TypeTally>) -> int
    decreases counts.len(),
{
    if counts.len() == 0 {
        0
    } else {
        bytes_counted(counts.drop_last()) + counts.last().count.bytes
    }
}

/// What a run has recovered so far.
#[derive(Debug)]
pub struct RunReport {
    pub entries: Vec<LogEntry>,
    /// The counts by type, in the order of the type names.
    pub counts: Vec<TypeTally>,
    pub errors: Vec<String>,
    pub total_files: u64,
    pub total_bytes: u64,
    pub truncated_count: u64,
}

impl RunReport {
    /// The counts are in order, without repetitions, and add up to the totals.
    /// No file is logged that is not counted.
    pub open spec fn wf(&self) -> bool {
        &&& ascending(types_in(self.counts@))
        &&& files_counted(self.counts@) == self.total_files
        &&& bytes_counted(self.counts@) == self.total_bytes
        &&& self.truncated_count <= self.total_files
        &&& self.entries@.len() <= self.total_files
    }

    /// Whether the totals and counts are those of `plans`.
    pub open spec fn tallies(&self, plans: Seq<PlanView>) -> bool {
        &&& self.total_files == plans.len()
        &&& self.total_bytes == bytes_in(plans)
        &&& self.truncated_count == truncated_in(plans)
        &&& forall|k: int|
            0 <= k < self.counts@.len() ==> {
                let group = of_type(plans, (#[trigger] self.counts@[k]).file_type@);
                &&& group.len() > 0
                &&& self.counts@[k].count.files == group.len()
                &&& self.counts@[k].count.bytes == bytes_in(group)
            }
        &&& forall|i: int|
            0 <= i < plans.len() ==> types_in(self.counts@).contains(
                (#[trigger] plans[i]).file_type,
            )
    }

    /// Whether the log entries are those of `plans`, one for each and in order.
    pub open spec fn logs(&self, plans: Seq<PlanView>) -> bool {
        are_entries_of(entry_views(self.entries@), plans)
    }

    /// Nothing is recovered yet; the scan has met `errors`.
    pub fn new(errors: Vec<String>) -> (report: RunReport)
        ensures
            report.wf(),
            report.tallies(Seq::<PlanView>::empty()),
            report.logs(Seq::<PlanView>::empty()),
            report.entries@.len() == 0,
            report.errors@ == errors@,
    {
        RunReport {
            entries: Vec::new(),
            counts: Vec::new(),
            errors,
            total_files: 0,
            total_bytes: 0,
            truncated_count: 0,
        }
    }

    /// Counts the file of `plan`.
    pub fn count(&mut self, plan: &CarvePlan)
        requires
            old(self).wf(),
            old(self).total_files < u64::MAX,
            old(self).total_bytes + plan.size <= u64::MAX,
        ensures
            final(self).wf(),
            forall|plans: Seq<PlanView>| #[trigger]
                old(self).tallies(plans) ==> final(self).tallies(plans.push(plan@)),
            final(self).total_files == old(self).total_files + 1,
            final(self).total_bytes == old(self).total_bytes + plan.size,
            forall|plans: Seq<PlanView>| #[trigger]
                old(self).logs(plans) ==> final(self).logs(plans),
            final(self).entries@ == old(self).entries@,
            final(self).errors@ == old(self).errors@,
    {
        let ghost was: Seq<TypeTally> = self.counts@;
        let ghost names: Seq<Seq<char>> = types_in(was);
        let ghost t: Seq<char> = plan.file_type@;
        let mut k: usize = 0;
        while k < self.counts.len() && comes_before(
            self.counts[k].file_type.as_str(),
            plan.file_type.as_str(),
        )
            invariant
                k <= self.counts@.len(),
                self.counts@ == was,
                names == types_in(was),
                t == plan.file_type@,
                forall|j: int| 0 <= j < k ==> before(#[trigger] names[j], t),
                *self == *old(self),
            decreases self.counts@.len() - k,
        {
            assert(names[k as int] == was[k as int].file_type@);
            k = k + 1;
        }
        if k < self.counts.len() && same_text(
            self.counts[k].file_type.as_str(),
            plan.file_type.as_str(),
        ) {
            let old_count: TypeCount = self.counts[k].count;
            proof {
                one_is_at_most_all(was, k as int);
            }
            self.counts[k].count = TypeCount {
                files: old_count.files + 1,
                bytes: old_count.bytes + plan.size,
            };
            proof {
                let tally = self.counts@[k as int];
                assert(self.counts@ =~= was.update(k as int, tally));
                sums_after_update(was, k as int, tally);
                assert(types_in(self.counts@) =~= names);
            }
        } else {
            let tally: TypeTally = TypeTally {
                file_type: plan.file_type.clone(),
                count: TypeCount { files: 1, bytes: plan.size },
            };
            proof {
                if k < was.len() {
                    assert(names[k as int] == was[k as int].file_type@);
                }
                inserted_in_order(names, k as int, t);
                sums_after_insert(was, k as int, tally);
                assert(types_in(was.insert(k as int, tally)) =~= names.insert(k as int, t));
            }
            self.counts.insert(k, tally);
        }
        self.total_files = self.total_files + 1;
        self.total_bytes = self.total_bytes + plan.size;
        if plan.truncated {
            self.truncated_count = self.truncated_count + 1;
        }
        proof {
            assert forall|plans: Seq<PlanView>| #[trigger]
                old(self).tallies(plans) implies self.tallies(plans.push(plan@)) by {
                tallies_after_count(*old(self), *self, plans, plan@, k as int);
            }
        }
    }

    /// Notes that the file of `plan` was saved as `file` at the time `now`.
    pub fn note_saved(&mut self, plan: &CarvePlan, file: String, now: u64)
        requires
            old(self).wf(),
            old(self).total_files < u64::MAX,
            old(self).total_bytes + plan.size <= u64::MAX,
        ensures
            final(self).wf(),
            forall|plans: Seq<PlanView>| #[trigger]
                old(self).tallies(plans) ==> final(self).tallies(plans.push(plan@)),
            forall|plans: Seq<PlanView>| #[trigger]
                old(self).logs(plans) ==> final(self).logs(plans.push(plan@)),
            final(self).total_files == old(self).total_files + 1,
            final(self).total_bytes == old(self).total_bytes + plan.size,
            entry_views(final(self).entries@) == entry_views(old(self).entries@).push(
                entry_of(plan@, file@, now as int),
            ),
            final(self).errors@ == old(self).errors@,
    {
        self.count(plan);
        let ghost after: RunReport = *self;
        let ghost said: Seq<char> = file@;
        let ghost before: Seq<LogEntryView> = entry_views(self.entries@);
        let entry: LogEntry = LogEntry {
            file,
            offset: plan.offset,
            size: plan.size,
            file_type: plan.file_type.clone(),
            truncated: plan.truncated,
            timestamp_unix: now,
        };
        self.entries.push(entry);
        proof {
            assert(entry_views(self.entries@) =~= before.push(entry_of(plan@, said, now as int)));
            assert forall|plans: Seq<PlanView>| #[trigger]
                old(self).tallies(plans) implies self.tallies(plans.push(plan@)) by {
                assert(after.tallies(plans.push(plan@)));
            }
            assert forall|plans: Seq<PlanView>| #[trigger]
                old(self).logs(plans) implies self.logs(plans.push(plan@)) by {
                let more = plans.push(plan@);
                let now = entry_views(self.entries@);
                assert forall|k: int| 0 <= k < now.len() implies is_entry_of(
                    #[trigger] now[k],
                    more[k],
                ) by {
                    if k < before.len() {
                        assert(now[k] == before[k] && more[k] == plans[k]);
                    }
                }
            }
        }
    }

    /// Notes that the file of `plan` could not be saved. Returns whether the
    /// run is to stop, which it is if the output disk is full.
    pub fn note_failure(&mut self, plan: &CarvePlan, e: CarveError) -> (stop: bool)
        ensures
            old(self).wf() ==> final(self).wf(),
            forall|plans: Seq<PlanView>| #[trigger]
                old(self).tallies(plans) ==> final(self).tallies(plans),
            forall|plans: Seq<PlanView>| #[trigger]
                old(self).logs(plans) ==> final(self).logs(plans),
            stop == (e@ is DiskFull),
            texts(final(self).errors@) == texts(old(self).errors@).push(failure_note(plan@, e@)),
            final(self).entries@ == old(self).entries@,
            final(self).counts@ == old(self).counts@,
            final(self).total_files == old(self).total_files,
            final(self).total_bytes == old(self).total_bytes,
            final(self).truncated_count == old(self).truncated_count,
    {
        let mut note: String = String::new();
        let stop: bool = match &e {
            CarveError::DiskFull(path) => {
                note.append("output disk full at ");
                note.append(path.as_str());
                note.append(" — recovery stopped early");
                true
            },
            _ => {
                let words: String = e.message();
                note.append("offset ");
                push_decimal(&mut note, plan.offset);
                note.append(" (");
                note.append(plan.file_type.as_str());
                note.append("): ");
                note.append(words.as_str());
                false
            },
        };
        assert(note@ =~= failure_note(plan@, e@));
        let ghost before: Seq<Seq<char>> = texts(self.errors@);
        self.errors.push(note);
        assert(texts(self.errors@) =~= before.push(note@));
        stop
    }
}

/// What is noted of a file that could not be saved.
pub open spec fn failure_note(plan: PlanView, e: CarveErrorView) -> Seq<char> {
    match e {
        CarveErrorView::DiskFull(path) => "output disk full at "@ + path
            + " — recovery stopped early"@,
        _ => "offset "@ + decimal(plan.offset as nat) + " ("@ + plan.file_type + "): "@
            + e.in_words(),
    }
}

/// The log entry of a file.
pub open spec fn entry_of(plan: PlanView, file: Seq<char>, time: int) -> LogEntryView {
    LogEntryView {
        file,
        offset: plan.offset,
        size: plan.size,
        file_type: plan.file_type,
        truncated: plan.truncated,
        timestamp_unix: time,
    }
}

/// Whether a log entry says what `plan` says: where the file was found, how
/// large it is, of what type, and whether it was cut off.
pub open spec fn is_entry_of(entry: LogEntryView, plan: PlanView) -> bool {
    entry == entry_of(plan, entry.file, entry.timestamp_unix)
}

/// Whether log entries are those of `plans`, one for each and in order.
pub open spec fn are_entries_of(entries: Seq<LogEntryView>, plans: Seq<PlanView>) -> bool {
    &&& entries.len() == plans.len()
    &&& forall|k: int| 0 <= k < entries.len() ==> is_entry_of(#[trigger] entries[k], plans[k])
}

/// What the entries of a list say.
pub open spec fn entry_views(entries: Seq<LogEntry>) -> Seq<LogEntryView> {
    entries.map_values(|e: LogEntry| e@)
}

/// How large logged files are together.
pub open spec fn bytes_logged(entries: Seq<LogEntryView>) -> int
    decreases entries.len(),
{
    if entries.len() == 0 {
        0
    } else {
        bytes_logged(entries.drop_last()) + entries.last().size
    }
}

/// How many of the logged files are truncated.
pub open spec fn truncated_logged(entries: Seq<LogEntryView>) -> int
    decreases entries.len(),
{
    if entries.len() == 0 {
        0
    } else {
        truncated_logged(entries.drop_last()) + (if entries.last().truncated {
            1int
        } else {
            0int
        })
    }
}

/// Entries add up to what the plans add up to that they are of.
proof fn entries_add_up(entries: Seq<LogEntryView>, plans: Seq<PlanView>)
    requires
        are_entries_of(entries, plans),
    ensures
        bytes_logged(entries) == bytes_in(plans),
        truncated_logged(entries) == truncated_in(plans),
    decreases entries.len(),
{
    if entries.len() > 0 {
        let fewer = entries.drop_last();
        let rest = plans.drop_last();
        assert(is_entry_of(entries[entries.len() - 1], plans[plans.len() - 1]));
        assert forall|k: int| 0 <= k < fewer.len() implies is_entry_of(
            #[trigger] fewer[k],
            rest[k],
        ) by {
            assert(fewer[k] == entries[k]);
        }
        entries_add_up(fewer, rest);
    }
}

/// A log with an entry for each file that was counted, be it the log of a run or
/// that of a dry run, has as many entries as files were counted, and its entries
/// add up to the totals.
pub proof fn log_adds_up(report: RunReport, entries: Seq<LogEntryView>, plans: Seq<PlanView>)
    requires
        report.tallies(plans),
        are_entries_of(entries, plans),
    ensures
        entries.len() == report.total_files,
        bytes_logged(entries) == report.total_bytes,
        truncated_logged(entries) == report.truncated_count,
{
    entries_add_up(entries, plans);
}

// ---------------------------------------------------------------------------
// Sums
// ---------------------------------------------------------------------------

/// No single count exceeds the sum of all.
proof fn one_is_at_most_all(counts: Seq<TypeTally>, k: int)
    requires
        0 <= k < counts.len(),
    ensures
        counts[k].count.files <= files_counted(counts),
        counts[k].count.bytes <= bytes_counted(counts),
    decreases counts.len(),
{
    let rest = counts.drop_last();
    sums_are_not_negative(rest);
    if k < counts.len() - 1 {
        assert(rest[k] == counts[k]);
        one_is_at_most_all(rest, k);
    }
}

/// Sums of counts are not negative.
proof fn sums_are_not_negative(counts: Seq<TypeTally>)
    ensures
        files_counted(counts) >= 0,
        bytes_counted(counts) >= 0,
    decreases counts.len(),
{
    if counts.len() > 0 {
        sums_are_not_negative(counts.drop_last());
    }
}

/// What a changed count does to the sums.
proof fn sums_after_update(counts: Seq<TypeTally>, k: int, tally: TypeTally)
    requires
        0 <= k < counts.len(),
    ensures
        files_counted(counts.update(k, tally)) == files_counted(counts) - counts[k].count.files
            + tally.count.files,
        bytes_counted(counts.update(k, tally)) == bytes_counted(counts) - counts[k].count.bytes
            + tally.count.bytes,
    decreases counts.len(),
{
    let rest = counts.drop_last();
    let now = counts.update(k, tally);
    if k == counts.len() - 1 {
        assert(now.drop_last() =~= rest);
    } else {
        assert(now.drop_last() =~= rest.update(k, tally));
        sums_after_update(rest, k, tally);
    }
}

/// What a further count does to the sums.
proof fn sums_after_insert(counts: Seq<TypeTally>, k: int, tally: TypeTally)
    requires
        0 <= k <= counts.len(),
    ensures
        files_counted(counts.insert(k, tally)) == files_counted(counts) + tally.count.files,
        bytes_counted(counts.insert(k, tally)) == bytes_counted(counts) + tally.count.bytes,
    decreases counts.len(),
{
    let now = counts.insert(k, tally);
    if k == counts.len() {
        assert(now.drop_last() =~= counts);
    } else {
        let rest = counts.drop_last();
        assert(now.drop_last() =~= rest.insert(k, tally));
        sums_after_insert(rest, k, tally);
    }
}

/// A type that no planned file has, has no group.
proof fn absent_type_has_no_group(plans: Seq<PlanView>, t: Seq<char>)
    requires
        forall|i: int| 0 <= i < plans.len() ==> (#[trigger] plans[i]).file_type != t,
    ensures
        of_type(plans, t).len() == 0,
    decreases plans.len(),
{
    if plans.len() > 0 {
        let rest = plans.drop_last();
        assert forall|i: int| 0 <= i < rest.len() implies (#[trigger] rest[i]).file_type != t by {
            assert(rest[i] == plans[i]);
        }
        assert(plans[plans.len() - 1].file_type != t);
        absent_type_has_no_group(rest, t);
    }
}

/// Whether the file of `plan` was added to the count of index `k`, or to a new
/// one there.
spec fn one_more(was: Seq<TypeTally>, now: Seq<TypeTally>, plan: PlanView, k: int) -> bool {
    ||| {
        &&& k < was.len()
        &&& now == was.update(k, now[k])
        &&& was[k].file_type@ == plan.file_type
        &&& now[k].count.files == was[k].count.files + 1
        &&& now[k].count.bytes == was[k].count.bytes + plan.size
    }
    ||| {
        &&& k <= was.len()
        &&& now == was.insert(k, now[k])
        &&& !types_in(was).contains(plan.file_type)
        &&& now[k].count.files == 1
        &&& now[k].count.bytes == plan.size
    }
}

/// Counting one more file keeps the counts those of the files counted.
proof fn tallies_after_count(
    was: RunReport,
    now: RunReport,
    plans: Seq<PlanView>,
    plan: PlanView,
    k: int,
)
    requires
        was.wf(),
        now.wf(),
        was.tallies(plans),
        0 <= k < now.counts@.len(),
        now.counts@[k].file_type@ == plan.file_type,
        now.total_files == was.total_files + 1,
        now.total_bytes == was.total_bytes + plan.size,
        now.truncated_count == was.truncated_count + (if plan.truncated {
            1int
        } else {
            0int
        }),
        one_more(was.counts@, now.counts@, plan, k),
    ensures
        now.tallies(plans.push(plan)),
{
    let more = plans.push(plan);
    let t = plan.file_type;
    let old_names = types_in(was.counts@);
    let names = types_in(now.counts@);
    assert(more.drop_last() =~= plans);
    assert(more.last() == plan);
    let updated = now.counts@.len() == was.counts@.len();
    assert forall|m: int| 0 <= m < now.counts@.len() implies {
        let group = of_type(more, (#[trigger] now.counts@[m]).file_type@);
        &&& group.len() > 0
        &&& now.counts@[m].count.files == group.len()
        &&& now.counts@[m].count.bytes == bytes_in(group)
    } by {
        let name = now.counts@[m].file_type@;
        let old_group = of_type(plans, name);
        assert(names[m] == name);
        assert(names[k] == t);
        if m == k {
            let group = old_group.push(plan);
            assert(of_type(more, name) == group);
            assert(group.drop_last() =~= old_group);
            assert(bytes_in(group) == bytes_in(old_group) + plan.size);
            if updated {
                assert(was.counts@[k].file_type@ == name);
            } else {
                assert forall|i: int| 0 <= i < plans.len() implies (#[trigger] plans[i]).file_type
                    != t by {
                    assert(old_names.contains(plans[i].file_type));
                }
                absent_type_has_no_group(plans, t);
                assert(old_group =~= Seq::<PlanView>::empty());
            }
        } else {
            if m < k {
                assert(before(names[m], names[k]));
            } else {
                assert(before(names[k], names[m]));
            }
            before_is_irreflexive(t);
            assert(name != t);
            let j = if updated || m < k {
                m
            } else {
                m - 1
            };
            assert(was.counts@[j] == now.counts@[m]);
        }
    }
    assert forall|i: int| 0 <= i < more.len() implies names.contains(
        (#[trigger] more[i]).file_type,
    ) by {
        if i < plans.len() {
            assert(more[i] == plans[i]);
            assert(old_names.contains(plans[i].file_type));
            let j = old_names.index_of(plans[i].file_type);
            if updated {
                assert(now.counts@[j].file_type@ == was.counts@[j].file_type@);
                assert(names[j] == old_names[j]);
            } else if j < k {
                assert(names[j] == old_names[j]);
            } else {
                assert(names[j + 1] == old_names[j]);
            }
        } else {
            assert(names[k] == t);
        }
    }
}

// ---------------------------------------------------------------------------
// The run as a whole
// ---------------------------------------------------------------------------

/// How large planned files are together; `None` if 64 bits cannot hold it.
pub fn planned_bytes(plans: &[CarvePlan]) -> (total: Option<u64>)
    ensures
        match total {
            Some(n) => n == bytes_in(plan_views(plans@)),
            None => bytes_in(plan_views(plans@)) > u64::MAX,
        },
{
    let mut total: u64 = 0;
    let mut k: usize = 0;
    let ghost all: Seq<PlanView> = plan_views(plans@);
    while k < plans.len()
        invariant
            k <= plans@.len(),
            all == plan_views(plans@),
            total == bytes_in(all.take(k as int)),
        decreases plans@.len() - k,
    {
        assert(all.take(k + 1).drop_last() =~= all.take(k as int));
        assert(all.take(k + 1).last() == plans@[k as int]@);
        if plans[k].size > u64::MAX - total {
            proof {
                more_plans_are_larger(all, k + 1);
            }
            return None;
        }
        total = total + plans[k].size;
        k = k + 1;
    }
    assert(all.take(k as int) =~= all);
    Some(total)
}

/// More planned files are not smaller together.
proof fn more_plans_are_larger(plans: Seq<PlanView>, n: int)
    requires
        0 <= n <= plans.len(),
        forall|i: int| 0 <= i < plans.len() ==> (#[trigger] plans[i]).size >= 0,
    ensures
        bytes_in(plans.take(n)) <= bytes_in(plans),
    decreases plans.len() - n,
{
    if n < plans.len() {
        more_plans_are_larger(plans, n + 1);
        assert(plans.take(n + 1).drop_last() =~= plans.take(n));
        assert(plans[n].size >= 0);
    } else {
        assert(plans.take(n) =~= plans);
    }
}

/// What a dry run says in place of the name of a file.
pub open spec fn dry_run_name(extension: Seq<char>) -> Seq<char> {
    "(not written — dry run) would-be ."@ + extension
}

/// The log entries of a dry run that was started at the time `started`.
pub fn dry_run_entries(plans: &[CarvePlan], started: u64) -> (entries: Vec<LogEntry>)
    ensures
        entry_views(entries@) == plan_views(plans@).map_values(
            |p: PlanView| entry_of(p, dry_run_name(p.extension), started as int),
        ),
        are_entries_of(entry_views(entries@), plan_views(plans@)),
{
    let mut entries: Vec<LogEntry> = Vec::new();
    let mut k: usize = 0;
    let ghost all: Seq<LogEntryView> = plan_views(plans@).map_values(
        |p: PlanView| entry_of(p, dry_run_name(p.extension), started as int),
    );
    while k < plans.len()
        invariant
            k <= plans@.len(),
            all == plan_views(plans@).map_values(
                |p: PlanView| entry_of(p, dry_run_name(p.extension), started as int),
            ),
            entry_views(entries@) =~= all.take(k as int),
        decreases plans@.len() - k,
    {
        let p: &CarvePlan = &plans[k];
        let mut file: String = String::new();
        file.append("(not written — dry run) would-be .");
        file.append(p.extension.as_str());
        assert(file@ =~= dry_run_name(p@.extension));
        let ghost before: Seq<LogEntryView> = entry_views(entries@);
        entries.push(
            LogEntry {
                file,
                offset: p.offset,
                size: p.size,
                file_type: p.file_type.clone(),
                truncated: p.truncated,
                timestamp_unix: started,
            },
        );
        assert(all[k as int] == entry_of(p@, dry_run_name(p@.extension), started as int));
        assert(entry_views(entries@) =~= before.push(all[k as int]));
        assert(all.take(k + 1) =~= all.take(k as int).push(all[k as int]));
        k = k + 1;
    }
    assert(all.take(k as int) =~= all);
    entries
}

/// Whether the recovery log is written: not by a dry run, unless it was asked
/// for.
pub fn writes_log(dry_run: bool, asked_for: bool) -> (yes: bool)
    ensures
        yes == (!dry_run || asked_for),
{
    !dry_run || asked_for
}

} // verus!
