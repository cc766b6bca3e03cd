//! What holds of every list of recovery plans.

use vstd::prelude::*;

use crate::carver::{
    accepted_may, covered, deduplicated, file_start, footer_end_may, footer_search_may,
    footers_of, hits_planned, ordering_adds_none, plan_is_sound, plan_may, plans_may,
    resolved_late, size_cap, size_may, somes, somes_come_from_items, stably_ordered,
    starting_at, starts_at, validation_may, CarvePlan, PlanView,
};
use crate::disk::ReadAt;
use crate::filter::{active_among, is_active, passes};
use crate::scanner::searchable;
use crate::signatures::{
    database_is_sound, signature_table, SignatureView, SizeParser, Validator,
};
use crate::sizes::zip_type_may;

verus! {

/// What is kept of an ordered list is part of it, is ordered, and never starts
/// inside something of the same type that is kept before it.
proof fn kept_plans(plans: Seq<CarvePlan>)
    requires
        forall|i: int, j: int|
            0 <= i <= j < plans.len() ==> #[trigger] plans[i].offset <= #[trigger] plans[j].offset,
    ensures
        ({
            let kept = deduplicated(plans);
            &&& forall|k: int| 0 <= k < kept.len() ==> plans.contains(#[trigger] kept[k])
            &&& forall|i: int, j: int|
                0 <= i <= j < kept.len() ==> #[trigger] kept[i].offset <= #[trigger] kept[j].offset
            &&& forall|i: int, j: int|
                0 <= i < j < kept.len() && (#[trigger] kept[i]).file_type@ == (
                #[trigger] kept[j]).file_type@ ==> kept[i].offset + kept[i].size <= kept[j].offset
        }),
    decreases plans.len(),
{
    if plans.len() > 0 {
        let rest = plans.drop_last();
        let p = plans.last();
        assert(plans[plans.len() - 1] == p);
        assert forall|i: int, j: int| 0 <= i <= j < rest.len() implies #[trigger] rest[i].offset
            <= #[trigger] rest[j].offset by {
            assert(rest[i] == plans[i] && rest[j] == plans[j]);
        }
        kept_plans(rest);
        let before = deduplicated(rest);
        let kept = deduplicated(plans);
        assert forall|k: int| 0 <= k < kept.len() implies plans.contains(#[trigger] kept[k]) by {
            if k < before.len() {
                assert(kept[k] == before[k]);
                let m = rest.index_of(before[k]);
                assert(plans[m] == before[k]);
            }
        }
        assert forall|i: int, j: int| 0 <= i < j < kept.len() implies (#[trigger] kept[i]).offset
            <= (#[trigger] kept[j]).offset && (kept[i].file_type@ == kept[j].file_type@
            ==> kept[i].offset + kept[i].size <= kept[j].offset) by {
            assert(kept[i] == before[i]);
            let m = rest.index_of(before[i]);
            assert(plans[m] == before[i]);
            if j < before.len() {
                assert(kept[j] == before[j]);
            } else {
                assert(kept[j] == p);
                assert(!covered(before, p));
            }
        }
    }
}

/// What is not kept starts inside something of the same type that is.
proof fn dropped_plans(plans: Seq<CarvePlan>, p: CarvePlan)
    requires
        plans.contains(p),
    ensures
        deduplicated(plans).contains(p) || covered(deduplicated(plans), p),
    decreases plans.len(),
{
    let rest = plans.drop_last();
    let before = deduplicated(rest);
    let kept = deduplicated(plans);
    if plans.last() == p {
        if !covered(before, p) {
            assert(kept[before.len() as int] == p);
        }
    } else {
        let m = plans.index_of(p);
        assert(rest[m] == p);
        dropped_plans(rest, p);
        if before.contains(p) {
            assert(kept[before.index_of(p)] == p);
        } else {
            let k = choose|k: int|
                0 <= k < before.len() && (#[trigger] before[k]).file_type@ == p.file_type@
                    && before[k].offset <= p.offset < before[k].offset + before[k].size;
            assert(kept[k] == before[k]);
        }
    }
}

/// Every item that holds a value is collected.
proof fn somes_take_all<U>(items: Seq<Option<U>>, i: int)
    requires
        0 <= i < items.len(),
        items[i] is Some,
    ensures
        somes(items).contains(items[i]->0),
    decreases items.len(),
{
    let rest = items.drop_last();
    let all = somes(items);
    if i == items.len() - 1 {
        assert(all[all.len() - 1] == items[i]->0);
    } else {
        assert(rest[i] == items[i]);
        somes_take_all(rest, i);
        let k = somes(rest).index_of(items[i]->0);
        assert(all[k] == items[i]->0);
    }
}

/// Ordering loses no plans.
proof fn ordering_loses_none(before: Seq<CarvePlan>, after: Seq<CarvePlan>, p: CarvePlan)
    requires
        stably_ordered(before, after),
        before.contains(p),
    ensures
        after.contains(p),
{
    let pick = starts_at(p.offset);
    let k = choose|k: int| 0 <= k < before.len() && before[k] == p;
    before.lemma_filter_contains(pick, k);
    assert(starting_at(after, p.offset) == starting_at(before, p.offset));
    after.lemma_filter_contains_rev(pick, p);
}

/// Plans are ordered by offset, and none starts inside an earlier one of the
/// same type.
pub proof fn plans_are_ordered_and_apart<R: ReadAt + ?Sized>(
    reader: &R,
    disk_size: int,
    headers: Seq<(u64, usize)>,
    footers: Seq<(u64, usize)>,
    sigs: Seq<SignatureView>,
    max_size: int,
    filter: Option<Set<Seq<char>>>,
    plans: Seq<CarvePlan>,
)
    requires
        plans_may(reader, disk_size, headers, footers, sigs, max_size, filter, plans),
    ensures
        forall|i: int, j: int|
            0 <= i <= j < plans.len() ==> #[trigger] plans[i].offset <= #[trigger] plans[j].offset,
        forall|i: int, j: int|
            0 <= i < j < plans.len() && (#[trigger] plans[i]).file_type@ == (
            #[trigger] plans[j]).file_type@ ==> plans[i].offset + plans[i].size <= plans[j].offset,
{
    let (outcomes, ordered) = choose|outcomes: Seq<Option<CarvePlan>>, ordered: Seq<CarvePlan>|
        {
            &&& hits_planned(
                reader,
                disk_size,
                headers,
                footers,
                sigs,
                max_size,
                filter,
                outcomes,
            )
            &&& #[trigger] stably_ordered(somes(outcomes), ordered)
            &&& plans == deduplicated(ordered)
        };
    kept_plans(ordered);
}

/// Every plan is that of a hit, and what a hit leads to is planned unless it
/// starts inside another planned file of the same type.
pub proof fn plans_are_those_of_hits<R: ReadAt + ?Sized>(
    reader: &R,
    disk_size: int,
    headers: Seq<(u64, usize)>,
    footers: Seq<(u64, usize)>,
    sigs: Seq<SignatureView>,
    max_size: int,
    filter: Option<Set<Seq<char>>>,
    plans: Seq<CarvePlan>,
)
    requires
        plans_may(reader, disk_size, headers, footers, sigs, max_size, filter, plans),
    ensures
        exists|outcomes: Seq<Option<CarvePlan>>|
            {
                &&& #[trigger] hits_planned(
                    reader,
                    disk_size,
                    headers,
                    footers,
                    sigs,
                    max_size,
                    filter,
                    outcomes,
                )
                &&& forall|k: int|
                    0 <= k < plans.len() ==> outcomes.contains(Some(#[trigger] plans[k]))
                &&& forall|i: int|
                    0 <= i < outcomes.len() && (#[trigger] outcomes[i]) is Some ==> plans.contains(
                        outcomes[i]->0,
                    ) || covered(plans, outcomes[i]->0)
            },
{
    let (outcomes, ordered) = choose|outcomes: Seq<Option<CarvePlan>>, ordered: Seq<CarvePlan>|
        {
            &&& hits_planned(
                reader,
                disk_size,
                headers,
                footers,
                sigs,
                max_size,
                filter,
                outcomes,
            )
            &&& #[trigger] stably_ordered(somes(outcomes), ordered)
            &&& plans == deduplicated(ordered)
        };
    kept_plans(ordered);
    assert forall|k: int| 0 <= k < plans.len() implies outcomes.contains(
        Some(#[trigger] plans[k]),
    ) by {
        ordering_adds_none(somes(outcomes), ordered, plans[k]);
        somes_come_from_items(outcomes, plans[k]);
    }
    assert forall|i: int| 0 <= i < outcomes.len() && (#[trigger] outcomes[i]) is Some implies
        plans.contains(outcomes[i]->0) || covered(plans, outcomes[i]->0) by {
        somes_take_all(outcomes, i);
        ordering_loses_none(somes(outcomes), ordered, outcomes[i]->0);
        dropped_plans(ordered, outcomes[i]->0);
    }
}

/// Whether only entries whose type is resolved late are resolved by brand, as
/// it is in the database.
pub open spec fn brands_resolved_late(sigs: Seq<SignatureView>) -> bool {
    forall|s: int|
        0 <= s < sigs.len() && (#[trigger] sigs[s]).validator == Validator::Ftyp ==> resolved_late(
            sigs[s],
        )
}

/// Every plan lies within the source, is no larger than the maximum, and has a
/// type that the filter lets through.
pub proof fn plans_are_sound<R: ReadAt + ?Sized>(
    reader: &R,
    disk_size: int,
    headers: Seq<(u64, usize)>,
    footers: Seq<(u64, usize)>,
    sigs: Seq<SignatureView>,
    max_size: int,
    filter: Option<Set<Seq<char>>>,
    plans: Seq<CarvePlan>,
)
    requires
        plans_may(reader, disk_size, headers, footers, sigs, max_size, filter, plans),
        forall|i: int| 0 <= i < headers.len() ==> (#[trigger] headers[i]).1 < sigs.len(),
        brands_resolved_late(sigs),
    ensures
        forall|k: int|
            0 <= k < plans.len() ==> {
                &&& (#[trigger] plans[k]).offset + plans[k].size <= disk_size
                &&& plans[k].size <= max_size
                &&& passes(filter, plans[k].file_type@)
            },
{
    plans_are_those_of_hits(reader, disk_size, headers, footers, sigs, max_size, filter, plans);
    let outcomes = choose|outcomes: Seq<Option<CarvePlan>>|
        {
            &&& #[trigger] hits_planned(
                reader,
                disk_size,
                headers,
                footers,
                sigs,
                max_size,
                filter,
                outcomes,
            )
            &&& forall|k: int|
                0 <= k < plans.len() ==> outcomes.contains(Some(#[trigger] plans[k]))
            &&& forall|i: int|
                0 <= i < outcomes.len() && (#[trigger] outcomes[i]) is Some ==> plans.contains(
                    outcomes[i]->0,
                ) || covered(plans, outcomes[i]->0)
        };
    assert forall|k: int| 0 <= k < plans.len() implies {
        &&& (#[trigger] plans[k]).offset + plans[k].size <= disk_size
        &&& plans[k].size <= max_size
        &&& passes(filter, plans[k].file_type@)
    } by {
        assert(outcomes.contains(Some(plans[k])));
        let i = choose|i: int| 0 <= i < outcomes.len() && outcomes[i] == Some(plans[k]);
        assert(headers[i].1 < sigs.len());
        plan_is_sound(
            reader,
            disk_size,
            headers[i].0 as int,
            sigs[headers[i].1 as int],
            footers_of(footers, headers[i].1 as int),
            max_size,
            filter,
            plans[k]@,
        );
    }
}

/// The database resolves by brand only what is resolved late.
pub proof fn database_resolves_brands_late()
    ensures
        brands_resolved_late(signature_table()),
{
}

/// The size that a planned file was given, with the note whether it was cut off.
pub proof fn size_of_plan<R: ReadAt + ?Sized>(
    reader: &R,
    disk_size: int,
    hit: int,
    sig: SignatureView,
    footers: Seq<u64>,
    max_size: int,
    filter: Option<Set<Seq<char>>>,
    plan: PlanView,
) -> (sized: (int, bool))
    requires
        plan_may(reader, disk_size, hit, sig, footers, max_size, filter, Some(plan)),
    ensures
        sized == (plan.size, plan.truncated),
        size_may(
            reader,
            sig,
            footers,
            plan.offset,
            size_cap(sig, max_size, disk_size, plan.offset),
            Some(sized),
        ),
{
    plan_is_sound(reader, disk_size, hit, sig, footers, max_size, filter, plan);
    let off = plan.offset;
    let cap = size_cap(sig, max_size, disk_size, off);
    let verdict = choose|verdict: Option<(Seq<char>, Seq<char>)>| #[trigger]
        validation_may(reader, sig, off, verdict) && (match verdict {
            None => false,
            Some(v) => accepted_may(
                reader,
                sig,
                footers,
                filter,
                off,
                cap,
                v.0,
                v.1,
                Some(plan),
            ),
        });
    let v = verdict->0;
    let sized = choose|sized: Option<(int, bool)>| #[trigger]
        size_may(reader, sig, footers, off, cap, sized) && (match sized {
            None => false,
            Some(z) => if z.0 < sig.min_size {
                false
            } else if sig.name == "zip"@ {
                exists|kind: Seq<char>| #[trigger]
                    zip_type_may(reader, off, z.0, kind) && Some(plan) == (if passes(filter, kind) {
                        Some(
                            PlanView {
                                offset: off,
                                size: z.0,
                                file_type: kind,
                                extension: kind,
                                truncated: z.1,
                            },
                        )
                    } else {
                        None
                    })
            } else {
                plan == PlanView {
                    offset: off,
                    size: z.0,
                    file_type: v.0,
                    extension: v.1,
                    truncated: z.1,
                }
            },
        });
    let z = sized->0;
    assert(plan.size == z.0 && plan.truncated == z.1);
    z
}

/// A file that is marked as truncated has the largest size that it can be
/// given. One of a format that has neither a footer nor a size of its own is
/// always so marked.
pub proof fn truncated_files_reach_the_cap<R: ReadAt + ?Sized>(
    reader: &R,
    disk_size: int,
    hit: int,
    sig: SignatureView,
    footers: Seq<u64>,
    max_size: int,
    filter: Option<Set<Seq<char>>>,
    plan: PlanView,
)
    requires
        plan_may(reader, disk_size, hit, sig, footers, max_size, filter, Some(plan)),
    ensures
        plan.truncated ==> plan.size == size_cap(sig, max_size, disk_size, plan.offset),
        sig.parser == SizeParser::Absent && sig.footer is None ==> plan.truncated,
{
    size_of_plan(reader, disk_size, hit, sig, footers, max_size, filter, plan);
}

/// Whether the footer at `f` is certain to end its file at `end`.
pub open spec fn footer_ends<R: ReadAt + ?Sized>(
    reader: &R,
    sig: SignatureView,
    footer: Seq<u8>,
    f: int,
    end: int,
) -> bool {
    f <= end && forall|e: int| #[trigger]
        footer_end_may(reader, sig, footer, f, e) ==> e == end
}

/// Whether the footer at `f` cannot end a file at `off`: it stands before the
/// file's data, or leaves it too small or larger than `cap`.
pub open spec fn is_passed_over<R: ReadAt + ?Sized>(
    reader: &R,
    sig: SignatureView,
    footer: Seq<u8>,
    f: int,
    off: int,
    cap: int,
) -> bool {
    f <= off || forall|e: int| #[trigger]
        footer_end_may(reader, sig, footer, f, e) ==> !(sig.min_size <= e - off <= cap)
}

/// A file of a format that ends with a footer, and states no size, ends where
/// the first footer after its start ends it that makes it large enough and not
/// too large. Footers that do neither are passed over.
pub proof fn first_footer_ends_the_file<R: ReadAt + ?Sized>(
    reader: &R,
    disk_size: int,
    hit: int,
    sig: SignatureView,
    footers: Seq<u64>,
    max_size: int,
    filter: Option<Set<Seq<char>>>,
    plan: PlanView,
    k: int,
    end: int,
)
    requires
        plan_may(reader, disk_size, hit, sig, footers, max_size, filter, Some(plan)),
        sig.parser == SizeParser::Absent,
        sig.footer is Some,
        0 <= k < footers.len(),
        forall|j: int|
            0 <= j < k ==> footers[j] <= footers[k] && is_passed_over(
                reader,
                sig,
                sig.footer->0,
                (#[trigger] footers[j]) as int,
                plan.offset,
                size_cap(sig, max_size, disk_size, plan.offset),
            ),
        footers[k] > plan.offset,
        footer_ends(reader, sig, sig.footer->0, footers[k] as int, end),
        sig.min_size <= end - plan.offset <= size_cap(sig, max_size, disk_size, plan.offset),
    ensures
        plan.offset + plan.size == end,
        !plan.truncated,
{
    let off = plan.offset;
    let cap = size_cap(sig, max_size, disk_size, off);
    let footer = sig.footer->0;
    let sized = size_of_plan(reader, disk_size, hit, sig, footers, max_size, filter, plan);
    let found = choose|found: Option<int>| #[trigger]
        footer_search_may(reader, sig, footer, footers, 0, off, cap, found) && sized == (
        match found {
            Some(e) => (e - off, false),
            None => (cap, true),
        });
    first_footer_counts(reader, sig, footer, footers, 0, k, off, cap, end, found);
}

/// The search passes over footers that cannot end the file and takes the next.
pub proof fn first_footer_counts<R: ReadAt + ?Sized>(
    reader: &R,
    sig: SignatureView,
    footer: Seq<u8>,
    footers: Seq<u64>,
    from: int,
    k: int,
    off: int,
    cap: int,
    end: int,
    found: Option<int>,
)
    requires
        footer_search_may(reader, sig, footer, footers, from, off, cap, found),
        0 <= from <= k < footers.len(),
        forall|j: int|
            from <= j < k ==> footers[j] <= footers[k] && is_passed_over(
                reader,
                sig,
                footer,
                (#[trigger] footers[j]) as int,
                off,
                cap,
            ),
        footers[k] > off,
        footer_ends(reader, sig, footer, footers[k] as int, end),
        sig.min_size <= end - off <= cap,
    ensures
        found == Some(end),
    decreases k - from,
{
    if from < k {
        assert(is_passed_over(reader, sig, footer, footers[from] as int, off, cap));
        first_footer_counts(reader, sig, footer, footers, from + 1, k, off, cap, end, found);
    }
}

/// The entries of the database that state no size of their own are those
/// without a parser and without a footer.
pub proof fn sizeless_entries()
    ensures
        forall|k: int|
            #![trigger signature_table()[k]]
            0 <= k < signature_table().len() ==> {
                let sig = signature_table()[k];
                sig.has_internal_size <==> !(sig.parser == SizeParser::Absent && sig.footer is None)
            },
{
}

/// A signature that is not scanned for could not have led to a plan: leaving it
/// out loses nothing. The "ftyp" entry is resolved by brand, as it is in the
/// database.
pub proof fn inactive_signatures_lose_nothing<R: ReadAt + ?Sized>(
    reader: &R,
    disk_size: int,
    hit: int,
    sig: SignatureView,
    footers: Seq<u64>,
    max_size: int,
    filter: Option<Set<Seq<char>>>,
    plan: Option<PlanView>,
)
    requires
        !is_active(filter, sig.name),
        sig.name == "ftyp"@ ==> sig.validator == Validator::Ftyp,
        plan_may(reader, disk_size, hit, sig, footers, max_size, filter, plan),
    ensures
        plan is None,
{
    if let Some(p) = plan {
        reveal_strlit("zip");
        reveal_strlit("ftyp");
        let off = file_start(sig, hit)->0;
        let cap = size_cap(sig, max_size, disk_size, off);
        let verdict = choose|verdict: Option<(Seq<char>, Seq<char>)>| #[trigger]
            validation_may(reader, sig, off, verdict) && (match verdict {
                None => plan is None,
                Some(v) => accepted_may(reader, sig, footers, filter, off, cap, v.0, v.1, plan),
            });
        let v = verdict->0;
        if sig.name == "ftyp"@ {
            assert(v.0 == "mp4"@ || v.0 == "mov"@);
        } else {
            assert(sig.name == "zip"@);
            let sized = choose|sized: Option<(int, bool)>| #[trigger]
                size_may(reader, sig, footers, off, cap, sized) && (match sized {
                    None => false,
                    Some(z) => z.0 >= sig.min_size && exists|kind: Seq<char>| #[trigger]
                        zip_type_may(reader, off, z.0, kind) && plan == (if passes(filter, kind) {
                            Some(
                                PlanView {
                                    offset: off,
                                    size: z.0,
                                    file_type: kind,
                                    extension: kind,
                                    truncated: z.1,
                                },
                            )
                        } else {
                            None
                        }),
                });
            let z = sized->0;
            let kind = choose|kind: Seq<char>| #[trigger]
                zip_type_may(reader, off, z.0, kind) && plan == (if passes(filter, kind) {
                    Some(
                        PlanView {
                            offset: off,
                            size: z.0,
                            file_type: kind,
                            extension: kind,
                            truncated: z.1,
                        },
                    )
                } else {
                    None
                });
            assert(kind == "zip"@ || kind == "docx"@ || kind == "xlsx"@ || kind == "pptx"@);
        }
    }
}

/// The signatures to scan for are each listed once, in order.
pub(crate) proof fn active_are_in_order(
    sigs: Seq<SignatureView>,
    filter: Option<Set<Seq<char>>>,
    n: int,
)
    requires
        0 <= n <= sigs.len(),
        sigs.len() <= usize::MAX,
    ensures
        forall|i: int|
            #![trigger active_among(sigs, filter, n)[i]]
            0 <= i < active_among(sigs, filter, n).len() ==> active_among(sigs, filter, n)[i] < n
                && is_active(filter, sigs[active_among(sigs, filter, n)[i] as int].name),
        forall|i: int, j: int|
            0 <= i < j < active_among(sigs, filter, n).len() ==> active_among(sigs, filter, n)[i]
                < active_among(sigs, filter, n)[j],
        forall|s: int|
            #![trigger sigs[s]]
            0 <= s < n && is_active(filter, sigs[s].name) ==> active_among(
                sigs,
                filter,
                n,
            ).contains(s as usize),
    decreases n,
{
    if n > 0 {
        active_are_in_order(sigs, filter, n - 1);
        let before = active_among(sigs, filter, n - 1);
        let now = active_among(sigs, filter, n);
        assert forall|s: int| #![trigger sigs[s]] 0 <= s < n && is_active(
            filter,
            sigs[s].name,
        ) implies now.contains(s as usize) by {
            if s < n - 1 {
                let i = before.index_of(s as usize);
                assert(before.contains(s as usize));
                assert(now[i] == s as usize);
            } else {
                assert(now[now.len() - 1] == s as usize);
            }
        }
    }
}

/// The signatures of the database to scan for are exactly those that can lead
/// to a chosen type. They are listed once each and can be scanned for.
pub proof fn database_can_be_scanned(filter: Option<Set<Seq<char>>>)
    ensures
        ({
            let n = signature_table().len() as int;
            let active = active_among(signature_table(), filter, n);
            &&& searchable(signature_table(), active)
            &&& active.no_duplicates()
            &&& forall|s: int|
                #![trigger signature_table()[s]]
                0 <= s < n ==> (active.contains(s as usize) <==> is_active(
                    filter,
                    signature_table()[s].name,
                ))
        }),
{
    let sigs = signature_table();
    let n = sigs.len() as int;
    assert(n == 19);
    let active = active_among(sigs, filter, n);
    active_are_in_order(sigs, filter, n);
    database_is_sound();
    assert forall|k: int| #![trigger active[k]] 0 <= k < active.len() implies {
        &&& active[k] < sigs.len()
        &&& sigs[active[k] as int].header.len() > 0
        &&& sigs[active[k] as int].footer matches Some(f) ==> f.len() > 0
    } by {
        let sig = sigs[active[k] as int];
        assert(sig.header.len() > 0);
    }
    assert forall|s: int| #![trigger sigs[s]] 0 <= s < n implies (active.contains(s as usize)
        <==> is_active(filter, sigs[s].name)) by {
        if active.contains(s as usize) {
            let i = active.index_of(s as usize);
            assert(active[i] == s as usize);
        }
    }
}

} // verus!
