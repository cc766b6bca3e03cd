//! What holds of a source that answers each read in one way only, such as an
//! image in memory: whatever is read from it is determined, and so is all that
//! follows from it. Two runs lead to the same plans.

use vstd::prelude::*;

use crate::carver::{
    accepted_may, capped, covered, deduplicated, file_start, footer_end_may, footer_search_may,
    footers_of, hits_planned, must_parse, plan_may, plan_view, plans_may, resolved_late,
    size_cap, size_may, somes, stably_ordered, starting_at, stated_size_may, unstated_size_may,
    validation_may, CarvePlan, PlanView,
};
use crate::disk::{may_fetch, steady, ReadAt};
use crate::filter::passes;
use crate::plan_laws::size_of_plan;
use crate::error::IoErrorView;
use crate::report::plan_views;
use crate::scanner::{
    block_used, blocks_may, chunk_used, scan_may, source_may, span_may, PatternView, ScanResult,
};
use crate::signatures::SignatureView;
use crate::size_laws::{fetch_once, stated_size_once};
use crate::sizes::{bytes_or_none, least, zip_type, zip_type_may};
use crate::text::texts;

verus! {

// ---------------------------------------------------------------------------
// One hit
// ---------------------------------------------------------------------------

/// Validation ends in one way.
pub(crate) proof fn validation_once<R: ReadAt + ?Sized>(
    reader: &R,
    sig: SignatureView,
    off: int,
    a: Option<(Seq<char>, Seq<char>)>,
    b: Option<(Seq<char>, Seq<char>)>,
)
    requires
        steady(reader),
        validation_may(reader, sig, off, a),
        validation_may(reader, sig, off, b),
    ensures
        a == b,
{
}

/// A footer ends its file in one place.
pub(crate) proof fn footer_end_once<R: ReadAt + ?Sized>(
    reader: &R,
    sig: SignatureView,
    footer: Seq<u8>,
    f: int,
    a: int,
    b: int,
)
    requires
        steady(reader),
        footer_end_may(reader, sig, footer, f, a),
        footer_end_may(reader, sig, footer, f, b),
    ensures
        a == b,
{
}

/// The search for a footer ends in one way.
proof fn footer_search_once<R: ReadAt + ?Sized>(
    reader: &R,
    sig: SignatureView,
    footer: Seq<u8>,
    footers: Seq<u64>,
    k: int,
    off: int,
    cap: int,
    a: Option<int>,
    b: Option<int>,
)
    requires
        steady(reader),
        footer_search_may(reader, sig, footer, footers, k, off, cap, a),
        footer_search_may(reader, sig, footer, footers, k, off, cap, b),
    ensures
        a == b,
    decreases footers.len() - k,
{
    if 0 <= k < footers.len() {
        if footers[k] <= off {
            footer_search_once(reader, sig, footer, footers, k + 1, off, cap, a, b);
        } else if footers[k] - off <= cap {
            let x = choose|e: int| #[trigger]
                footer_end_may(reader, sig, footer, footers[k] as int, e) && (if sig.min_size <= e
                    - off <= cap {
                    a == Some(e)
                } else {
                    footer_search_may(reader, sig, footer, footers, k + 1, off, cap, a)
                });
            let y = choose|e: int| #[trigger]
                footer_end_may(reader, sig, footer, footers[k] as int, e) && (if sig.min_size <= e
                    - off <= cap {
                    b == Some(e)
                } else {
                    footer_search_may(reader, sig, footer, footers, k + 1, off, cap, b)
                });
            footer_end_once(reader, sig, footer, footers[k] as int, x, y);
            if !(sig.min_size <= x - off <= cap) {
                footer_search_once(reader, sig, footer, footers, k + 1, off, cap, a, b);
            }
        }
    }
}

/// A file that states no size is given one size.
proof fn unstated_size_once<R: ReadAt + ?Sized>(
    reader: &R,
    sig: SignatureView,
    footers: Seq<u64>,
    off: int,
    cap: int,
    a: (int, bool),
    b: (int, bool),
)
    requires
        steady(reader),
        unstated_size_may(reader, sig, footers, off, cap, a),
        unstated_size_may(reader, sig, footers, off, cap, b),
    ensures
        a == b,
{
    if let Some(footer) = sig.footer {
        let x = choose|end: Option<int>| #[trigger]
            footer_search_may(reader, sig, footer, footers, 0, off, cap, end) && a == (match end {
                Some(e) => (e - off, false),
                None => (cap, true),
            });
        let y = choose|end: Option<int>| #[trigger]
            footer_search_may(reader, sig, footer, footers, 0, off, cap, end) && b == (match end {
                Some(e) => (e - off, false),
                None => (cap, true),
            });
        footer_search_once(reader, sig, footer, footers, 0, off, cap, x, y);
    }
}

/// What follows from the size that a file states, or does not state.
pub open spec fn sized_by<R: ReadAt + ?Sized>(
    reader: &R,
    sig: SignatureView,
    footers: Seq<u64>,
    off: int,
    cap: int,
    stated: Option<int>,
    sized: Option<(int, bool)>,
) -> bool {
    match stated {
        Some(s) => sized == Some(capped(sig.parser, s, cap)),
        None => if must_parse(sig.parser) {
            sized is None
        } else {
            sized matches Some(z) && unstated_size_may(reader, sig, footers, off, cap, z)
        },
    }
}

/// A file is given one size.
pub(crate) proof fn size_once<R: ReadAt + ?Sized>(
    reader: &R,
    sig: SignatureView,
    footers: Seq<u64>,
    off: int,
    cap: int,
    a: Option<(int, bool)>,
    b: Option<(int, bool)>,
)
    requires
        steady(reader),
        size_may(reader, sig, footers, off, cap, a),
        size_may(reader, sig, footers, off, cap, b),
    ensures
        a == b,
{
    let x = choose|stated: Option<int>| #[trigger]
        stated_size_may(reader, sig.parser, off, cap, stated) && sized_by(
            reader,
            sig,
            footers,
            off,
            cap,
            stated,
            a,
        );
    let y = choose|stated: Option<int>| #[trigger]
        stated_size_may(reader, sig.parser, off, cap, stated) && sized_by(
            reader,
            sig,
            footers,
            off,
            cap,
            stated,
            b,
        );
    stated_size_once(reader, sig.parser, off, cap, x, y);
    if x is None && !must_parse(sig.parser) {
        unstated_size_once(reader, sig, footers, off, cap, a->0, b->0);
    }
}

/// A ZIP file has one type.
pub(crate) proof fn zip_type_once<R: ReadAt + ?Sized>(
    reader: &R,
    off: int,
    size: int,
    a: Seq<char>,
    b: Seq<char>,
)
    requires
        steady(reader),
        zip_type_may(reader, off, size, a),
        zip_type_may(reader, off, size, b),
    ensures
        a == b,
{
    let at = off + size - least(size, 65536);
    let len = least(size, 65536) as nat;
    let x = choose|head: Option<Seq<u8>>| #[trigger]
        may_fetch(reader, off, least(size, 4096) as nat, head) && (if size > 4096 {
            exists|tail: Option<Seq<u8>>| #[trigger]
                may_fetch(reader, at, len, tail) && a == zip_type(
                    bytes_or_none(head) + bytes_or_none(tail),
                )
        } else {
            a == zip_type(bytes_or_none(head))
        });
    let y = choose|head: Option<Seq<u8>>| #[trigger]
        may_fetch(reader, off, least(size, 4096) as nat, head) && (if size > 4096 {
            exists|tail: Option<Seq<u8>>| #[trigger]
                may_fetch(reader, at, len, tail) && b == zip_type(
                    bytes_or_none(head) + bytes_or_none(tail),
                )
        } else {
            b == zip_type(bytes_or_none(head))
        });
    fetch_once(reader, off, least(size, 4096) as nat, x, y);
    if size > 4096 {
        let v = choose|tail: Option<Seq<u8>>| #[trigger]
            may_fetch(reader, at, len, tail) && a == zip_type(
                bytes_or_none(x) + bytes_or_none(tail),
            );
        let w = choose|tail: Option<Seq<u8>>| #[trigger]
            may_fetch(reader, at, len, tail) && b == zip_type(
                bytes_or_none(y) + bytes_or_none(tail),
            );
        fetch_once(reader, at, len, v, w);
    }
}

/// What follows from the size of a validated file.
pub open spec fn planned_by<R: ReadAt + ?Sized>(
    reader: &R,
    sig: SignatureView,
    filter: Option<Set<Seq<char>>>,
    off: int,
    name: Seq<char>,
    extension: Seq<char>,
    sized: Option<(int, bool)>,
    plan: Option<PlanView>,
) -> bool {
    match sized {
        None => plan is None,
        Some(z) => if z.0 < sig.min_size {
            plan is None
        } else if sig.name == "zip"@ {
            exists|kind: Seq<char>| #[trigger]
                zip_type_may(reader, off, z.0, kind) && plan == zip_plan(filter, off, z, kind)
        } else {
            plan == Some(
                PlanView {
                    offset: off,
                    size: z.0,
                    file_type: name,
                    extension,
                    truncated: z.1,
                },
            )
        },
    }
}

/// The plan for a ZIP file of type `kind`.
pub open spec fn zip_plan(
    filter: Option<Set<Seq<char>>>,
    off: int,
    z: (int, bool),
    kind: Seq<char>,
) -> Option<PlanView> {
    if passes(filter, kind) {
        Some(
            PlanView {
                offset: off,
                size: z.0,
                file_type: kind,
                extension: kind,
                truncated: z.1,
            },
        )
    } else {
        None
    }
}

/// A validated file leads to one plan.
proof fn accepted_once<R: ReadAt + ?Sized>(
    reader: &R,
    sig: SignatureView,
    footers: Seq<u64>,
    filter: Option<Set<Seq<char>>>,
    off: int,
    cap: int,
    name: Seq<char>,
    extension: Seq<char>,
    a: Option<PlanView>,
    b: Option<PlanView>,
)
    requires
        steady(reader),
        accepted_may(reader, sig, footers, filter, off, cap, name, extension, a),
        accepted_may(reader, sig, footers, filter, off, cap, name, extension, b),
    ensures
        a == b,
{
    if !(sig.name == "ftyp"@ && !passes(filter, name)) {
        let x = choose|sized: Option<(int, bool)>| #[trigger]
            size_may(reader, sig, footers, off, cap, sized) && planned_by(
                reader,
                sig,
                filter,
                off,
                name,
                extension,
                sized,
                a,
            );
        let y = choose|sized: Option<(int, bool)>| #[trigger]
            size_may(reader, sig, footers, off, cap, sized) && planned_by(
                reader,
                sig,
                filter,
                off,
                name,
                extension,
                sized,
                b,
            );
        size_once(reader, sig, footers, off, cap, x, y);
        if let Some(z) = x {
            if z.0 >= sig.min_size && sig.name == "zip"@ {
                let v = choose|kind: Seq<char>| #[trigger]
                    zip_type_may(reader, off, z.0, kind) && a == zip_plan(filter, off, z, kind);
                let w = choose|kind: Seq<char>| #[trigger]
                    zip_type_may(reader, off, z.0, kind) && b == zip_plan(filter, off, z, kind);
                zip_type_once(reader, off, z.0, v, w);
            }
        }
    }
}

/// A hit on a steady source leads to one plan, or to none.
pub proof fn plan_is_determined<R: ReadAt + ?Sized>(
    reader: &R,
    disk_size: int,
    hit: int,
    sig: SignatureView,
    footers: Seq<u64>,
    max_size: int,
    filter: Option<Set<Seq<char>>>,
    a: Option<PlanView>,
    b: Option<PlanView>,
)
    requires
        steady(reader),
        plan_may(reader, disk_size, hit, sig, footers, max_size, filter, a),
        plan_may(reader, disk_size, hit, sig, footers, max_size, filter, b),
    ensures
        a == b,
{
    if let Some(off) = file_start(sig, hit) {
        let cap = size_cap(sig, max_size, disk_size, off);
        if !(!resolved_late(sig) && !passes(filter, sig.name)) && off <= disk_size && cap
            >= sig.min_size {
            let x = choose|verdict: Option<(Seq<char>, Seq<char>)>| #[trigger]
                validation_may(reader, sig, off, verdict) && (match verdict {
                    None => a is None,
                    Some(v) => accepted_may(
                        reader,
                        sig,
                        footers,
                        filter,
                        off,
                        cap,
                        v.0,
                        v.1,
                        a,
                    ),
                });
            let y = choose|verdict: Option<(Seq<char>, Seq<char>)>| #[trigger]
                validation_may(reader, sig, off, verdict) && (match verdict {
                    None => b is None,
                    Some(v) => accepted_may(
                        reader,
                        sig,
                        footers,
                        filter,
                        off,
                        cap,
                        v.0,
                        v.1,
                        b,
                    ),
                });
            validation_once(reader, sig, off, x, y);
            if let Some(v) = x {
                accepted_once(reader, sig, footers, filter, off, cap, v.0, v.1, a, b);
            }
        }
    }
}

// ---------------------------------------------------------------------------
// All hits
// ---------------------------------------------------------------------------

/// What optional plans say.
pub open spec fn outcome_views(outcomes: Seq<Option<CarvePlan>>) -> Seq<Option<PlanView>> {
    outcomes.map_values(|o: Option<CarvePlan>| plan_view(o))
}

/// What is collected says what is said by the items.
pub(crate) proof fn somes_say(outcomes: Seq<Option<CarvePlan>>)
    ensures
        plan_views(somes(outcomes)) == somes(outcome_views(outcomes)),
    decreases outcomes.len(),
{
    let all = outcome_views(outcomes);
    if outcomes.len() == 0 {
        assert(plan_views(somes(outcomes)) =~= somes(all));
    } else {
        somes_say(outcomes.drop_last());
        assert(all.drop_last() =~= outcome_views(outcomes.drop_last()));
        assert(all.last() == plan_view(outcomes.last()));
        assert(plan_views(somes(outcomes)) =~= somes(all));
    }
}

/// The plans that start at `offset`.
pub open spec fn views_at(plans: Seq<PlanView>, offset: int) -> Seq<PlanView>
    decreases plans.len(),
{
    if plans.len() == 0 {
        Seq::empty()
    } else {
        let before = views_at(plans.drop_last(), offset);
        if plans.last().offset == offset {
            before.push(plans.last())
        } else {
            before
        }
    }
}

/// The plans that start somewhere say what is said of that place.
proof fn starting_at_says(plans: Seq<CarvePlan>, offset: u64)
    ensures
        plan_views(starting_at(plans, offset)) == views_at(plan_views(plans), offset as int),
    decreases plans.len(),
{
    reveal(Seq::filter);
    let all = plan_views(plans);
    if plans.len() == 0 {
        assert(plan_views(starting_at(plans, offset)) =~= views_at(all, offset as int));
    } else {
        starting_at_says(plans.drop_last(), offset);
        assert(all.drop_last() =~= plan_views(plans.drop_last()));
        assert(all.last() == plans.last()@);
        assert(plan_views(starting_at(plans, offset)) =~= views_at(all, offset as int));
    }
}

/// Whether plans are ordered by offset.
pub open spec fn ordered_views(plans: Seq<PlanView>) -> bool {
    forall|i: int, j: int|
        0 <= i <= j < plans.len() ==> #[trigger] plans[i].offset <= #[trigger] plans[j].offset
}

/// A plan stands among those that start where it does.
proof fn stands_at_its_offset(plans: Seq<PlanView>, i: int)
    requires
        0 <= i < plans.len(),
    ensures
        views_at(plans, plans[i].offset).len() > 0,
    decreases plans.len(),
{
    if i < plans.len() - 1 {
        assert(plans.drop_last()[i] == plans[i]);
        stands_at_its_offset(plans.drop_last(), i);
    }
}

/// Where something starts, one of the plans does.
proof fn one_starts_there(plans: Seq<PlanView>, offset: int) -> (i: int)
    requires
        views_at(plans, offset).len() > 0,
    ensures
        0 <= i < plans.len(),
        plans[i].offset == offset,
    decreases plans.len(),
{
    if plans.last().offset == offset {
        plans.len() - 1
    } else {
        one_starts_there(plans.drop_last(), offset)
    }
}

/// There is one order by offset that keeps the order of plans with equal
/// offsets.
pub(crate) proof fn order_is_determined(a: Seq<PlanView>, b: Seq<PlanView>)
    requires
        ordered_views(a),
        ordered_views(b),
        forall|offset: int| #[trigger] views_at(a, offset) == views_at(b, offset),
    ensures
        a == b,
    decreases a.len(),
{
    if a.len() == 0 {
        if b.len() > 0 {
            stands_at_its_offset(b, 0);
            assert(views_at(a, b[0].offset) == views_at(b, b[0].offset));
        }
        assert(a =~= b);
    } else {
        let x = a.last();
        let m = a.len() - 1;
        stands_at_its_offset(a, m);
        assert(views_at(a, x.offset) == views_at(b, x.offset));
        let i = one_starts_there(b, x.offset);
        let y = b.last();
        let n = b.len() - 1;
        stands_at_its_offset(b, n);
        assert(views_at(a, y.offset) == views_at(b, y.offset));
        let j = one_starts_there(a, y.offset);
        assert(b[i].offset <= b[n].offset);
        assert(a[j].offset <= a[m].offset);
        assert(x.offset == y.offset);
        assert(views_at(a, x.offset).last() == x);
        assert(views_at(b, y.offset).last() == y);
        let fewer_a = a.drop_last();
        let fewer_b = b.drop_last();
        assert forall|offset: int| #[trigger] views_at(fewer_a, offset) == views_at(
            fewer_b,
            offset,
        ) by {
            assert(views_at(a, offset) == views_at(b, offset));
            if offset == x.offset {
                assert(views_at(fewer_a, offset) =~= views_at(a, offset).drop_last());
                assert(views_at(fewer_b, offset) =~= views_at(b, offset).drop_last());
            }
        }
        assert(ordered_views(fewer_a)) by {
            assert forall|p: int, q: int| 0 <= p <= q < fewer_a.len() implies #[trigger]
                fewer_a[p].offset <= #[trigger] fewer_a[q].offset by {
                assert(a[p].offset <= a[q].offset);
            }
        }
        assert(ordered_views(fewer_b)) by {
            assert forall|p: int, q: int| 0 <= p <= q < fewer_b.len() implies #[trigger]
                fewer_b[p].offset <= #[trigger] fewer_b[q].offset by {
                assert(b[p].offset <= b[q].offset);
            }
        }
        order_is_determined(fewer_a, fewer_b);
        assert(a =~= fewer_a.push(x));
        assert(b =~= fewer_b.push(y));
    }
}

/// Whether a plan starts inside one of the same type.
pub open spec fn covered_view(kept: Seq<PlanView>, plan: PlanView) -> bool {
    exists|k: int|
        0 <= k < kept.len() && (#[trigger] kept[k]).file_type == plan.file_type && kept[k].offset
            <= plan.offset < kept[k].offset + kept[k].size
}

/// What is kept of plans.
pub open spec fn kept_views(plans: Seq<PlanView>) -> Seq<PlanView>
    decreases plans.len(),
{
    if plans.len() == 0 {
        Seq::empty()
    } else {
        let kept = kept_views(plans.drop_last());
        if covered_view(kept, plans.last()) {
            kept
        } else {
            kept.push(plans.last())
        }
    }
}

/// What the plans say decides what is kept of them.
pub(crate) proof fn deduplicated_says(plans: Seq<CarvePlan>)
    ensures
        plan_views(deduplicated(plans)) == kept_views(plan_views(plans)),
    decreases plans.len(),
{
    let all = plan_views(plans);
    if plans.len() == 0 {
        assert(plan_views(deduplicated(plans)) =~= kept_views(all));
    } else {
        let rest = plans.drop_last();
        deduplicated_says(rest);
        assert(all.drop_last() =~= plan_views(rest));
        assert(all.last() == plans.last()@);
        let kept = deduplicated(rest);
        let seen = plan_views(kept);
        let p = plans.last();
        assert(covered(kept, p) == covered_view(seen, p@)) by {
            if covered(kept, p) {
                let k = choose|k: int|
                    0 <= k < kept.len() && (#[trigger] kept[k]).file_type@ == p.file_type@
                        && kept[k].offset <= p.offset < kept[k].offset + kept[k].size;
                assert(seen[k].file_type == p@.file_type);
            }
            if covered_view(seen, p@) {
                let k = choose|k: int|
                    0 <= k < seen.len() && (#[trigger] seen[k]).file_type == p@.file_type
                        && seen[k].offset <= p@.offset < seen[k].offset + seen[k].size;
                assert(kept[k].file_type@ == p.file_type@);
            }
        }
        assert(plan_views(deduplicated(plans)) =~= kept_views(all));
    }
}

/// What a list says when it is ordered follows from what it says.
pub(crate) proof fn ordered_says(before: Seq<CarvePlan>, after: Seq<CarvePlan>, offset: int)
    requires
        stably_ordered(before, after),
    ensures
        views_at(plan_views(after), offset) == views_at(plan_views(before), offset),
{
    if 0 <= offset <= u64::MAX {
        let o = offset as u64;
        starting_at_says(before, o);
        starting_at_says(after, o);
        assert(starting_at(after, o) == starting_at(before, o));
    } else {
        nothing_outside(before, offset);
        nothing_outside(after, offset);
    }
}

/// No plan starts beyond the 64-bit range.
proof fn nothing_outside(plans: Seq<CarvePlan>, offset: int)
    requires
        !(0 <= offset <= u64::MAX),
    ensures
        views_at(plan_views(plans), offset) == Seq::<PlanView>::empty(),
    decreases plans.len(),
{
    if plans.len() > 0 {
        nothing_outside(plans.drop_last(), offset);
        assert(plan_views(plans).drop_last() =~= plan_views(plans.drop_last()));
        assert(plan_views(plans).last() == plans.last()@);
    }
}

/// The hits on a steady source lead to one list of plans.
pub proof fn plans_are_determined<R: ReadAt + ?Sized>(
    reader: &R,
    disk_size: int,
    headers: Seq<(u64, usize)>,
    footers: Seq<(u64, usize)>,
    sigs: Seq<SignatureView>,
    max_size: int,
    filter: Option<Set<Seq<char>>>,
    a: Seq<CarvePlan>,
    b: Seq<CarvePlan>,
)
    requires
        steady(reader),
        plans_may(reader, disk_size, headers, footers, sigs, max_size, filter, a),
        plans_may(reader, disk_size, headers, footers, sigs, max_size, filter, b),
    ensures
        plan_views(a) == plan_views(b),
{
    let (x, p) = choose|outcomes: Seq<Option<CarvePlan>>, ordered: Seq<CarvePlan>|
        {
            &&& hits_planned(
                reader,
                disk_size,
                headers,
                footers,
                sigs,
                max_size,
                filter,
                outcomes,
            )
            &&& #[trigger] stably_ordered(somes(outcomes), ordered)
            &&& a == deduplicated(ordered)
        };
    let (y, q) = choose|outcomes: Seq<Option<CarvePlan>>, ordered: Seq<CarvePlan>|
        {
            &&& hits_planned(
                reader,
                disk_size,
                headers,
                footers,
                sigs,
                max_size,
                filter,
                outcomes,
            )
            &&& #[trigger] stably_ordered(somes(outcomes), ordered)
            &&& b == deduplicated(ordered)
        };
    assert forall|i: int| 0 <= i < headers.len() implies plan_view(x[i]) == plan_view(y[i]) by {
        plan_is_determined(
            reader,
            disk_size,
            headers[i].0 as int,
            sigs[headers[i].1 as int],
            footers_of(footers, headers[i].1 as int),
            max_size,
            filter,
            plan_view(x[i]),
            plan_view(y[i]),
        );
    }
    assert(outcome_views(x) =~= outcome_views(y));
    somes_say(x);
    somes_say(y);
    let v = plan_views(p);
    let w = plan_views(q);
    assert forall|offset: int| #[trigger] views_at(v, offset) == views_at(w, offset) by {
        ordered_says(somes(x), p, offset);
        ordered_says(somes(y), q, offset);
    }
    assert(ordered_views(v)) by {
        assert forall|i: int, j: int| 0 <= i <= j < v.len() implies #[trigger] v[i].offset
            <= #[trigger] v[j].offset by {
            assert(p[i].offset <= p[j].offset);
        }
    }
    assert(ordered_views(w)) by {
        assert forall|i: int, j: int| 0 <= i <= j < w.len() implies #[trigger] w[i].offset
            <= #[trigger] w[j].offset by {
            assert(q[i].offset <= q[j].offset);
        }
    }
    order_is_determined(v, w);
    deduplicated_says(p);
    deduplicated_says(q);
}

/// A file that states a size up to the cap is given that size, and is not marked
/// as truncated.
pub proof fn stated_size_is_taken<R: ReadAt + ?Sized>(
    reader: &R,
    disk_size: int,
    hit: int,
    sig: SignatureView,
    footers: Seq<u64>,
    max_size: int,
    filter: Option<Set<Seq<char>>>,
    plan: PlanView,
    stated: int,
)
    requires
        steady(reader),
        plan_may(reader, disk_size, hit, sig, footers, max_size, filter, Some(plan)),
        capped(
            sig.parser,
            stated,
            size_cap(sig, max_size, disk_size, plan.offset),
        ) == (stated, false),
        stated_size_may(
            reader,
            sig.parser,
            plan.offset,
            size_cap(sig, max_size, disk_size, plan.offset),
            Some(stated),
        ),
    ensures
        plan.size == stated,
        !plan.truncated,
{
    let off = plan.offset;
    let cap = size_cap(sig, max_size, disk_size, off);
    let sized = size_of_plan(reader, disk_size, hit, sig, footers, max_size, filter, plan);
    let x = choose|s: Option<int>| #[trigger]
        stated_size_may(reader, sig.parser, off, cap, s) && sized_by(
            reader,
            sig,
            footers,
            off,
            cap,
            s,
            Some(sized),
        );
    stated_size_once(reader, sig.parser, off, cap, x, Some(stated));
}

// ---------------------------------------------------------------------------
// Scans and runs
// ---------------------------------------------------------------------------

/// Reading block by block ends in one way.
proof fn blocks_once<R: ReadAt + ?Sized>(
    reader: &R,
    pos: int,
    len: int,
    block: int,
    a: Seq<u8>,
    notes: Seq<Seq<char>>,
    b: Seq<u8>,
    other_notes: Seq<Seq<char>>,
)
    requires
        steady(reader),
        blocks_may(reader, pos, len, block, a, notes),
        blocks_may(reader, pos, len, block, b, other_notes),
    ensures
        a == b,
        notes == other_notes,
    decreases len,
{
    if len > 0 && block > 0 {
        let n = least(block, len);
        let at = pos as u64;
        if reader.may_read(at, n as nat, Ok(a.take(n))) {
            assert(reader.may_read(at, n as nat, Ok(b.take(n))));
            assert(Ok::<Seq<u8>, IoErrorView>(a.take(n)) == Ok::<Seq<u8>, IoErrorView>(b.take(n)));
            blocks_once(
                reader,
                pos + n,
                len - n,
                block,
                a.skip(n),
                notes,
                b.skip(n),
                other_notes,
            );
        } else {
            blocks_once(
                reader,
                pos + n,
                len - n,
                block,
                a.skip(n),
                notes.drop_first(),
                b.skip(n),
                other_notes.drop_first(),
            );
            assert(notes =~= seq![notes[0]] + notes.drop_first());
            assert(other_notes =~= seq![other_notes[0]] + other_notes.drop_first());
        }
        assert(a =~= a.take(n) + a.skip(n));
        assert(b =~= b.take(n) + b.skip(n));
    } else {
        assert(a =~= b);
        assert(notes =~= other_notes);
    }
}

/// Reading a chunk ends in one way.
proof fn span_once<R: ReadAt + ?Sized>(
    reader: &R,
    pos: int,
    len: int,
    block: int,
    a: Seq<u8>,
    notes: Seq<Seq<char>>,
    b: Seq<u8>,
    other_notes: Seq<Seq<char>>,
)
    requires
        steady(reader),
        0 < len,
        span_may(reader, pos, len, block, a, notes),
        span_may(reader, pos, len, block, b, other_notes),
    ensures
        a == b,
        notes == other_notes,
{
    let at = pos as u64;
    if reader.may_read(at, len as nat, Ok(a)) {
        assert(reader.may_read(at, len as nat, Ok(b)));
        assert(Ok::<Seq<u8>, IoErrorView>(a) == Ok::<Seq<u8>, IoErrorView>(b));
        assert(notes =~= other_notes);
    } else if len > block {
        blocks_once(reader, pos, len, block, a, notes, b, other_notes);
    }
}

/// A steady source is seen in one way.
proof fn source_once<R: ReadAt + ?Sized>(
    reader: &R,
    pos: int,
    total: int,
    block: int,
    chunk: int,
    a: Seq<u8>,
    notes: Seq<Seq<char>>,
    b: Seq<u8>,
    other_notes: Seq<Seq<char>>,
)
    requires
        steady(reader),
        source_may(reader, pos, total, block, chunk, a, notes),
        source_may(reader, pos, total, block, chunk, b, other_notes),
    ensures
        a == b,
        notes == other_notes,
    decreases total - pos,
{
    if pos < total && chunk > 0 {
        let n = least(chunk, total - pos);
        let x = choose|here: Seq<Seq<char>>|
            {
                &&& #[trigger] span_may(reader, pos, n, block, a.take(n), here)
                &&& here.is_prefix_of(notes)
                &&& source_may(
                    reader,
                    pos + n,
                    total,
                    block,
                    chunk,
                    a.skip(n),
                    notes.skip(here.len() as int),
                )
            };
        let y = choose|here: Seq<Seq<char>>|
            {
                &&& #[trigger] span_may(reader, pos, n, block, b.take(n), here)
                &&& here.is_prefix_of(other_notes)
                &&& source_may(
                    reader,
                    pos + n,
                    total,
                    block,
                    chunk,
                    b.skip(n),
                    other_notes.skip(here.len() as int),
                )
            };
        span_once(reader, pos, n, block, a.take(n), x, b.take(n), y);
        let k = x.len() as int;
        source_once(
            reader,
            pos + n,
            total,
            block,
            chunk,
            a.skip(n),
            notes.skip(k),
            b.skip(n),
            other_notes.skip(k),
        );
        assert(a =~= a.take(n) + a.skip(n));
        assert(b =~= b.take(n) + b.skip(n));
        assert(notes =~= x + notes.skip(k));
        assert(other_notes =~= x + other_notes.skip(k));
    } else {
        assert(a =~= b);
        assert(notes =~= other_notes);
    }
}

/// Two scans of a steady source in the same steps see the same bytes and say the
/// same of reads that failed, whatever they scan for.
pub proof fn scans_see_the_same<
    R: ReadAt + ?Sized,
    F: FnMut(u64, usize),
    G: FnMut(u64, usize),
>(
    reader: &R,
    total: int,
    block_size: int,
    chunk_size: int,
    patterns: Seq<PatternView>,
    progress: F,
    seen: Seq<u8>,
    a: ScanResult,
    other_patterns: Seq<PatternView>,
    other_progress: G,
    also_seen: Seq<u8>,
    b: ScanResult,
)
    requires
        steady(reader),
        scan_may(reader, total, block_size, chunk_size, patterns, progress, seen, a),
        scan_may(
            reader,
            total,
            block_size,
            chunk_size,
            other_patterns,
            other_progress,
            also_seen,
            b,
        ),
    ensures
        seen == also_seen,
        texts(a.errors@) == texts(b.errors@),
{
    source_once(
        reader,
        0,
        total,
        block_used(block_size),
        chunk_used(block_size, chunk_size),
        seen,
        texts(a.errors@),
        also_seen,
        texts(b.errors@),
    );
}

/// Two runs over a steady source with the same choices find the same and plan
/// the same.
pub proof fn runs_are_determined<
    R: ReadAt + ?Sized,
    F: FnMut(u64, usize),
    G: FnMut(u64, usize),
>(
    reader: &R,
    total: int,
    block_size: int,
    chunk_size: int,
    sigs: Seq<SignatureView>,
    patterns: Seq<PatternView>,
    max_size: int,
    filter: Option<Set<Seq<char>>>,
    progress: F,
    seen: Seq<u8>,
    found: ScanResult,
    a: Seq<CarvePlan>,
    other_progress: G,
    also_seen: Seq<u8>,
    also_found: ScanResult,
    b: Seq<CarvePlan>,
)
    requires
        steady(reader),
        scan_may(reader, total, block_size, chunk_size, patterns, progress, seen, found),
        plans_may(
            reader,
            total,
            found.headers@,
            found.footers@,
            sigs,
            max_size,
            filter,
            a,
        ),
        scan_may(
            reader,
            total,
            block_size,
            chunk_size,
            patterns,
            other_progress,
            also_seen,
            also_found,
        ),
        plans_may(
            reader,
            total,
            also_found.headers@,
            also_found.footers@,
            sigs,
            max_size,
            filter,
            b,
        ),
    ensures
        found.headers@ == also_found.headers@,
        found.footers@ == also_found.footers@,
        found.bytes_scanned == also_found.bytes_scanned,
        texts(found.errors@) == texts(also_found.errors@),
        plan_views(a) == plan_views(b),
{
    scans_see_the_same(
        reader,
        total,
        block_size,
        chunk_size,
        patterns,
        progress,
        seen,
        found,
        patterns,
        other_progress,
        also_seen,
        also_found,
    );
    plans_are_determined(
        reader,
        total,
        found.headers@,
        found.footers@,
        sigs,
        max_size,
        filter,
        a,
        b,
    );
}

} // verus!
