//! What the choices of a run change, and what they leave alone: the largest
//! size of a file, and the types that are wanted.

use vstd::prelude::*;
use vstd::relations::sorted_by;

use crate::carver::{
    accepted_may, ascending_offsets, deduplicated, file_start, footer_end_may, footer_search_may,
    footers_of, hits_planned, must_parse, offsets_with, plan_may, plan_view, plans_may,
    resolved_late, size_cap, size_may, somes, stably_ordered, stated_size_may, unstated_size_may,
    validation_may, CarvePlan, PlanView,
};
use crate::disk::{steady, ReadAt};
use crate::filter::{active_among, is_active, passes};
use crate::plan_laws::database_can_be_scanned;
use crate::recovery::wanted_patterns;
use crate::report::plan_views;
use crate::scan_laws::scan_finds_every_match;
use crate::scanner::{
    chunk_used, hits_at, hits_between, patterns_of, scan_hits, scan_may, PatternView, ScanResult,
};
use crate::signatures::{signature_table, SignatureView, Validator};
use crate::size_laws::{stated_size_once, stated_size_outlasts_the_cap};
use crate::sizes::{least, zip_type_may};
use crate::steady_laws::{
    covered_view, deduplicated_says, footer_end_once, kept_views, order_is_determined,
    ordered_says, ordered_views, outcome_views, planned_by, scans_see_the_same, size_once,
    sized_by, somes_say,
    validation_once, views_at, zip_plan, zip_type_once,
};

verus! {

// ---------------------------------------------------------------------------
// The steps of planning
// ---------------------------------------------------------------------------

/// The outcome of validation on which a plan rests.
pub(crate) proof fn verdict_of<R: ReadAt + ?Sized>(
    reader: &R,
    disk_size: int,
    hit: int,
    sig: SignatureView,
    footers: Seq<u64>,
    max_size: int,
    filter: Option<Set<Seq<char>>>,
    plan: Option<PlanView>,
    off: int,
) -> (verdict: Option<(Seq<char>, Seq<char>)>)
    requires
        plan_may(reader, disk_size, hit, sig, footers, max_size, filter, plan),
        file_start(sig, hit) == Some(off),
        resolved_late(sig) || passes(filter, sig.name),
        off <= disk_size,
        size_cap(sig, max_size, disk_size, off) >= sig.min_size,
    ensures
        validation_may(reader, sig, off, verdict),
        match verdict {
            None => plan is None,
            Some(v) => accepted_may(
                reader,
                sig,
                footers,
                filter,
                off,
                size_cap(sig, max_size, disk_size, off),
                v.0,
                v.1,
                plan,
            ),
        },
{
    let cap = size_cap(sig, max_size, disk_size, off);
    choose|verdict: Option<(Seq<char>, Seq<char>)>| #[trigger]
        validation_may(reader, sig, off, verdict) && (match verdict {
            None => plan is None,
            Some(v) => accepted_may(reader, sig, footers, filter, off, cap, v.0, v.1, plan),
        })
}

/// The size on which the plan for a validated file rests.
pub(crate) proof fn accepted_size<R: ReadAt + ?Sized>(
    reader: &R,
    sig: SignatureView,
    footers: Seq<u64>,
    filter: Option<Set<Seq<char>>>,
    off: int,
    cap: int,
    name: Seq<char>,
    extension: Seq<char>,
    plan: Option<PlanView>,
) -> (sized: Option<(int, bool)>)
    requires
        sig.name == "ftyp"@ ==> passes(filter, name),
        accepted_may(reader, sig, footers, filter, off, cap, name, extension, plan),
    ensures
        size_may(reader, sig, footers, off, cap, sized),
        planned_by(reader, sig, filter, off, name, extension, sized, plan),
{
    choose|sized: Option<(int, bool)>| #[trigger]
        size_may(reader, sig, footers, off, cap, sized) && planned_by(
            reader,
            sig,
            filter,
            off,
            name,
            extension,
            sized,
            plan,
        )
}

/// The size that a file states, on which its size rests.
pub(crate) proof fn stated_of<R: ReadAt + ?Sized>(
    reader: &R,
    sig: SignatureView,
    footers: Seq<u64>,
    off: int,
    cap: int,
    sized: Option<(int, bool)>,
) -> (stated: Option<int>)
    requires
        size_may(reader, sig, footers, off, cap, sized),
    ensures
        stated_size_may(reader, sig.parser, off, cap, stated),
        sized_by(reader, sig, footers, off, cap, stated, sized),
{
    choose|stated: Option<int>| #[trigger]
        stated_size_may(reader, sig.parser, off, cap, stated) && sized_by(
            reader,
            sig,
            footers,
            off,
            cap,
            stated,
            sized,
        )
}

/// Where a footer ends the file that states no size.
pub(crate) proof fn footer_of<R: ReadAt + ?Sized>(
    reader: &R,
    sig: SignatureView,
    footers: Seq<u64>,
    off: int,
    cap: int,
    sized: (int, bool),
) -> (end: Option<int>)
    requires
        sig.footer is Some,
        unstated_size_may(reader, sig, footers, off, cap, sized),
    ensures
        footer_search_may(reader, sig, sig.footer->0, footers, 0, off, cap, end),
        sized == (match end {
            Some(e) => (e - off, false),
            None => (cap, true),
        }),
{
    let footer = sig.footer->0;
    choose|end: Option<int>| #[trigger]
        footer_search_may(reader, sig, footer, footers, 0, off, cap, end) && sized == (match end {
            Some(e) => (e - off, false),
            None => (cap, true),
        })
}

// ---------------------------------------------------------------------------
// A larger maximum
// ---------------------------------------------------------------------------

/// Whether the footer at `f` may end a file at `off` with a size that is large
/// enough and no larger than `cap`.
#[verifier::opaque]
pub open spec fn may_fit<R: ReadAt + ?Sized>(
    reader: &R,
    sig: SignatureView,
    footer: Seq<u8>,
    f: int,
    off: int,
    cap: int,
) -> bool {
    f > off && exists|e: int| #[trigger]
        footer_end_may(reader, sig, footer, f, e) && sig.min_size <= e - off <= cap
}

/// Whether the cap `wider` in place of `cap` lets an earlier footer end the file
/// at `off`: one that ends beyond `cap`, but not beyond `wider`, with none before
/// it that ends the file within `cap`. Only the footer of a ZIP file can be so,
/// for only it can end after a footer that stands after it.
#[verifier::opaque]
pub open spec fn ends_sooner<R: ReadAt + ?Sized>(
    reader: &R,
    sig: SignatureView,
    footer: Seq<u8>,
    footers: Seq<u64>,
    off: int,
    cap: int,
    wider: int,
) -> bool {
    exists|j: int|
        #![trigger footers[j]]
        {
            &&& 0 <= j < footers.len()
            &&& may_fit(reader, sig, footer, footers[j] as int, off, wider)
            &&& forall|i: int|
                0 <= i <= j ==> !may_fit(
                    reader,
                    sig,
                    footer,
                    (#[trigger] footers[i]) as int,
                    off,
                    cap,
                )
        }
}

/// A search within a wider cap finds what one within a cap finds, unless a
/// footer ends the file sooner there.
proof fn search_outlasts_the_cap<R: ReadAt + ?Sized>(
    reader: &R,
    sig: SignatureView,
    footer: Seq<u8>,
    footers: Seq<u64>,
    k: int,
    off: int,
    cap: int,
    wider: int,
    end: int,
    b: Option<int>,
)
    requires
        steady(reader),
        cap <= wider,
        0 <= k,
        !ends_sooner(reader, sig, footer, footers, off, cap, wider),
        forall|i: int|
            0 <= i < k && i < footers.len() ==> !may_fit(
                reader,
                sig,
                footer,
                (#[trigger] footers[i]) as int,
                off,
                cap,
            ),
        footer_search_may(reader, sig, footer, footers, k, off, cap, Some(end)),
        footer_search_may(reader, sig, footer, footers, k, off, wider, b),
    ensures
        b == Some(end),
    decreases footers.len() - k,
{
    let f = footers[k] as int;
    if f <= off {
        assert(!may_fit(reader, sig, footer, f, off, cap)) by {
            reveal(may_fit);
        }
        search_outlasts_the_cap(
            reader,
            sig,
            footer,
            footers,
            k + 1,
            off,
            cap,
            wider,
            end,
            b,
        );
    } else {
        let x = choose|e: int| #[trigger]
            footer_end_may(reader, sig, footer, f, e) && (if sig.min_size <= e - off <= cap {
                end == e
            } else {
                footer_search_may(reader, sig, footer, footers, k + 1, off, cap, Some(end))
            });
        let y = choose|e: int| #[trigger]
            footer_end_may(reader, sig, footer, f, e) && (if sig.min_size <= e - off <= wider {
                b == Some(e)
            } else {
                footer_search_may(reader, sig, footer, footers, k + 1, off, wider, b)
            });
        footer_end_once(reader, sig, footer, f, x, y);
        if !(sig.min_size <= x - off <= cap) {
            unfit_once(reader, sig, footer, f, off, cap, x);
            if sig.min_size <= x - off <= wider {
                assert(may_fit(reader, sig, footer, footers[k] as int, off, wider)) by {
                    reveal(may_fit);
                }
                assert(ends_sooner(reader, sig, footer, footers, off, cap, wider)) by {
                    reveal(ends_sooner);
                }
            } else {
                search_outlasts_the_cap(
                    reader,
                    sig,
                    footer,
                    footers,
                    k + 1,
                    off,
                    cap,
                    wider,
                    end,
                    b,
                );
            }
        }
    }
}

/// A footer that does not fit once never does.
proof fn unfit_once<R: ReadAt + ?Sized>(
    reader: &R,
    sig: SignatureView,
    footer: Seq<u8>,
    f: int,
    off: int,
    cap: int,
    x: int,
)
    requires
        steady(reader),
        footer_end_may(reader, sig, footer, f, x),
        !(sig.min_size <= x - off <= cap),
    ensures
        !may_fit(reader, sig, footer, f, off, cap),
{
    reveal(may_fit);
    if may_fit(reader, sig, footer, f, off, cap) {
        let e = choose|e: int| #[trigger]
            footer_end_may(reader, sig, footer, f, e) && sig.min_size <= e - off <= cap;
        footer_end_once(reader, sig, footer, f, x, e);
    }
}

/// The footer that ends a file is one that fits.
proof fn found_footer_fits<R: ReadAt + ?Sized>(
    reader: &R,
    sig: SignatureView,
    footer: Seq<u8>,
    footers: Seq<u64>,
    k: int,
    off: int,
    cap: int,
    end: int,
) -> (m: int)
    requires
        0 <= k,
        footer_search_may(reader, sig, footer, footers, k, off, cap, Some(end)),
    ensures
        k <= m < footers.len(),
        footers[m] > off,
        footer_end_may(reader, sig, footer, footers[m] as int, end),
        sig.min_size <= end - off <= cap,
    decreases footers.len() - k,
{
    let f = footers[k] as int;
    if f > off {
        let e = choose|e: int| #[trigger]
            footer_end_may(reader, sig, footer, f, e) && (if sig.min_size <= e - off <= cap {
                end == e
            } else {
                footer_search_may(reader, sig, footer, footers, k + 1, off, cap, Some(end))
            });
        if sig.min_size <= e - off <= cap {
            k
        } else {
            found_footer_fits(reader, sig, footer, footers, k + 1, off, cap, end)
        }
    } else {
        found_footer_fits(reader, sig, footer, footers, k + 1, off, cap, end)
    }
}

/// Footers that end the file where they end themselves end it no sooner.
proof fn plain_footers_end_no_sooner<R: ReadAt + ?Sized>(
    reader: &R,
    sig: SignatureView,
    footer: Seq<u8>,
    footers: Seq<u64>,
    off: int,
    cap: int,
    wider: int,
    end: int,
)
    requires
        sig.name != "zip"@,
        sorted_by(footers, ascending_offsets()),
        footer_search_may(reader, sig, footer, footers, 0, off, cap, Some(end)),
    ensures
        !ends_sooner(reader, sig, footer, footers, off, cap, wider),
{
    reveal(may_fit);
    reveal(ends_sooner);
    if ends_sooner(reader, sig, footer, footers, off, cap, wider) {
        let m = found_footer_fits(reader, sig, footer, footers, 0, off, cap, end);
        let j = choose|j: int|
            #![trigger footers[j]]
            {
                &&& 0 <= j < footers.len()
                &&& may_fit(reader, sig, footer, footers[j] as int, off, wider)
                &&& forall|i: int|
                    0 <= i <= j ==> !may_fit(
                        reader,
                        sig,
                        footer,
                        (#[trigger] footers[i]) as int,
                        off,
                        cap,
                    )
            };
        let e = choose|e: int| #[trigger]
            footer_end_may(reader, sig, footer, footers[j] as int, e) && sig.min_size <= e - off
                <= wider;
        assert(may_fit(reader, sig, footer, footers[m] as int, off, cap));
        if j < m {
            assert(ascending_offsets()(footers[j], footers[m]));
            assert(footer_end_may(reader, sig, footer, footers[j] as int, e));
            assert(may_fit(reader, sig, footer, footers[j] as int, off, cap));
        }
    }
}

/// A size that is not cut off is the same within a wider cap.
proof fn size_outlasts_the_cap<R: ReadAt + ?Sized>(
    reader: &R,
    sig: SignatureView,
    footers: Seq<u64>,
    off: int,
    cap: int,
    wider: int,
    n: int,
    b: Option<(int, bool)>,
)
    requires
        steady(reader),
        cap <= wider,
        off + wider <= u64::MAX,
        sorted_by(footers, ascending_offsets()),
        sig.name == "zip"@ && sig.footer is Some ==> !ends_sooner(
            reader,
            sig,
            sig.footer->0,
            footers,
            off,
            cap,
            wider,
        ),
        size_may(reader, sig, footers, off, cap, Some((n, false))),
        size_may(reader, sig, footers, off, wider, b),
    ensures
        b == Some((n, false)),
{
    let x = stated_of(reader, sig, footers, off, cap, Some((n, false)));
    let y = stated_of(reader, sig, footers, off, wider, b);
    if let Some(s) = x {
        stated_size_outlasts_the_cap(reader, sig.parser, off, cap, wider, s, y);
    } else {
        assert(!must_parse(sig.parser));
        assert(stated_size_may(reader, sig.parser, off, wider, x));
        stated_size_once(reader, sig.parser, off, wider, x, y);
        let v = footer_of(reader, sig, footers, off, cap, (n, false));
        let w = footer_of(reader, sig, footers, off, wider, b->0);
        let footer = sig.footer->0;
        if sig.name != "zip"@ {
            plain_footers_end_no_sooner(reader, sig, footer, footers, off, cap, wider, v->0);
        }
        search_outlasts_the_cap(reader, sig, footer, footers, 0, off, cap, wider, v->0, w);
    }
}

/// A larger maximum leaves a plan alone that was not cut off. The one exception
/// is a ZIP file that an earlier footer ends once its comment is not too long.
pub proof fn whole_files_outlast_the_maximum<R: ReadAt + ?Sized>(
    reader: &R,
    disk_size: int,
    hit: int,
    sig: SignatureView,
    footers: Seq<u64>,
    max_size: int,
    larger: int,
    filter: Option<Set<Seq<char>>>,
    plan: PlanView,
    b: Option<PlanView>,
)
    requires
        steady(reader),
        disk_size <= u64::MAX,
        max_size <= larger,
        sorted_by(footers, ascending_offsets()),
        sig.name == "zip"@ && sig.footer is Some ==> !ends_sooner(
            reader,
            sig,
            sig.footer->0,
            footers,
            plan.offset,
            size_cap(sig, max_size, disk_size, plan.offset),
            size_cap(sig, larger, disk_size, plan.offset),
        ),
        plan_may(reader, disk_size, hit, sig, footers, max_size, filter, Some(plan)),
        !plan.truncated,
        plan_may(reader, disk_size, hit, sig, footers, larger, filter, b),
    ensures
        b == Some(plan),
{
    let off = file_start(sig, hit)->0;
    let a = Some(plan);
    let cap = size_cap(sig, max_size, disk_size, off);
    let wider = size_cap(sig, larger, disk_size, off);
    let u = verdict_of(reader, disk_size, hit, sig, footers, max_size, filter, a, off);
    let v = verdict_of(reader, disk_size, hit, sig, footers, larger, filter, b, off);
    validation_once(reader, sig, off, u, v);
    let (name, extension) = u->0;
    let x = accepted_size(reader, sig, footers, filter, off, cap, name, extension, a);
    let y = accepted_size(reader, sig, footers, filter, off, wider, name, extension, b);
    let z = x->0;
    assert(plan.offset == off && z == (plan.size, false));
    size_outlasts_the_cap(reader, sig, footers, off, cap, wider, plan.size, y);
    if sig.name == "zip"@ {
        let s = choose|kind: Seq<char>| #[trigger]
            zip_type_may(reader, off, z.0, kind) && a == zip_plan(filter, off, z, kind);
        let t = choose|kind: Seq<char>| #[trigger]
            zip_type_may(reader, off, z.0, kind) && b == zip_plan(filter, off, z, kind);
        zip_type_once(reader, off, z.0, s, t);
    }
}

// ---------------------------------------------------------------------------
// Types
// ---------------------------------------------------------------------------

/// Whether a plan is of a type that `filter` lets through.
pub open spec fn is_wanted(filter: Option<Set<Seq<char>>>) -> spec_fn(PlanView) -> bool {
    |p: PlanView| passes(filter, p.file_type)
}

/// A plan if it is of a type that `filter` lets through.
pub open spec fn narrowed(filter: Option<Set<Seq<char>>>, plan: Option<PlanView>) -> Option<
    PlanView,
> {
    match plan {
        Some(p) => if passes(filter, p.file_type) {
            Some(p)
        } else {
            None
        },
        None => None,
    }
}

/// A filter leaves of the plan for a hit what is of a wanted type, and changes
/// nothing else in it. Only the entry named "ftyp" is resolved by its brand, as
/// in the database.
pub proof fn filter_narrows_a_plan<R: ReadAt + ?Sized>(
    reader: &R,
    disk_size: int,
    hit: int,
    sig: SignatureView,
    footers: Seq<u64>,
    max_size: int,
    filter: Option<Set<Seq<char>>>,
    a: Option<PlanView>,
    b: Option<PlanView>,
)
    requires
        steady(reader),
        sig.validator == Validator::Ftyp ==> resolved_late(sig),
        plan_may(reader, disk_size, hit, sig, footers, max_size, filter, a),
        plan_may(reader, disk_size, hit, sig, footers, max_size, None, b),
    ensures
        a == narrowed(filter, b),
{
    reveal_strlit("zip");
    reveal_strlit("ftyp");
    assert("ftyp"@.len() != "zip"@.len());
    if let Some(off) = file_start(sig, hit) {
        let cap = size_cap(sig, max_size, disk_size, off);
        if off <= disk_size && cap >= sig.min_size {
            let v = verdict_of(reader, disk_size, hit, sig, footers, max_size, None, b, off);
            if v is Some {
                let (name, extension) = v->0;
                let y = accepted_size(reader, sig, footers, None, off, cap, name, extension, b);
                assert(sig.validator != Validator::Ftyp ==> name == sig.name);
                assert(b is Some && sig.name != "zip"@ ==> b->0.file_type == name);
                if resolved_late(sig) || passes(filter, sig.name) {
                    let u = verdict_of(
                        reader,
                        disk_size,
                        hit,
                        sig,
                        footers,
                        max_size,
                        filter,
                        a,
                        off,
                    );
                    validation_once(reader, sig, off, u, v);
                    if !(sig.name == "ftyp"@ && !passes(filter, name)) {
                        let x = accepted_size(
                            reader,
                            sig,
                            footers,
                            filter,
                            off,
                            cap,
                            name,
                            extension,
                            a,
                        );
                        size_once(reader, sig, footers, off, cap, x, y);
                        if sig.name == "zip"@ && x is Some {
                            let z = x->0;
                            if z.0 >= sig.min_size {
                                let s = choose|kind: Seq<char>| #[trigger]
                                    zip_type_may(reader, off, z.0, kind) && a == zip_plan(
                                        filter,
                                        off,
                                        z,
                                        kind,
                                    );
                                let t = choose|kind: Seq<char>| #[trigger]
                                    zip_type_may(reader, off, z.0, kind) && b == zip_plan(
                                        None,
                                        off,
                                        z,
                                        kind,
                                    );
                                zip_type_once(reader, off, z.0, s, t);
                            }
                        }
                    }
                }
            } else if resolved_late(sig) || passes(filter, sig.name) {
                let u = verdict_of(
                    reader,
                    disk_size,
                    hit,
                    sig,
                    footers,
                    max_size,
                    filter,
                    a,
                    off,
                );
                validation_once(reader, sig, off, u, v);
            }
        }
    }
}

/// A hit of a signature that can lead to no wanted type leads to none.
proof fn inactive_leads_elsewhere<R: ReadAt + ?Sized>(
    reader: &R,
    disk_size: int,
    hit: int,
    sig: SignatureView,
    footers: Seq<u64>,
    max_size: int,
    filter: Option<Set<Seq<char>>>,
    b: Option<PlanView>,
)
    requires
        !is_active(filter, sig.name),
        sig.validator == Validator::Ftyp <==> sig.name == "ftyp"@,
        plan_may(reader, disk_size, hit, sig, footers, max_size, None, b),
    ensures
        narrowed(filter, b) is None,
{
    reveal_strlit("zip");
    reveal_strlit("ftyp");
    if b is Some {
        let off = file_start(sig, hit)->0;
        let cap = size_cap(sig, max_size, disk_size, off);
        let v = verdict_of(reader, disk_size, hit, sig, footers, max_size, None, b, off);
        let (name, extension) = v->0;
        let y = accepted_size(reader, sig, footers, None, off, cap, name, extension, b);
        if sig.name == "ftyp"@ {
            assert(name == "mp4"@ || name == "mov"@);
        } else {
            assert(name == sig.name);
            if sig.name == "zip"@ {
                let z = y->0;
                let t = choose|kind: Seq<char>| #[trigger]
                    zip_type_may(reader, off, z.0, kind) && b == zip_plan(None, off, z, kind);
                assert(t == "zip"@ || t == "docx"@ || t == "xlsx"@ || t == "pptx"@);
            }
        }
    }
}

// ---------------------------------------------------------------------------
// Lists of plans
// ---------------------------------------------------------------------------

/// Collecting what some of the hits lead to, under a filter, leaves of what all
/// of them lead to what is of a wanted type. The hits that are left out lead to
/// nothing that is wanted.
proof fn narrowed_somes(
    filter: Option<Set<Seq<char>>>,
    hits: Seq<(u64, usize)>,
    keep: spec_fn((u64, usize)) -> bool,
    x: Seq<Option<PlanView>>,
    y: Seq<Option<PlanView>>,
)
    requires
        x.len() == hits.filter(keep).len(),
        y.len() == hits.len(),
        forall|i: int, j: int|
            #![trigger x[i], y[j]]
            0 <= i < x.len() && 0 <= j < y.len() && hits.filter(keep)[i] == hits[j] ==> x[i]
                == narrowed(filter, y[j]),
        forall|j: int|
            #![trigger y[j]]
            0 <= j < y.len() && !keep(hits[j]) ==> narrowed(filter, y[j]) is None,
    ensures
        somes(x) == somes(y).filter(is_wanted(filter)),
    decreases hits.len(),
{
    reveal(Seq::filter);
    if hits.len() == 0 {
        assert(somes(x) =~= somes(y).filter(is_wanted(filter)));
    } else {
        let rest = hits.drop_last();
        let last = hits.last();
        let few = y.drop_last();
        let kept = hits.filter(keep);
        let w = y.last();
        assert(w == y[y.len() - 1]);
        let fewer = if keep(last) {
            assert(kept.last() == last);
            assert(x.last() == x[x.len() - 1]);
            assert(x[x.len() - 1] == narrowed(filter, y[y.len() - 1]));
            x.drop_last()
        } else {
            x
        };
        assert forall|i: int, j: int|
            #![trigger fewer[i], few[j]]
            0 <= i < fewer.len() && 0 <= j < few.len() && rest.filter(keep)[i]
                == rest[j] implies fewer[i] == narrowed(filter, few[j]) by {
            assert(fewer[i] == x[i] && few[j] == y[j]);
            assert(kept[i] == rest.filter(keep)[i]);
        }
        assert forall|j: int|
            #![trigger few[j]]
            0 <= j < few.len() && !keep(rest[j]) implies narrowed(filter, few[j]) is None by {
            assert(few[j] == y[j]);
        }
        narrowed_somes(filter, rest, keep, fewer, few);
        if let Some(p) = w {
            somes(few).lemma_filter_push(p, is_wanted(filter));
        }
    }
}

/// Leaving out other types leaves the order at an offset.
proof fn narrowed_at(filter: Option<Set<Seq<char>>>, plans: Seq<PlanView>, offset: int)
    ensures
        views_at(plans.filter(is_wanted(filter)), offset) == views_at(plans, offset).filter(
            is_wanted(filter),
        ),
    decreases plans.len(),
{
    reveal(Seq::filter);
    let pick = is_wanted(filter);
    if plans.len() > 0 {
        let rest = plans.drop_last();
        let p = plans.last();
        narrowed_at(filter, rest, offset);
        assert(rest.push(p) =~= plans);
        rest.lemma_filter_push(p, pick);
        assert(rest.filter(pick).push(p).drop_last() =~= rest.filter(pick));
        views_at(rest, offset).lemma_filter_push(p, pick);
    }
}

/// What is left is still ordered.
proof fn narrowed_order(filter: Option<Set<Seq<char>>>, plans: Seq<PlanView>)
    requires
        ordered_views(plans),
    ensures
        ordered_views(plans.filter(is_wanted(filter))),
    decreases plans.len(),
{
    reveal(Seq::filter);
    let pick = is_wanted(filter);
    if plans.len() > 0 {
        let rest = plans.drop_last();
        let p = plans.last();
        let left = rest.filter(pick);
        let all = plans.filter(pick);
        narrowed_order(filter, rest);
        assert forall|i: int, j: int| 0 <= i <= j < all.len() implies #[trigger] all[i].offset
            <= #[trigger] all[j].offset by {
            if j < left.len() {
                assert(all[i] == left[i] && all[j] == left[j]);
            } else {
                assert(all[j] == p);
                if i < left.len() {
                    assert(all[i] == left[i]);
                    rest.lemma_filter_contains_rev(pick, left[i]);
                    let m = rest.index_of(left[i]);
                    assert(plans[m] == left[i] && plans[plans.len() - 1] == p);
                }
            }
        }
    }
}

/// Plans of other types keep no plan out.
proof fn narrowed_cover(filter: Option<Set<Seq<char>>>, kept: Seq<PlanView>, p: PlanView)
    requires
        passes(filter, p.file_type),
    ensures
        covered_view(kept.filter(is_wanted(filter)), p) == covered_view(kept, p),
{
    let pick = is_wanted(filter);
    let few = kept.filter(pick);
    if covered_view(kept, p) {
        let k = choose|k: int|
            0 <= k < kept.len() && (#[trigger] kept[k]).file_type == p.file_type && kept[k].offset
                <= p.offset < kept[k].offset + kept[k].size;
        kept.lemma_filter_contains(pick, k);
        let m = few.index_of(kept[k]);
        assert(few[m] == kept[k]);
        assert(few[m].file_type == p.file_type);
    }
    if covered_view(few, p) {
        let k = choose|k: int|
            0 <= k < few.len() && (#[trigger] few[k]).file_type == p.file_type && few[k].offset
                <= p.offset < few[k].offset + few[k].size;
        kept.lemma_filter_contains_rev(pick, few[k]);
        let m = kept.index_of(few[k]);
        assert(kept[m] == few[k]);
        assert(kept[m].file_type == p.file_type);
    }
}

/// Leaving out other types before plans are dropped or after comes to the same.
proof fn narrowed_kept(filter: Option<Set<Seq<char>>>, plans: Seq<PlanView>)
    ensures
        kept_views(plans.filter(is_wanted(filter))) == kept_views(plans).filter(is_wanted(filter)),
    decreases plans.len(),
{
    reveal(Seq::filter);
    let pick = is_wanted(filter);
    if plans.len() > 0 {
        let rest = plans.drop_last();
        let p = plans.last();
        narrowed_kept(filter, rest);
        assert(rest.push(p) =~= plans);
        rest.lemma_filter_push(p, pick);
        assert(rest.filter(pick).push(p).drop_last() =~= rest.filter(pick));
        kept_views(rest).lemma_filter_push(p, pick);
        if pick(p) {
            narrowed_cover(filter, kept_views(rest), p);
        }
    }
}

/// The plans that some of the hits lead to under a filter are those that all of
/// them lead to without one, less those of other types, in the same order. Hits
/// are left out only of signatures that can lead to no wanted type, and of such
/// a signature all of them or none.
pub proof fn filter_narrows_plans<R: ReadAt + ?Sized>(
    reader: &R,
    disk_size: int,
    hits: Seq<(u64, usize)>,
    ends: Seq<(u64, usize)>,
    sigs: Seq<SignatureView>,
    max_size: int,
    filter: Option<Set<Seq<char>>>,
    keep: spec_fn((u64, usize)) -> bool,
    a: Seq<CarvePlan>,
    b: Seq<CarvePlan>,
)
    requires
        steady(reader),
        forall|s: int|
            0 <= s < sigs.len() ==> ((#[trigger] sigs[s]).validator == Validator::Ftyp
                <==> sigs[s].name == "ftyp"@),
        forall|i: int| 0 <= i < hits.len() ==> (#[trigger] hits[i]).1 < sigs.len(),
        forall|h: (u64, usize)|
            h.1 < sigs.len() && !#[trigger] keep(h) ==> !is_active(filter, sigs[h.1 as int].name),
        forall|g: (u64, usize), h: (u64, usize)|
            g.1 == h.1 ==> #[trigger] keep(g) == #[trigger] keep(h),
        plans_may(
            reader,
            disk_size,
            hits.filter(keep),
            ends.filter(keep),
            sigs,
            max_size,
            filter,
            a,
        ),
        plans_may(reader, disk_size, hits, ends, sigs, max_size, None, b),
    ensures
        plan_views(a) == plan_views(b).filter(is_wanted(filter)),
{
    let few = hits.filter(keep);
    let (x, p) = choose|outcomes: Seq<Option<CarvePlan>>, ordered: Seq<CarvePlan>|
        {
            &&& hits_planned(
                reader,
                disk_size,
                few,
                ends.filter(keep),
                sigs,
                max_size,
                filter,
                outcomes,
            )
            &&& #[trigger] stably_ordered(somes(outcomes), ordered)
            &&& a == deduplicated(ordered)
        };
    let (y, q) = choose|outcomes: Seq<Option<CarvePlan>>, ordered: Seq<CarvePlan>|
        {
            &&& hits_planned(reader, disk_size, hits, ends, sigs, max_size, None, outcomes)
            &&& #[trigger] stably_ordered(somes(outcomes), ordered)
            &&& b == deduplicated(ordered)
        };
    let s = outcome_views(x);
    let t = outcome_views(y);
    assert forall|i: int, j: int|
        #![trigger s[i], t[j]]
        0 <= i < s.len() && 0 <= j < t.len() && few[i] == hits[j] implies s[i] == narrowed(
        filter,
        t[j],
    ) by {
        let si = hits[j].1 as int;
        assert(s[i] == plan_view(x[i]) && t[j] == plan_view(y[j]));
        hits.lemma_filter_pred(keep, i);
        kept_footers(ends, keep, si);
        filter_narrows_a_plan(
            reader,
            disk_size,
            hits[j].0 as int,
            sigs[si],
            footers_of(ends, si),
            max_size,
            filter,
            plan_view(x[i]),
            plan_view(y[j]),
        );
    }
    assert forall|j: int|
        #![trigger t[j]]
        0 <= j < t.len() && !keep(hits[j]) implies narrowed(filter, t[j]) is None by {
        let si = hits[j].1 as int;
        assert(t[j] == plan_view(y[j]));
        inactive_leads_elsewhere(
            reader,
            disk_size,
            hits[j].0 as int,
            sigs[si],
            footers_of(ends, si),
            max_size,
            filter,
            plan_view(y[j]),
        );
    }
    narrowed_somes(filter, hits, keep, s, t);
    somes_say(x);
    somes_say(y);
    let v = plan_views(p);
    let w = plan_views(q);
    ordered_lists_are_ordered(somes(x), p);
    ordered_lists_are_ordered(somes(y), q);
    narrowed_order(filter, w);
    assert forall|offset: int| #[trigger]
        views_at(v, offset) == views_at(w.filter(is_wanted(filter)), offset) by {
        ordered_says(somes(x), p, offset);
        ordered_says(somes(y), q, offset);
        narrowed_at(filter, w, offset);
        narrowed_at(filter, somes(t), offset);
    }
    order_is_determined(v, w.filter(is_wanted(filter)));
    deduplicated_says(p);
    deduplicated_says(q);
    narrowed_kept(filter, w);
}

/// A list in order says so.
proof fn ordered_lists_are_ordered(before: Seq<CarvePlan>, after: Seq<CarvePlan>)
    requires
        stably_ordered(before, after),
    ensures
        ordered_views(plan_views(after)),
{
    let v = plan_views(after);
    assert forall|i: int, j: int| 0 <= i <= j < v.len() implies #[trigger] v[i].offset
        <= #[trigger] v[j].offset by {
        assert(after[i].offset <= after[j].offset);
    }
}

/// The footers of a signature are kept if those of other signatures are left
/// out.
proof fn kept_footers(ends: Seq<(u64, usize)>, keep: spec_fn((u64, usize)) -> bool, si: int)
    requires
        forall|h: (u64, usize)| h.1 == si ==> #[trigger] keep(h),
    ensures
        offsets_with(ends.filter(keep), si) == offsets_with(ends, si),
        footers_of(ends.filter(keep), si) == footers_of(ends, si),
    decreases ends.len(),
{
    reveal(Seq::filter);
    if ends.len() > 0 {
        let rest = ends.drop_last();
        let h = ends.last();
        kept_footers(rest, keep, si);
        if keep(h) {
            assert(rest.filter(keep).push(h).drop_last() =~= rest.filter(keep));
        }
    }
}

/// The same hits lead under a filter to the plans that they lead to without
/// one, less those of other types, in the same order.
pub proof fn filter_leaves_out_other_types<R: ReadAt + ?Sized>(
    reader: &R,
    disk_size: int,
    hits: Seq<(u64, usize)>,
    ends: Seq<(u64, usize)>,
    sigs: Seq<SignatureView>,
    max_size: int,
    filter: Option<Set<Seq<char>>>,
    a: Seq<CarvePlan>,
    b: Seq<CarvePlan>,
)
    requires
        steady(reader),
        forall|s: int|
            0 <= s < sigs.len() ==> ((#[trigger] sigs[s]).validator == Validator::Ftyp
                <==> sigs[s].name == "ftyp"@),
        forall|i: int| 0 <= i < hits.len() ==> (#[trigger] hits[i]).1 < sigs.len(),
        plans_may(reader, disk_size, hits, ends, sigs, max_size, filter, a),
        plans_may(reader, disk_size, hits, ends, sigs, max_size, None, b),
    ensures
        plan_views(a) == plan_views(b).filter(is_wanted(filter)),
{
    let all = |h: (u64, usize)| true;
    all_are_kept(hits, all);
    all_are_kept(ends, all);
    filter_narrows_plans(reader, disk_size, hits, ends, sigs, max_size, filter, all, a, b);
}

/// Leaving nothing out changes nothing.
proof fn all_are_kept(hits: Seq<(u64, usize)>, all: spec_fn((u64, usize)) -> bool)
    requires
        forall|h: (u64, usize)| #[trigger] all(h),
    ensures
        hits.filter(all) == hits,
    decreases hits.len(),
{
    reveal(Seq::filter);
    if hits.len() > 0 {
        all_are_kept(hits.drop_last(), all);
        assert(hits.drop_last().push(hits.last()) =~= hits);
    }
}

// ---------------------------------------------------------------------------
// Runs
// ---------------------------------------------------------------------------

/// Whether a pattern is of a signature that can lead to a wanted type.
spec fn of_active(sigs: Seq<SignatureView>, filter: Option<Set<Seq<char>>>) -> spec_fn(
    PatternView,
) -> bool {
    |p: PatternView| is_active(filter, sigs[p.sig as int].name)
}

/// Whether a hit is of a signature that can lead to a wanted type.
spec fn hit_of_active(sigs: Seq<SignatureView>, filter: Option<Set<Seq<char>>>) -> spec_fn(
    (u64, usize),
) -> bool {
    |h: (u64, usize)| is_active(filter, sigs[h.1 as int].name)
}

/// A filter leaves of the patterns those of active signatures.
proof fn narrowed_patterns(sigs: Seq<SignatureView>, filter: Option<Set<Seq<char>>>, n: int)
    requires
        0 <= n <= sigs.len(),
        sigs.len() <= usize::MAX,
    ensures
        patterns_of(sigs, active_among(sigs, filter, n)) == patterns_of(
            sigs,
            active_among(sigs, None, n),
        ).filter(of_active(sigs, filter)),
    decreases n,
{
    reveal(Seq::filter);
    let pick = of_active(sigs, filter);
    if n > 0 {
        narrowed_patterns(sigs, filter, n - 1);
        let before = active_among(sigs, None, n - 1);
        let few = active_among(sigs, filter, n - 1);
        let si = (n - 1) as usize;
        let sig = sigs[n - 1];
        let all = patterns_of(sigs, before);
        let head = PatternView { bytes: sig.header, sig: si, is_footer: false };
        assert(before.push(si).drop_last() =~= before);
        assert(few.push(si).drop_last() =~= few);
        all.lemma_filter_push(head, pick);
        if let Some(f) = sig.footer {
            let foot = PatternView { bytes: f, sig: si, is_footer: true };
            all.push(head).lemma_filter_push(foot, pick);
        }
    }
}

/// What is recorded at an offset depends on the first patterns only.
proof fn first_patterns_count(
    seen: Seq<u8>,
    a: Seq<PatternView>,
    b: Seq<PatternView>,
    footer: bool,
    lo: int,
    hi: int,
    at: int,
    n: int,
)
    requires
        n <= a.len(),
        n <= b.len(),
        forall|k: int| 0 <= k < n ==> #[trigger] a[k] == b[k],
    ensures
        hits_at(seen, a, footer, lo, hi, at, n) == hits_at(seen, b, footer, lo, hi, at, n),
    decreases n,
{
    if n > 0 {
        assert(a[n - 1] == b[n - 1]);
        first_patterns_count(seen, a, b, footer, lo, hi, at, n - 1);
    }
}

/// Fewer patterns leave of what is recorded at an offset what is theirs.
proof fn narrowed_hits_at(
    seen: Seq<u8>,
    patterns: Seq<PatternView>,
    sigs: Seq<SignatureView>,
    filter: Option<Set<Seq<char>>>,
    footer: bool,
    lo: int,
    hi: int,
    at: int,
)
    ensures
        hits_at(
            seen,
            patterns.filter(of_active(sigs, filter)),
            footer,
            lo,
            hi,
            at,
            patterns.filter(of_active(sigs, filter)).len() as int,
        ) == hits_at(seen, patterns, footer, lo, hi, at, patterns.len() as int).filter(
            hit_of_active(sigs, filter),
        ),
    decreases patterns.len(),
{
    reveal(Seq::filter);
    if patterns.len() > 0 {
        let rest = patterns.drop_last();
        let p = patterns.last();
        let n = rest.len() as int;
        let left = rest.filter(of_active(sigs, filter));
        let m = left.len() as int;
        narrowed_hits_at(seen, rest, sigs, filter, footer, lo, hi, at);
        first_patterns_count(seen, rest, patterns, footer, lo, hi, at, n);
        let before = hits_at(seen, patterns, footer, lo, hi, at, n);
        before.lemma_filter_push((at as u64, p.sig), hit_of_active(sigs, filter));
        if is_active(filter, sigs[p.sig as int].name) {
            first_patterns_count(seen, left, left.push(p), footer, lo, hi, at, m);
        }
    }
}

/// So they do between two offsets.
proof fn narrowed_hits_between(
    seen: Seq<u8>,
    patterns: Seq<PatternView>,
    sigs: Seq<SignatureView>,
    filter: Option<Set<Seq<char>>>,
    footer: bool,
    lo: int,
    hi: int,
    upto: int,
)
    ensures
        hits_between(
            seen,
            patterns.filter(of_active(sigs, filter)),
            footer,
            lo,
            hi,
            upto,
        ) == hits_between(seen, patterns, footer, lo, hi, upto).filter(
            hit_of_active(sigs, filter),
        ),
    decreases upto,
{
    reveal(Seq::filter);
    if upto > 0 {
        narrowed_hits_between(seen, patterns, sigs, filter, footer, lo, hi, upto - 1);
        narrowed_hits_at(seen, patterns, sigs, filter, footer, lo, hi, upto - 1);
        Seq::filter_distributes_over_add(
            hits_between(seen, patterns, footer, lo, hi, upto - 1),
            hits_at(seen, patterns, footer, lo, hi, upto - 1, patterns.len() as int),
            hit_of_active(sigs, filter),
        );
    }
}

/// A scan for fewer patterns records what one for all records of them.
proof fn narrowed_scan(
    seen: Seq<u8>,
    patterns: Seq<PatternView>,
    sigs: Seq<SignatureView>,
    filter: Option<Set<Seq<char>>>,
    footer: bool,
    chunk: int,
    lo: int,
)
    ensures
        scan_hits(seen, patterns.filter(of_active(sigs, filter)), footer, chunk, lo) == scan_hits(
            seen,
            patterns,
            footer,
            chunk,
            lo,
        ).filter(hit_of_active(sigs, filter)),
    decreases seen.len() - lo,
{
    reveal(Seq::filter);
    if lo < seen.len() && chunk > 0 {
        let hi = least(lo + chunk, seen.len() as int);
        narrowed_scan(seen, patterns, sigs, filter, footer, chunk, hi);
        narrowed_hits_between(seen, patterns, sigs, filter, footer, lo, hi, hi);
        Seq::filter_distributes_over_add(
            hits_between(seen, patterns, footer, lo, hi, hi),
            scan_hits(seen, patterns, footer, chunk, hi),
            hit_of_active(sigs, filter),
        );
    }
}

/// The entry of the database named "ftyp", and no other, is resolved by its
/// brand.
proof fn brands_are_of_ftyp(s: int)
    requires
        0 <= s < signature_table().len(),
    ensures
        signature_table()[s].validator == Validator::Ftyp <==> signature_table()[s].name == "ftyp"@,
{
    reveal_strlit("jpg");
    reveal_strlit("png");
    reveal_strlit("pdf");
    reveal_strlit("gif");
    reveal_strlit("ftyp");
    reveal_strlit("zip");
    reveal_strlit("mp3");
    reveal_strlit("wav");
    reveal_strlit("sqlite");
    reveal_strlit("bmp");
    reveal_strlit("tiff");
    reveal_strlit("rar");
    reveal_strlit("7z");
    reveal_strlit("gz");
    reveal_strlit("bz2");
    reveal_strlit("plist");
    assert("tiff"@[0] != "ftyp"@[0]);
    assert(signature_table()[s].name.len() == 4 ==> s == 5 || signature_table()[s].name
        == "tiff"@);
}

/// A run over a steady source for certain types finds what a run for all types finds,
/// less the files of other types: the same files in the same order. Neither the
/// scan for fewer signatures nor the filter on the plans changes anything else.
pub proof fn filtered_run_leaves_out_other_types<
    R: ReadAt + ?Sized,
    F: FnMut(u64, usize),
    G: FnMut(u64, usize),
>(
    reader: &R,
    total: int,
    block_size: int,
    chunk_size: int,
    max_size: int,
    filter: Option<Set<Seq<char>>>,
    progress: F,
    seen: Seq<u8>,
    found: ScanResult,
    a: Seq<CarvePlan>,
    other_progress: G,
    also_seen: Seq<u8>,
    all_found: ScanResult,
    b: Seq<CarvePlan>,
)
    requires
        steady(reader),
        total <= u64::MAX,
        scan_may(
            reader,
            total,
            block_size,
            chunk_size,
            wanted_patterns(filter),
            progress,
            seen,
            found,
        ),
        plans_may(
            reader,
            total,
            found.headers@,
            found.footers@,
            signature_table(),
            max_size,
            filter,
            a,
        ),
        scan_may(
            reader,
            total,
            block_size,
            chunk_size,
            wanted_patterns(None),
            other_progress,
            also_seen,
            all_found,
        ),
        plans_may(
            reader,
            total,
            all_found.headers@,
            all_found.footers@,
            signature_table(),
            max_size,
            None,
            b,
        ),
    ensures
        plan_views(a) == plan_views(b).filter(is_wanted(filter)),
{
    let table = signature_table();
    let chunk = chunk_used(block_size, chunk_size);
    let active = active_among(table, None, table.len() as int);
    let keep = hit_of_active(table, filter);
    scans_see_the_same(
        reader,
        total,
        block_size,
        chunk_size,
        wanted_patterns(filter),
        progress,
        seen,
        found,
        wanted_patterns(None),
        other_progress,
        also_seen,
        all_found,
    );
    narrowed_patterns(table, filter, table.len() as int);
    narrowed_scan(seen, wanted_patterns(None), table, filter, false, chunk, 0);
    narrowed_scan(seen, wanted_patterns(None), table, filter, true, chunk, 0);
    database_can_be_scanned(None);
    assert forall|s: int| 0 <= s < table.len() implies ((#[trigger] table[s]).validator
        == Validator::Ftyp <==> table[s].name == "ftyp"@) by {
        brands_are_of_ftyp(s);
    }
    let hits = all_found.headers@;
    assert forall|i: int| 0 <= i < hits.len() implies (#[trigger] hits[i]).1 < table.len() by {
        scan_finds_every_match(seen, table, active, false, chunk, hits[i]);
        assert(hits.contains(hits[i]));
        assert(active[active.index_of(hits[i].1)] == hits[i].1);
    }
    filter_narrows_plans(
        reader,
        total,
        hits,
        all_found.footers@,
        table,
        max_size,
        filter,
        keep,
        a,
        b,
    );
}

} // verus!
