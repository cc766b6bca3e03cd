//! In what order plans stand: by where their files start, and those that start in
//! one place in the order in which their headers were found.

use vstd::prelude::*;

use crate::carver::{
    covered, deduplicated, hits_planned, plans_may, somes, stably_ordered, starting_at, starts_at,
    CarvePlan,
};
use crate::disk::ReadAt;
use crate::signatures::SignatureView;

verus! {

/// What is kept stands in the order that it had.
proof fn kept_in_order(ordered: Seq<CarvePlan>, i: int, j: int) -> (at: (int, int))
    requires
        0 <= i < j < deduplicated(ordered).len(),
    ensures
        0 <= at.0 < at.1 < ordered.len(),
        ordered[at.0] == deduplicated(ordered)[i],
        ordered[at.1] == deduplicated(ordered)[j],
    decreases ordered.len(),
{
    let rest = ordered.drop_last();
    let kept = deduplicated(rest);
    if covered(kept, ordered.last()) || j < kept.len() {
        let at = kept_in_order(rest, i, j);
        assert(ordered[at.0] == rest[at.0] && ordered[at.1] == rest[at.1]);
        at
    } else {
        let x = kept_somewhere(rest, i);
        assert(ordered[x] == rest[x]);
        (x, ordered.len() - 1)
    }
}

/// What is kept was there.
proof fn kept_somewhere(ordered: Seq<CarvePlan>, i: int) -> (x: int)
    requires
        0 <= i < deduplicated(ordered).len(),
    ensures
        0 <= x < ordered.len(),
        ordered[x] == deduplicated(ordered)[i],
    decreases ordered.len(),
{
    let rest = ordered.drop_last();
    let kept = deduplicated(rest);
    if covered(kept, ordered.last()) || i < kept.len() {
        let x = kept_somewhere(rest, i);
        assert(ordered[x] == rest[x]);
        x
    } else {
        ordered.len() - 1
    }
}

/// What passes a test stands among what passes it, in order.
proof fn picked_in_order<A>(s: Seq<A>, f: spec_fn(A) -> bool, x: int, y: int) -> (at: (int, int))
    requires
        0 <= x < y < s.len(),
        f(s[x]),
        f(s[y]),
    ensures
        0 <= at.0 < at.1 < s.filter(f).len(),
        s.filter(f)[at.0] == s[x],
        s.filter(f)[at.1] == s[y],
    decreases s.len(),
{
    let rest = s.drop_last();
    assert(rest.push(s.last()) =~= s);
    rest.lemma_filter_push(s.last(), f);
    if y < s.len() - 1 {
        picked_in_order(rest, f, x, y)
    } else {
        let u = picked_somewhere(rest, f, x);
        (u, rest.filter(f).len() as int)
    }
}

/// What passes a test stands among what passes it.
proof fn picked_somewhere<A>(s: Seq<A>, f: spec_fn(A) -> bool, x: int) -> (u: int)
    requires
        0 <= x < s.len(),
        f(s[x]),
    ensures
        0 <= u < s.filter(f).len(),
        s.filter(f)[u] == s[x],
    decreases s.len(),
{
    let rest = s.drop_last();
    assert(rest.push(s.last()) =~= s);
    rest.lemma_filter_push(s.last(), f);
    if x < s.len() - 1 {
        picked_somewhere(rest, f, x)
    } else {
        rest.filter(f).len() as int
    }
}

/// What was picked was there, in order.
proof fn picked_from<A>(s: Seq<A>, f: spec_fn(A) -> bool, u: int, v: int) -> (at: (int, int))
    requires
        0 <= u < v < s.filter(f).len(),
    ensures
        0 <= at.0 < at.1 < s.len(),
        s[at.0] == s.filter(f)[u],
        s[at.1] == s.filter(f)[v],
    decreases s.len(),
{
    if s.len() == 0 {
        assert(s.filter(f).len() == 0) by {
            reveal(Seq::filter);
        }
        (0, 1)
    } else {
        let rest = s.drop_last();
        assert(rest.push(s.last()) =~= s);
        rest.lemma_filter_push(s.last(), f);
        if v < rest.filter(f).len() {
            picked_from(rest, f, u, v)
        } else {
            let x = picked_from_somewhere(rest, f, u);
            (x, s.len() - 1)
        }
    }
}

/// What was picked was there.
proof fn picked_from_somewhere<A>(s: Seq<A>, f: spec_fn(A) -> bool, u: int) -> (x: int)
    requires
        0 <= u < s.filter(f).len(),
    ensures
        0 <= x < s.len(),
        s[x] == s.filter(f)[u],
    decreases s.len(),
{
    if s.len() == 0 {
        assert(s.filter(f).len() == 0) by {
            reveal(Seq::filter);
        }
        0
    } else {
        let rest = s.drop_last();
        assert(rest.push(s.last()) =~= s);
        rest.lemma_filter_push(s.last(), f);
        if u < rest.filter(f).len() {
            picked_from_somewhere(rest, f, u)
        } else {
            s.len() - 1
        }
    }
}

/// What was collected was there, in order.
proof fn collected_in_order<U>(items: Seq<Option<U>>, x: int, y: int) -> (at: (int, int))
    requires
        0 <= x < y < somes(items).len(),
    ensures
        0 <= at.0 < at.1 < items.len(),
        items[at.0] == Some(somes(items)[x]),
        items[at.1] == Some(somes(items)[y]),
    decreases items.len(),
{
    let rest = items.drop_last();
    if y < somes(rest).len() {
        collected_in_order(rest, x, y)
    } else {
        let a = collected_somewhere(rest, x);
        (a, items.len() - 1)
    }
}

/// What was collected was there.
proof fn collected_somewhere<U>(items: Seq<Option<U>>, x: int) -> (a: int)
    requires
        0 <= x < somes(items).len(),
    ensures
        0 <= a < items.len(),
        items[a] == Some(somes(items)[x]),
    decreases items.len(),
{
    let rest = items.drop_last();
    if x < somes(rest).len() {
        collected_somewhere(rest, x)
    } else {
        items.len() - 1
    }
}

/// Of two planned files that start in one place, the one comes first whose header
/// was found first; of two that do not, the one that starts first.
pub proof fn plans_stand_in_order<R: ReadAt + ?Sized>(
    reader: &R,
    disk_size: int,
    headers: Seq<(u64, usize)>,
    footers: Seq<(u64, usize)>,
    sigs: Seq<SignatureView>,
    max_size: int,
    filter: Option<Set<Seq<char>>>,
    plans: Seq<CarvePlan>,
    i: int,
    j: int,
) -> (origin: (Seq<Option<CarvePlan>>, int, int))
    requires
        plans_may(reader, disk_size, headers, footers, sigs, max_size, filter, plans),
        0 <= i < j < plans.len(),
    ensures
        plans[i].offset <= plans[j].offset,
        plans[i].offset == plans[j].offset ==> {
            let (outcomes, a, b) = origin;
            &&& hits_planned(
                reader,
                disk_size,
                headers,
                footers,
                sigs,
                max_size,
                filter,
                outcomes,
            )
            &&& 0 <= a < b < headers.len()
            &&& outcomes[a] == Some(plans[i])
            &&& outcomes[b] == Some(plans[j])
        },
{
    let (outcomes, ordered) = choose|outcomes: Seq<Option<CarvePlan>>, ordered: Seq<CarvePlan>|
        {
            &&& hits_planned(
                reader,
                disk_size,
                headers,
                footers,
                sigs,
                max_size,
                filter,
                outcomes,
            )
            &&& #[trigger] stably_ordered(somes(outcomes), ordered)
            &&& plans == deduplicated(ordered)
        };
    let (x, y) = kept_in_order(ordered, i, j);
    assert(ordered[x].offset <= ordered[y].offset);
    if plans[i].offset == plans[j].offset {
        let offset = plans[i].offset;
        let f = starts_at(offset);
        let found = somes(outcomes);
        let (u, v) = picked_in_order(ordered, f, x, y);
        assert(starting_at(ordered, offset) == starting_at(found, offset));
        let (p, q) = picked_from(found, f, u, v);
        let (a, b) = collected_in_order(outcomes, p, q);
        (outcomes, a, b)
    } else {
        (outcomes, 0, 0)
    }
}

} // verus!
