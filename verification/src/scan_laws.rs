//! What holds of every scan.

use vstd::prelude::*;

use crate::bytes::occurs_at;
use crate::disk::{reads_inside, ReadAt};
use crate::scanner::{
    blocks_may, chunk_used, hits_at, hits_between, longest, none_empty, patterns_of, progress_made,
    scan_hits, scan_may, searchable, source_may, span_may, PatternView, ScanResult,
};
use crate::signatures::{database_is_sound, signature_table, SignatureView};
use crate::sizes::least;

verus! {

/// A match is recorded where it ends: those that end in one of two neighbouring
/// ranges are those that end in the first and those that end in the second.
proof fn hits_at_split(
    seen: Seq<u8>,
    patterns: Seq<PatternView>,
    footer: bool,
    lo: int,
    mid: int,
    hi: int,
    at: int,
    n: int,
)
    requires
        lo <= mid <= hi,
    ensures
        hits_at(seen, patterns, footer, lo, hi, at, n).to_multiset() =~= hits_at(
            seen,
            patterns,
            footer,
            lo,
            mid,
            at,
            n,
        ).to_multiset().add(hits_at(seen, patterns, footer, mid, hi, at, n).to_multiset()),
    decreases n,
{
    broadcast use vstd::seq_lib::group_to_multiset_ensures;

    if n > 0 {
        hits_at_split(seen, patterns, footer, lo, mid, hi, at, n - 1);
    }
}

/// The same for all offsets below `upto`.
proof fn hits_between_split(
    seen: Seq<u8>,
    patterns: Seq<PatternView>,
    footer: bool,
    lo: int,
    mid: int,
    hi: int,
    upto: int,
)
    requires
        lo <= mid <= hi,
    ensures
        hits_between(seen, patterns, footer, lo, hi, upto).to_multiset() =~= hits_between(
            seen,
            patterns,
            footer,
            lo,
            mid,
            upto,
        ).to_multiset().add(
            hits_between(seen, patterns, footer, mid, hi, upto).to_multiset(),
        ),
    decreases upto,
{
    broadcast use vstd::seq_lib::group_to_multiset_ensures;

    if upto > 0 {
        hits_between_split(seen, patterns, footer, lo, mid, hi, upto - 1);
        let n = patterns.len() as int;
        hits_at_split(seen, patterns, footer, lo, mid, hi, upto - 1, n);
        vstd::seq_lib::lemma_multiset_commutative(
            hits_between(seen, patterns, footer, lo, hi, upto - 1),
            hits_at(seen, patterns, footer, lo, hi, upto - 1, n),
        );
        vstd::seq_lib::lemma_multiset_commutative(
            hits_between(seen, patterns, footer, lo, mid, upto - 1),
            hits_at(seen, patterns, footer, lo, mid, upto - 1, n),
        );
        vstd::seq_lib::lemma_multiset_commutative(
            hits_between(seen, patterns, footer, mid, hi, upto - 1),
            hits_at(seen, patterns, footer, mid, hi, upto - 1, n),
        );
    }
}

/// A match that ends by `hi` starts before `hi`.
proof fn hits_end_after_start(
    seen: Seq<u8>,
    patterns: Seq<PatternView>,
    footer: bool,
    lo: int,
    hi: int,
    at: int,
    n: int,
)
    requires
        n <= patterns.len(),
        none_empty(patterns),
        hi <= at,
    ensures
        hits_at(seen, patterns, footer, lo, hi, at, n) == Seq::<(u64, usize)>::empty(),
    decreases n,
{
    if n > 0 {
        assert(patterns[n - 1].bytes.len() > 0);
        hits_end_after_start(seen, patterns, footer, lo, hi, at, n - 1);
    }
}

/// Offsets from `hi` on add no match that ends by `hi`.
pub(crate) proof fn hits_stop(
    seen: Seq<u8>,
    patterns: Seq<PatternView>,
    footer: bool,
    lo: int,
    hi: int,
    upto: int,
)
    requires
        none_empty(patterns),
        0 <= hi <= upto,
    ensures
        hits_between(seen, patterns, footer, lo, hi, upto) == hits_between(
            seen,
            patterns,
            footer,
            lo,
            hi,
            hi,
        ),
    decreases upto,
{
    if hi < upto {
        hits_stop(seen, patterns, footer, lo, hi, upto - 1);
        hits_end_after_start(
            seen,
            patterns,
            footer,
            lo,
            hi,
            upto - 1,
            patterns.len() as int,
        );
        assert(hits_between(seen, patterns, footer, lo, hi, upto) =~= hits_between(
            seen,
            patterns,
            footer,
            lo,
            hi,
            upto - 1,
        ));
    }
}

/// From `lo` on, chunk by chunk, the same matches are recorded as in one go.
proof fn chunks_add_up(
    seen: Seq<u8>,
    patterns: Seq<PatternView>,
    footer: bool,
    chunk: int,
    lo: int,
)
    requires
        none_empty(patterns),
        0 < chunk,
        0 <= lo <= seen.len(),
    ensures
        scan_hits(seen, patterns, footer, chunk, lo).to_multiset() =~= hits_between(
            seen,
            patterns,
            footer,
            lo,
            seen.len() as int,
            seen.len() as int,
        ).to_multiset(),
    decreases seen.len() - lo,
{
    let end = seen.len() as int;
    if lo >= end {
        hits_between_empty(seen, patterns, footer, lo, end, end);
    } else {
        let hi = least(lo + chunk, end);
        chunks_add_up(seen, patterns, footer, chunk, hi);
        hits_between_split(seen, patterns, footer, lo, hi, end, end);
        hits_stop(seen, patterns, footer, lo, hi, end);
        vstd::seq_lib::lemma_multiset_commutative(
            hits_between(seen, patterns, footer, lo, hi, hi),
            scan_hits(seen, patterns, footer, chunk, hi),
        );
    }
}

/// An empty range holds no match.
proof fn hits_between_empty(
    seen: Seq<u8>,
    patterns: Seq<PatternView>,
    footer: bool,
    lo: int,
    hi: int,
    upto: int,
)
    requires
        hi <= lo,
    ensures
        hits_between(seen, patterns, footer, lo, hi, upto) == Seq::<(u64, usize)>::empty(),
    decreases upto,
{
    if upto > 0 {
        hits_between_empty(seen, patterns, footer, lo, hi, upto - 1);
        hits_at_empty(seen, patterns, footer, lo, hi, upto - 1, patterns.len() as int);
        assert(hits_between(seen, patterns, footer, lo, hi, upto) =~= Seq::empty());
    }
}

/// An empty range holds no match at one place.
proof fn hits_at_empty(
    seen: Seq<u8>,
    patterns: Seq<PatternView>,
    footer: bool,
    lo: int,
    hi: int,
    at: int,
    n: int,
)
    requires
        hi <= lo,
    ensures
        hits_at(seen, patterns, footer, lo, hi, at, n) == Seq::<(u64, usize)>::empty(),
    decreases n,
{
    if n > 0 {
        hits_at_empty(seen, patterns, footer, lo, hi, at, n - 1);
    }
}

/// Whether some pattern of signature `sig` stands at offset `at`: a footer or a
/// header.
spec fn stands(
    seen: Seq<u8>,
    patterns: Seq<PatternView>,
    footer: bool,
    at: int,
    sig: usize,
) -> bool {
    exists|k: int|
        {
            &&& 0 <= k < patterns.len()
            &&& (#[trigger] patterns[k]).sig == sig
            &&& patterns[k].is_footer == footer
            &&& occurs_at(seen, patterns[k].bytes, at)
        }
}

/// The matches at one place are those of the patterns that stand there.
proof fn hits_at_contains(
    seen: Seq<u8>,
    patterns: Seq<PatternView>,
    footer: bool,
    at: int,
    n: int,
    hit: (u64, usize),
)
    requires
        0 <= n <= patterns.len(),
        none_empty(patterns),
        0 <= at <= u64::MAX,
    ensures
        hits_at(seen, patterns, footer, 0, seen.len() as int, at, n).contains(hit) <==> (hit.0
            == at && stands(seen, patterns.take(n), footer, at, hit.1)),
    decreases n,
{
    let end = seen.len() as int;
    if n > 0 {
        hits_at_contains(seen, patterns, footer, at, n - 1, hit);
        let p = patterns[n - 1];
        let shorter = patterns.take(n - 1);
        let longer = patterns.take(n);
        let before = hits_at(seen, patterns, footer, 0, end, at, n - 1);
        assert(p.bytes.len() > 0);
        if stands(seen, shorter, footer, at, hit.1) {
            let k = choose|k: int|
                {
                    &&& 0 <= k < shorter.len()
                    &&& (#[trigger] shorter[k]).sig == hit.1
                    &&& shorter[k].is_footer == footer
                    &&& occurs_at(seen, shorter[k].bytes, at)
                };
            assert(longer[k] == shorter[k]);
        }
        if stands(seen, longer, footer, at, hit.1) {
            let k = choose|k: int|
                {
                    &&& 0 <= k < longer.len()
                    &&& (#[trigger] longer[k]).sig == hit.1
                    &&& longer[k].is_footer == footer
                    &&& occurs_at(seen, longer[k].bytes, at)
                };
            if k < n - 1 {
                assert(shorter[k] == longer[k]);
            }
        }
        assert(longer[n - 1] == p);
        if p.is_footer == footer && occurs_at(seen, p.bytes, at) {
            let after = before.push((at as u64, p.sig));
            assert(after[after.len() - 1] == (at as u64, p.sig));
            assert forall|x: (u64, usize)| before.contains(x) implies after.contains(x) by {
                let i = before.index_of(x);
                assert(after[i] == x);
            }
            if after.contains(hit) && hit != (at as u64, p.sig) {
                let i = after.index_of(hit);
                assert(before[i] == hit);
            }
        }
    }
}

/// The matches below `upto` are those of the patterns that stand there.
proof fn hits_between_contains(
    seen: Seq<u8>,
    patterns: Seq<PatternView>,
    footer: bool,
    upto: int,
    hit: (u64, usize),
)
    requires
        none_empty(patterns),
        0 <= upto <= u64::MAX,
    ensures
        hits_between(seen, patterns, footer, 0, seen.len() as int, upto).contains(hit) <==> (hit.0
            < upto && stands(seen, patterns, footer, hit.0 as int, hit.1)),
    decreases upto,
{
    if upto > 0 {
        let end = seen.len() as int;
        hits_between_contains(seen, patterns, footer, upto - 1, hit);
        hits_at_contains(seen, patterns, footer, upto - 1, patterns.len() as int, hit);
        assert(patterns.take(patterns.len() as int) =~= patterns);
        let before = hits_between(seen, patterns, footer, 0, end, upto - 1);
        let here = hits_at(seen, patterns, footer, 0, end, upto - 1, patterns.len() as int);
        let both = before + here;
        if before.contains(hit) {
            assert(both[before.index_of(hit)] == hit);
        }
        if here.contains(hit) {
            assert(both[before.len() + here.index_of(hit)] == hit);
        }
        if both.contains(hit) {
            let i = both.index_of(hit);
            if i < before.len() {
                assert(before[i] == hit);
            } else {
                assert(here[i - before.len()] == hit);
            }
        }
    }
}

/// In one go, a match is recorded once if no signature has two patterns of a
/// kind.
proof fn hits_at_distinct(
    seen: Seq<u8>,
    patterns: Seq<PatternView>,
    footer: bool,
    at: int,
    n: int,
)
    requires
        0 <= n <= patterns.len(),
        none_empty(patterns),
        one_of_each(patterns),
        0 <= at <= u64::MAX,
    ensures
        hits_at(seen, patterns, footer, 0, seen.len() as int, at, n).no_duplicates(),
    decreases n,
{
    if n > 0 {
        hits_at_distinct(seen, patterns, footer, at, n - 1);
        let p = patterns[n - 1];
        let hit = (at as u64, p.sig);
        hits_at_contains(seen, patterns, footer, at, n - 1, hit);
        let before = hits_at(seen, patterns, footer, 0, seen.len() as int, at, n - 1);
        let shorter = patterns.take(n - 1);
        if p.is_footer == footer && before.contains(hit) {
            let k = choose|k: int|
                {
                    &&& 0 <= k < shorter.len()
                    &&& (#[trigger] shorter[k]).sig == hit.1
                    &&& shorter[k].is_footer == footer
                    &&& occurs_at(seen, shorter[k].bytes, at)
                };
            assert(shorter[k] == patterns[k]);
        }
        let after = before.push(hit);
        if p.is_footer == footer {
            assert forall|i: int, j: int|
                0 <= i < after.len() && 0 <= j < after.len() && i != j implies after[i]
                != after[j] by {
                if i < before.len() && j < before.len() {
                    assert(before[i] != before[j]);
                } else if i < before.len() {
                    assert(before.contains(before[i]));
                } else {
                    assert(before.contains(before[j]));
                }
            }
        }
    }
}

/// The same for all offsets below `upto`.
proof fn hits_between_distinct(
    seen: Seq<u8>,
    patterns: Seq<PatternView>,
    footer: bool,
    upto: int,
)
    requires
        none_empty(patterns),
        one_of_each(patterns),
        0 <= upto <= u64::MAX,
    ensures
        hits_between(seen, patterns, footer, 0, seen.len() as int, upto).no_duplicates(),
    decreases upto,
{
    if upto > 0 {
        let end = seen.len() as int;
        let n = patterns.len() as int;
        hits_between_distinct(seen, patterns, footer, upto - 1);
        hits_at_distinct(seen, patterns, footer, upto - 1, n);
        let before = hits_between(seen, patterns, footer, 0, end, upto - 1);
        let here = hits_at(seen, patterns, footer, 0, end, upto - 1, n);
        let both = before + here;
        assert forall|i: int, j: int| 0 <= i < j < both.len() implies both[i] != both[j] by {
            if j < before.len() {
                assert(before[i] != before[j]);
            } else if i >= before.len() {
                assert(here[i - before.len()] != here[j - before.len()]);
            } else {
                hits_between_contains(seen, patterns, footer, upto - 1, before[i]);
                assert(before.contains(before[i]));
                let hit = here[j - before.len()];
                hits_at_contains(seen, patterns, footer, upto - 1, n, hit);
                assert(here.contains(hit));
            }
        }
    }
}

/// Whether no signature has two headers or two footers among the patterns.
pub open spec fn one_of_each(patterns: Seq<PatternView>) -> bool {
    forall|i: int, j: int|
        #![trigger patterns[i], patterns[j]]
        0 <= i < j < patterns.len() && patterns[i].is_footer == patterns[j].is_footer
            ==> patterns[i].sig != patterns[j].sig
}

/// What the patterns of the active signatures are.
pub(crate) proof fn patterns_are_of_active(sigs: Seq<SignatureView>, active: Seq<usize>)
    requires
        searchable(sigs, active),
    ensures
        none_empty(patterns_of(sigs, active)),
        forall|k: int|
            #![trigger patterns_of(sigs, active)[k]]
            0 <= k < patterns_of(sigs, active).len() ==> {
                let p = patterns_of(sigs, active)[k];
                &&& active.contains(p.sig)
                &&& if p.is_footer {
                    sigs[p.sig as int].footer == Some(p.bytes)
                } else {
                    sigs[p.sig as int].header == p.bytes
                }
            },
    decreases active.len(),
{
    if active.len() > 0 {
        let fewer = active.drop_last();
        let si = active.last();
        assert(active[active.len() - 1] == si);
        assert(searchable(sigs, fewer)) by {
            assert forall|k: int| #![trigger fewer[k]] 0 <= k < fewer.len() implies {
                &&& fewer[k] < sigs.len()
                &&& sigs[fewer[k] as int].header.len() > 0
                &&& sigs[fewer[k] as int].footer matches Some(f) ==> f.len() > 0
            } by {
                assert(active[k] == fewer[k]);
            }
        }
        patterns_are_of_active(sigs, fewer);
        let before = patterns_of(sigs, fewer);
        let all = patterns_of(sigs, active);
        assert forall|k: int| #![trigger all[k]] 0 <= k < all.len() implies {
            let p = all[k];
            &&& p.bytes.len() > 0
            &&& active.contains(p.sig)
            &&& if p.is_footer {
                sigs[p.sig as int].footer == Some(p.bytes)
            } else {
                sigs[p.sig as int].header == p.bytes
            }
        } by {
            if k < before.len() {
                assert(all[k] == before[k]);
                let j = fewer.index_of(before[k].sig);
                assert(active[j] == before[k].sig);
            }
        }
    }
}

/// The header of an active signature is among the patterns, and its footer if
/// it has one.
proof fn patterns_hold_active(sigs: Seq<SignatureView>, active: Seq<usize>, si: usize)
    requires
        active.contains(si),
    ensures
        patterns_of(sigs, active).contains(
            (PatternView { bytes: sigs[si as int].header, sig: si, is_footer: false }),
        ),
        sigs[si as int].footer matches Some(f) ==> patterns_of(sigs, active).contains(
            (PatternView { bytes: f, sig: si, is_footer: true }),
        ),
    decreases active.len(),
{
    let sig = sigs[si as int];
    let head = PatternView { bytes: sig.header, sig: si, is_footer: false };
    let fewer = active.drop_last();
    let before = patterns_of(sigs, fewer);
    let all = patterns_of(sigs, active);
    if active.last() == si {
        assert(all[before.len() as int] == head);
        if let Some(f) = sig.footer {
            let foot = PatternView { bytes: f, sig: si, is_footer: true };
            assert(all[before.len() as int + 1] == foot);
        }
    } else {
        let j = active.index_of(si);
        assert(fewer[j] == si);
        patterns_hold_active(sigs, fewer, si);
        assert(all[before.index_of(head)] == head);
        if let Some(f) = sig.footer {
            let foot = PatternView { bytes: f, sig: si, is_footer: true };
            assert(all[before.index_of(foot)] == foot);
        }
    }
}

/// If no signature is listed twice, none has two patterns of a kind.
pub(crate) proof fn patterns_one_of_each(sigs: Seq<SignatureView>, active: Seq<usize>)
    requires
        searchable(sigs, active),
        active.no_duplicates(),
    ensures
        one_of_each(patterns_of(sigs, active)),
    decreases active.len(),
{
    if active.len() > 0 {
        let fewer = active.drop_last();
        let si = active.last();
        assert(searchable(sigs, fewer)) by {
            assert forall|k: int| #![trigger fewer[k]] 0 <= k < fewer.len() implies {
                &&& fewer[k] < sigs.len()
                &&& sigs[fewer[k] as int].header.len() > 0
                &&& sigs[fewer[k] as int].footer matches Some(f) ==> f.len() > 0
            } by {
                assert(active[k] == fewer[k]);
            }
        }
        patterns_one_of_each(sigs, fewer);
        patterns_are_of_active(sigs, fewer);
        let before = patterns_of(sigs, fewer);
        let all = patterns_of(sigs, active);
        assert forall|i: int, j: int|
            #![trigger all[i], all[j]]
            0 <= i < j < all.len() && all[i].is_footer == all[j].is_footer implies all[i].sig
            != all[j].sig by {
            if j < before.len() {
                assert(before[i] == all[i] && before[j] == all[j]);
            } else if i < before.len() {
                assert(before[i] == all[i]);
                let m = fewer.index_of(before[i].sig);
                assert(active[m] == before[i].sig);
                assert(active[active.len() - 1] == si);
            }
        }
    }
}

/// Whether the header (or the footer) of the active signature `si` stands at
/// offset `at`.
pub open spec fn stands_at(
    seen: Seq<u8>,
    sigs: Seq<SignatureView>,
    active: Seq<usize>,
    footer: bool,
    at: int,
    si: usize,
) -> bool {
    &&& active.contains(si)
    &&& if footer {
        sigs[si as int].footer matches Some(f) && occurs_at(seen, f, at)
    } else {
        occurs_at(seen, sigs[si as int].header, at)
    }
}

/// A scan records a match exactly where the header or footer of an active
/// signature stands. Whether or not it spans two chunks, none is missed and
/// none is made up.
pub proof fn scan_finds_every_match(
    seen: Seq<u8>,
    sigs: Seq<SignatureView>,
    active: Seq<usize>,
    footer: bool,
    chunk: int,
    hit: (u64, usize),
)
    requires
        searchable(sigs, active),
        0 < chunk,
        seen.len() <= u64::MAX,
    ensures
        scan_hits(seen, patterns_of(sigs, active), footer, chunk, 0).contains(hit) <==> stands_at(
            seen,
            sigs,
            active,
            footer,
            hit.0 as int,
            hit.1,
        ),
{
    broadcast use vstd::seq_lib::group_to_multiset_ensures;

    let patterns = patterns_of(sigs, active);
    let end = seen.len() as int;
    let at = hit.0 as int;
    patterns_are_of_active(sigs, active);
    chunks_add_up(seen, patterns, footer, chunk, 0);
    hits_between_contains(seen, patterns, footer, end, hit);
    let chunked = scan_hits(seen, patterns, footer, chunk, 0);
    let whole = hits_between(seen, patterns, footer, 0, end, end);
    assert(chunked.to_multiset().count(hit) == whole.to_multiset().count(hit));
    if stands(seen, patterns, footer, at, hit.1) {
        let k = choose|k: int|
            {
                &&& 0 <= k < patterns.len()
                &&& (#[trigger] patterns[k]).sig == hit.1
                &&& patterns[k].is_footer == footer
                &&& occurs_at(seen, patterns[k].bytes, at)
            };
        assert(patterns[k].bytes.len() > 0);
    }
    if stands_at(seen, sigs, active, footer, at, hit.1) {
        patterns_hold_active(sigs, active, hit.1);
        let sig = sigs[hit.1 as int];
        let bytes = if footer {
            sig.footer->0
        } else {
            sig.header
        };
        let p = PatternView { bytes, sig: hit.1, is_footer: footer };
        assert(patterns.contains(p));
        let k = patterns.index_of(p);
        assert(patterns[k] == p);
        assert(stands(seen, patterns, footer, at, hit.1));
    }
}

/// A scan records no match twice, though chunks overlap.
pub proof fn scan_records_no_match_twice(
    seen: Seq<u8>,
    sigs: Seq<SignatureView>,
    active: Seq<usize>,
    footer: bool,
    chunk: int,
)
    requires
        searchable(sigs, active),
        active.no_duplicates(),
        0 < chunk,
        seen.len() <= u64::MAX,
    ensures
        scan_hits(seen, patterns_of(sigs, active), footer, chunk, 0).no_duplicates(),
{
    let patterns = patterns_of(sigs, active);
    let end = seen.len() as int;
    patterns_are_of_active(sigs, active);
    patterns_one_of_each(sigs, active);
    chunks_add_up(seen, patterns, footer, chunk, 0);
    hits_between_distinct(seen, patterns, footer, end);
    let whole = hits_between(seen, patterns, footer, 0, end, end);
    whole.lemma_multiset_has_no_duplicates();
    scan_hits(seen, patterns, footer, chunk, 0).lemma_multiset_has_no_duplicates_conv();
}

/// The chunk size decides neither which matches a scan records nor how often.
pub proof fn chunk_size_changes_no_match(
    seen: Seq<u8>,
    sigs: Seq<SignatureView>,
    active: Seq<usize>,
    footer: bool,
    chunk: int,
    other_chunk: int,
)
    requires
        searchable(sigs, active),
        0 < chunk,
        0 < other_chunk,
    ensures
        scan_hits(seen, patterns_of(sigs, active), footer, chunk, 0).to_multiset() == scan_hits(
            seen,
            patterns_of(sigs, active),
            footer,
            other_chunk,
            0,
        ).to_multiset(),
{
    patterns_are_of_active(sigs, active);
    chunks_add_up(seen, patterns_of(sigs, active), footer, chunk, 0);
    chunks_add_up(seen, patterns_of(sigs, active), footer, other_chunk, 0);
}

/// No pattern of the database begins at a zero byte, so blocks that could not
/// be read, and count as zeros, give rise to no match.
pub proof fn zeros_match_nothing(
    seen: Seq<u8>,
    active: Seq<usize>,
    footer: bool,
    at: int,
    si: usize,
)
    requires
        searchable(signature_table(), active),
        stands_at(seen, signature_table(), active, footer, at, si),
    ensures
        seen[at] != 0,
{
    database_is_sound();
    let k = active.index_of(si);
    assert(active[k] == si);
    let sig = signature_table()[si as int];
    if footer {
        let f = sig.footer->0;
        assert(seen.subrange(at, at + f.len())[0] == seen[at]);
    } else {
        assert(seen.subrange(at, at + sig.header.len())[0] == seen[at]);
    }
}

/// Reading a source that holds an image, block by block, gives its bytes.
proof fn image_blocks<R: ReadAt + ?Sized>(
    reader: &R,
    image: Seq<u8>,
    pos: int,
    len: int,
    block: int,
    bytes: Seq<u8>,
    notes: Seq<Seq<char>>,
)
    requires
        reads_inside(reader, image),
        0 < block,
        0 <= pos,
        0 <= len,
        pos + len <= image.len(),
        pos + len <= u64::MAX,
        blocks_may(reader, pos, len, block, bytes, notes),
    ensures
        bytes == image.subrange(pos, pos + len),
        notes.len() == 0,
    decreases len,
{
    if len > 0 {
        let n = least(block, len);
        image_blocks(reader, image, pos + n, len - n, block, bytes.skip(n), notes);
        assert(bytes =~= bytes.take(n) + bytes.skip(n));
        assert(image.subrange(pos, pos + len) =~= image.subrange(pos, pos + n) + image.subrange(
            pos + n,
            pos + len,
        ));
    } else {
        assert(bytes =~= image.subrange(pos, pos + len));
    }
}

/// Reading a source that holds an image gives its bytes, and no errors.
pub proof fn image_is_seen_as_it_is<R: ReadAt + ?Sized>(
    reader: &R,
    image: Seq<u8>,
    pos: int,
    total: int,
    block: int,
    chunk: int,
    bytes: Seq<u8>,
    notes: Seq<Seq<char>>,
)
    requires
        reads_inside(reader, image),
        0 <= pos <= total <= image.len(),
        total <= u64::MAX,
        0 < block,
        0 < chunk,
        source_may(reader, pos, total, block, chunk, bytes, notes),
    ensures
        bytes == image.subrange(pos, total),
        notes.len() == 0,
    decreases total - pos,
{
    if pos < total {
        let n = least(chunk, total - pos);
        let here = choose|here: Seq<Seq<char>>|
            {
                &&& #[trigger] span_may(reader, pos, n, block, bytes.take(n), here)
                &&& here.is_prefix_of(notes)
                &&& source_may(
                    reader,
                    pos + n,
                    total,
                    block,
                    chunk,
                    bytes.skip(n),
                    notes.skip(here.len() as int),
                )
            };
        assert(bytes.take(n) == image.subrange(pos, pos + n) && here.len() == 0);
        image_is_seen_as_it_is(
            reader,
            image,
            pos + n,
            total,
            block,
            chunk,
            bytes.skip(n),
            notes.skip(here.len() as int),
        );
        assert(bytes =~= bytes.take(n) + bytes.skip(n));
        assert(image.subrange(pos, total) =~= image.subrange(pos, pos + n) + image.subrange(
            pos + n,
            total,
        ));
    } else {
        assert(bytes =~= image.subrange(pos, total));
    }
}

/// The patterns of the database have at most sixteen bytes, so that hardly more
/// than a chunk is held in memory.
pub proof fn database_patterns_are_short(active: Seq<usize>)
    requires
        searchable(signature_table(), active),
    ensures
        longest(patterns_of(signature_table(), active)) <= 16,
{
    let patterns = patterns_of(signature_table(), active);
    patterns_are_of_active(signature_table(), active);
    assert forall|k: int| 0 <= k < patterns.len() implies (#[trigger] patterns[k]).bytes.len()
        <= 16 by {
        let p = patterns[k];
        let i = active.index_of(p.sig);
        assert(active[i] == p.sig);
        headers_are_short(p.sig as int);
    }
    longest_is_one_of(patterns, 16);
}

/// No header or footer of the database has more than sixteen bytes.
proof fn headers_are_short(k: int)
    requires
        0 <= k < signature_table().len(),
    ensures
        signature_table()[k].header.len() <= 16,
        signature_table()[k].footer matches Some(f) ==> f.len() <= 16,
{
}

/// The longest pattern is not longer than all are.
proof fn longest_is_one_of(patterns: Seq<PatternView>, most: nat)
    requires
        most >= 1,
        forall|k: int| 0 <= k < patterns.len() ==> (#[trigger] patterns[k]).bytes.len() <= most,
    ensures
        longest(patterns) <= most,
    decreases patterns.len(),
{
    if patterns.len() > 0 {
        let rest = patterns.drop_last();
        assert forall|k: int| 0 <= k < rest.len() implies (#[trigger] rest[k]).bytes.len()
            <= most by {
            assert(rest[k] == patterns[k]);
        }
        assert(patterns[patterns.len() - 1].bytes.len() <= most);
        longest_is_one_of(rest, most);
    }
}

/// From a chunk on, progress is reported after every chunk.
proof fn progress_goes_on<F: FnMut(u64, usize)>(
    progress: F,
    seen: Seq<u8>,
    patterns: Seq<PatternView>,
    chunk: int,
    lo: int,
    found: nat,
    k: int,
) -> (now: nat)
    requires
        0 <= lo,
        0 < chunk,
        progress_made(progress, seen, patterns, chunk, lo, found),
        0 < k,
        lo + (k - 1) * chunk < seen.len(),
    ensures
        found <= now <= found + scan_hits(seen, patterns, false, chunk, lo).len(),
        lo + k * chunk >= seen.len() ==> now == found + scan_hits(
            seen,
            patterns,
            false,
            chunk,
            lo,
        ).len(),
        call_ensures(
            progress,
            (
                (if lo + k * chunk <= seen.len() {
                    lo + k * chunk
                } else {
                    seen.len() as int
                }) as u64,
                now as usize,
            ),
            (),
        ),
    decreases k,
{
    let hi = least(lo + chunk, seen.len() as int);
    let here = hits_between(seen, patterns, false, lo, hi, hi);
    let now = found + here.len();
    assert(0 <= (k - 1) * chunk) by (nonlinear_arith)
        requires
            0 < k,
            0 < chunk,
    ;
    assert(lo < seen.len());
    if k == 1 {
        if hi == seen.len() {
            assert(scan_hits(seen, patterns, false, chunk, hi).len() == 0);
        }
        now
    } else {
        assert((k - 1) * chunk == chunk + (k - 2) * chunk) by (nonlinear_arith);
        assert(k * chunk == chunk + (k - 1) * chunk) by (nonlinear_arith);
        assert(0 <= (k - 2) * chunk) by (nonlinear_arith)
            requires
                k >= 2,
                0 < chunk,
        ;
        assert(hi == lo + chunk);
        progress_goes_on(progress, seen, patterns, chunk, hi, now, k - 1)
    }
}

/// Progress is reported after every chunk, with the number of bytes up to there;
/// the last report is of the whole source and of all headers found.
pub proof fn progress_is_reported<R: ReadAt + ?Sized, F: FnMut(u64, usize)>(
    reader: &R,
    total: int,
    block_size: int,
    chunk_size: int,
    patterns: Seq<PatternView>,
    progress: F,
    seen: Seq<u8>,
    result: ScanResult,
    chunk: int,
    k: int,
) -> (now: nat)
    requires
        scan_may(reader, total, block_size, chunk_size, patterns, progress, seen, result),
        chunk >= chunk_size && chunk >= block_size && chunk >= 512,
        chunk == chunk_size || chunk == block_size || chunk == 512,
        0 < k,
        (k - 1) * chunk < total,
    ensures
        now <= result.headers@.len(),
        k * chunk < total ==> call_ensures(progress, ((k * chunk) as u64, now as usize), ()),
        k * chunk >= total ==> now == result.headers@.len() && call_ensures(
            progress,
            (total as u64, now as usize),
            (),
        ),
        result.bytes_scanned == total,
{
    assert(chunk == chunk_used(block_size, chunk_size));
    progress_goes_on(progress, seen, patterns, chunk, 0, 0, k)
}

} // verus!
