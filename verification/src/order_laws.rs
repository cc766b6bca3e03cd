//! The order in which a scan records matches. In general it depends on the
//! chunks: of two patterns, one of which stands inside the other, the inner one
//! comes first just if a chunk ends between their ends. No pattern of the
//! database stands inside another, so that there the order is that of the
//! offsets, whatever the chunks are.

use vstd::prelude::*;

use crate::bytes::occurs_at;
use crate::disk::{reads_inside, ReadAt};
use crate::scan_laws::{
    hits_stop, image_is_seen_as_it_is, patterns_are_of_active, patterns_one_of_each,
};
use crate::scanner::{
    block_used, chunk_used, hits_at, hits_between, none_empty, patterns_of, scan_hits, scan_may,
    searchable, PatternView, ScanResult,
};
use crate::signatures::{signature_table, SignatureView};
use crate::sizes::least;
use crate::text::texts;

verus! {

/// Whether no pattern stands inside another of the same kind, a header inside a
/// header or a footer inside a footer.
pub open spec fn none_inside_another(patterns: Seq<PatternView>) -> bool {
    forall|i: int, j: int, d: int|
        0 <= i < patterns.len() && 0 <= j < patterns.len() && i != j && patterns[i].is_footer
            == patterns[j].is_footer ==> !#[trigger] occurs_at(
            patterns[i].bytes,
            patterns[j].bytes,
            d,
        )
}

/// What stands inside an occurrence of a pattern stands inside the pattern.
proof fn inside(seen: Seq<u8>, p: Seq<u8>, a: int, q: Seq<u8>, b: int)
    requires
        occurs_at(seen, p, a),
        occurs_at(seen, q, b),
        a <= b,
        b + q.len() <= a + p.len(),
    ensures
        occurs_at(p, q, b - a),
{
    let d = b - a;
    assert forall|k: int| 0 <= k < q.len() implies p.subrange(d, d + q.len())[k] == q[k] by {
        assert(seen.subrange(a, a + p.len())[d + k] == seen[b + k]);
        assert(seen.subrange(b, b + q.len())[k] == seen[b + k]);
    }
    assert(p.subrange(d, d + q.len()) =~= q);
}

/// The pattern of a match that is recorded at an offset.
proof fn match_at(
    seen: Seq<u8>,
    patterns: Seq<PatternView>,
    footer: bool,
    lo: int,
    hi: int,
    at: int,
    n: int,
) -> (i: int)
    requires
        n <= patterns.len(),
        hits_at(seen, patterns, footer, lo, hi, at, n).len() > 0,
    ensures
        0 <= i < n,
        patterns[i].is_footer == footer,
        lo < at + patterns[i].bytes.len() <= hi,
        occurs_at(seen, patterns[i].bytes, at),
    decreases n,
{
    let p = patterns[n - 1];
    if p.is_footer == footer && lo < at + p.bytes.len() <= hi && occurs_at(seen, p.bytes, at) {
        n - 1
    } else {
        match_at(seen, patterns, footer, lo, hi, at, n - 1)
    }
}

/// The offset and the pattern of a match that is recorded before `upto`.
proof fn match_before(
    seen: Seq<u8>,
    patterns: Seq<PatternView>,
    footer: bool,
    lo: int,
    hi: int,
    upto: int,
) -> (m: (int, int))
    requires
        hits_between(seen, patterns, footer, lo, hi, upto).len() > 0,
    ensures
        0 <= m.0 < upto,
        0 <= m.1 < patterns.len(),
        patterns[m.1].is_footer == footer,
        lo < m.0 + patterns[m.1].bytes.len() <= hi,
        occurs_at(seen, patterns[m.1].bytes, m.0),
    decreases upto,
{
    let n = patterns.len() as int;
    if hits_at(seen, patterns, footer, lo, hi, upto - 1, n).len() > 0 {
        (upto - 1, match_at(seen, patterns, footer, lo, hi, upto - 1, n))
    } else {
        match_before(seen, patterns, footer, lo, hi, upto - 1)
    }
}

/// Matches at one offset all end up to `mid` or all end after it.
proof fn one_side(
    seen: Seq<u8>,
    patterns: Seq<PatternView>,
    footer: bool,
    lo: int,
    mid: int,
    hi: int,
    at: int,
    n: int,
)
    requires
        none_inside_another(patterns),
        n <= patterns.len(),
        hits_at(seen, patterns, footer, lo, mid, at, n).len() > 0,
    ensures
        hits_at(seen, patterns, footer, mid, hi, at, n) == Seq::<(u64, usize)>::empty(),
{
    if hits_at(seen, patterns, footer, mid, hi, at, n).len() > 0 {
        let i = match_at(seen, patterns, footer, lo, mid, at, n);
        let j = match_at(seen, patterns, footer, mid, hi, at, n);
        inside(seen, patterns[j].bytes, at, patterns[i].bytes, at);
    }
    assert(hits_at(seen, patterns, footer, mid, hi, at, n) =~= Seq::<(u64, usize)>::empty());
}

/// What is recorded at one offset is recorded on one side of `mid`.
proof fn offset_splits(
    seen: Seq<u8>,
    patterns: Seq<PatternView>,
    footer: bool,
    lo: int,
    mid: int,
    hi: int,
    at: int,
    n: int,
)
    requires
        none_inside_another(patterns),
        n <= patterns.len(),
        lo <= mid <= hi,
    ensures
        hits_at(seen, patterns, footer, lo, hi, at, n) == hits_at(
            seen,
            patterns,
            footer,
            lo,
            mid,
            at,
            n,
        ) + hits_at(seen, patterns, footer, mid, hi, at, n),
    decreases n,
{
    let first = hits_at(seen, patterns, footer, lo, mid, at, n);
    let second = hits_at(seen, patterns, footer, mid, hi, at, n);
    if n > 0 {
        offset_splits(seen, patterns, footer, lo, mid, hi, at, n - 1);
        if first.len() > 0 {
            one_side(seen, patterns, footer, lo, mid, hi, at, n);
        }
    }
    assert(hits_at(seen, patterns, footer, lo, hi, at, n) =~= first + second);
}

/// What ends after `mid` starts after all that ends up to `mid`.
proof fn later_ends_start_later(
    seen: Seq<u8>,
    patterns: Seq<PatternView>,
    footer: bool,
    lo: int,
    mid: int,
    hi: int,
    at: int,
)
    requires
        none_inside_another(patterns),
        hits_at(seen, patterns, footer, lo, mid, at, patterns.len() as int).len() > 0,
    ensures
        hits_between(seen, patterns, footer, mid, hi, at) == Seq::<(u64, usize)>::empty(),
{
    if hits_between(seen, patterns, footer, mid, hi, at).len() > 0 {
        let i = match_at(seen, patterns, footer, lo, mid, at, patterns.len() as int);
        let (before, j) = match_before(seen, patterns, footer, mid, hi, at);
        inside(seen, patterns[j].bytes, before, patterns[i].bytes, at);
    }
    assert(hits_between(seen, patterns, footer, mid, hi, at) =~= Seq::<(u64, usize)>::empty());
}

/// What is recorded in one go is recorded in the same order in two.
proof fn offsets_split(
    seen: Seq<u8>,
    patterns: Seq<PatternView>,
    footer: bool,
    lo: int,
    mid: int,
    hi: int,
    upto: int,
)
    requires
        none_inside_another(patterns),
        lo <= mid <= hi,
    ensures
        hits_between(seen, patterns, footer, lo, hi, upto) == hits_between(
            seen,
            patterns,
            footer,
            lo,
            mid,
            upto,
        ) + hits_between(seen, patterns, footer, mid, hi, upto),
    decreases upto,
{
    let n = patterns.len() as int;
    let first = hits_between(seen, patterns, footer, lo, mid, upto);
    let second = hits_between(seen, patterns, footer, mid, hi, upto);
    if upto > 0 {
        offsets_split(seen, patterns, footer, lo, mid, hi, upto - 1);
        offset_splits(seen, patterns, footer, lo, mid, hi, upto - 1, n);
        if hits_at(seen, patterns, footer, lo, mid, upto - 1, n).len() > 0 {
            later_ends_start_later(seen, patterns, footer, lo, mid, hi, upto - 1);
        }
    }
    assert(hits_between(seen, patterns, footer, lo, hi, upto) =~= first + second);
}

/// Chunk by chunk, matches are recorded in the order in which they are in one
/// go: by offset.
proof fn chunks_keep_the_order(
    seen: Seq<u8>,
    patterns: Seq<PatternView>,
    footer: bool,
    chunk: int,
    lo: int,
)
    requires
        none_empty(patterns),
        none_inside_another(patterns),
        0 < chunk,
        0 <= lo <= seen.len(),
    ensures
        scan_hits(seen, patterns, footer, chunk, lo) == hits_between(
            seen,
            patterns,
            footer,
            lo,
            seen.len() as int,
            seen.len() as int,
        ),
    decreases seen.len() - lo,
{
    let end = seen.len() as int;
    if lo < end {
        let hi = least(lo + chunk, end);
        chunks_keep_the_order(seen, patterns, footer, chunk, hi);
        hits_stop(seen, patterns, footer, lo, hi, end);
        offsets_split(seen, patterns, footer, lo, hi, end, end);
    } else {
        ends_nowhere(seen, patterns, footer, end, end);
    }
}

/// Nothing ends after the end.
proof fn ends_nowhere(
    seen: Seq<u8>,
    patterns: Seq<PatternView>,
    footer: bool,
    end: int,
    upto: int,
)
    ensures
        hits_between(seen, patterns, footer, end, end, upto) == Seq::<(u64, usize)>::empty(),
{
    if hits_between(seen, patterns, footer, end, end, upto).len() > 0 {
        let m = match_before(seen, patterns, footer, end, end, upto);
    }
    assert(hits_between(seen, patterns, footer, end, end, upto) =~= Seq::<(u64, usize)>::empty());
}

/// The size of the chunks changes neither what is recorded nor its order, if no
/// pattern stands inside another.
pub proof fn chunk_size_changes_no_order(
    seen: Seq<u8>,
    sigs: Seq<SignatureView>,
    active: Seq<usize>,
    footer: bool,
    chunk: int,
    other_chunk: int,
)
    requires
        searchable(sigs, active),
        none_inside_another(patterns_of(sigs, active)),
        0 < chunk,
        0 < other_chunk,
    ensures
        scan_hits(seen, patterns_of(sigs, active), footer, chunk, 0) == scan_hits(
            seen,
            patterns_of(sigs, active),
            footer,
            other_chunk,
            0,
        ),
{
    patterns_are_of_active(sigs, active);
    chunks_keep_the_order(seen, patterns_of(sigs, active), footer, chunk, 0);
    chunks_keep_the_order(seen, patterns_of(sigs, active), footer, other_chunk, 0);
}

// ---------------------------------------------------------------------------
// The database
// ---------------------------------------------------------------------------

/// Whether a header of the database begins with `x` and `y`.
spec fn begins_a_header(x: u8, y: u8) -> bool {
    ||| x == 0xFF && y == 0xD8
    ||| x == 0x89 && y == 0x50
    ||| x == 0x25 && y == 0x50
    ||| x == 0x47 && y == 0x49
    ||| x == 0x66 && y == 0x74
    ||| x == 0x50 && y == 0x4B
    ||| x == 0x49 && y == 0x44
    ||| x == 0x52 && y == 0x49
    ||| x == 0x53 && y == 0x51
    ||| x == 0x42 && y == 0x4D
    ||| x == 0x49 && y == 0x49
    ||| x == 0x4D && y == 0x4D
    ||| x == 0x52 && y == 0x61
    ||| x == 0x37 && y == 0x7A
    ||| x == 0x1F && y == 0x8B
    ||| x == 0x42 && y == 0x5A
    ||| x == 0x62 && y == 0x70
}

/// Headers begin so.
proof fn headers_begin(j: int)
    requires
        0 <= j < signature_table().len(),
    ensures
        signature_table()[j].header.len() >= 2,
        begins_a_header(signature_table()[j].header[0], signature_table()[j].header[1]),
{
}

/// No header has the beginning of one after its own.
proof fn no_header_begins_inside(i: int, d: int)
    requires
        0 <= i < signature_table().len(),
        1 <= d,
        d + 2 <= signature_table()[i].header.len(),
    ensures
        !begins_a_header(signature_table()[i].header[d], signature_table()[i].header[d + 1]),
{
}

/// Two headers that begin alike differ later.
proof fn headers_differ(i: int, j: int)
    requires
        0 <= i < signature_table().len(),
        0 <= j < signature_table().len(),
        i != j,
        signature_table()[j].header.len() <= signature_table()[i].header.len(),
        signature_table()[i].header[0] == signature_table()[j].header[0],
        signature_table()[i].header[1] == signature_table()[j].header[1],
    ensures
        signature_table()[j].header.len() > 6 ==> signature_table()[i].header[6]
            != signature_table()[j].header[6],
        signature_table()[j].header.len() <= 6 ==> signature_table()[j].header.len() > 4
            && signature_table()[i].header[4] != signature_table()[j].header[4],
{
}

/// No header of the database stands inside another.
proof fn headers_stand_apart(i: int, j: int, d: int)
    requires
        0 <= i < signature_table().len(),
        0 <= j < signature_table().len(),
        i != j,
    ensures
        !occurs_at(signature_table()[i].header, signature_table()[j].header, d),
{
    let a = signature_table()[i].header;
    let b = signature_table()[j].header;
    if occurs_at(a, b, d) {
        headers_begin(j);
        let part = a.subrange(d, d + b.len());
        assert(part[0] == a[d] && part[1] == a[d + 1]);
        if d > 0 {
            no_header_begins_inside(i, d);
        } else {
            assert(b.len() > 4 ==> part[4] == a[4]);
            assert(b.len() > 6 ==> part[6] == a[6]);
            headers_differ(i, j);
        }
    }
}

/// No footer of the database stands inside another.
proof fn footers_stand_apart(i: int, j: int, d: int)
    requires
        0 <= i < signature_table().len(),
        0 <= j < signature_table().len(),
        i != j,
        signature_table()[i].footer is Some,
        signature_table()[j].footer is Some,
    ensures
        !occurs_at(signature_table()[i].footer->0, signature_table()[j].footer->0, d),
{
    let a = signature_table()[i].footer->0;
    let b = signature_table()[j].footer->0;
    if occurs_at(a, b, d) {
        assert(b.len() >= 2);
        let part = a.subrange(d, d + b.len());
        assert(part[0] == a[d] && part[1] == a[d + 1]);
    }
}

/// No pattern of the database stands inside another, if no entry is listed
/// twice.
pub proof fn database_patterns_stand_apart(active: Seq<usize>)
    requires
        searchable(signature_table(), active),
        active.no_duplicates(),
    ensures
        none_inside_another(patterns_of(signature_table(), active)),
{
    let table = signature_table();
    let patterns = patterns_of(table, active);
    patterns_are_of_active(table, active);
    patterns_one_of_each(table, active);
    assert forall|i: int, j: int, d: int|
        0 <= i < patterns.len() && 0 <= j < patterns.len() && i != j && patterns[i].is_footer
            == patterns[j].is_footer implies !#[trigger] occurs_at(
        patterns[i].bytes,
        patterns[j].bytes,
        d,
    ) by {
        let p = patterns[i];
        let q = patterns[j];
        assert(active[active.index_of(p.sig)] == p.sig);
        assert(active[active.index_of(q.sig)] == q.sig);
        if p.is_footer {
            footers_stand_apart(p.sig as int, q.sig as int, d);
        } else {
            headers_stand_apart(p.sig as int, q.sig as int, d);
        }
    }
}

/// Two scans of a source that holds an image, with blocks and chunks of any
/// size, record the same matches in the same order, cover the same bytes and
/// note no errors, if no pattern stands inside another. That holds of the
/// patterns of the database.
pub proof fn scans_agree<
    R: ReadAt + ?Sized,
    S: ReadAt + ?Sized,
    F: FnMut(u64, usize),
    G: FnMut(u64, usize),
>(
    reader: &R,
    other: &S,
    image: Seq<u8>,
    sigs: Seq<SignatureView>,
    active: Seq<usize>,
    block_size: int,
    chunk_size: int,
    progress: F,
    seen: Seq<u8>,
    a: ScanResult,
    other_block_size: int,
    other_chunk_size: int,
    other_progress: G,
    also_seen: Seq<u8>,
    b: ScanResult,
)
    requires
        reads_inside(reader, image),
        reads_inside(other, image),
        image.len() <= u64::MAX,
        searchable(sigs, active),
        none_inside_another(patterns_of(sigs, active)),
        scan_may(
            reader,
            image.len() as int,
            block_size,
            chunk_size,
            patterns_of(sigs, active),
            progress,
            seen,
            a,
        ),
        scan_may(
            other,
            image.len() as int,
            other_block_size,
            other_chunk_size,
            patterns_of(sigs, active),
            other_progress,
            also_seen,
            b,
        ),
    ensures
        a.headers@ == b.headers@,
        a.footers@ == b.footers@,
        a.bytes_scanned == b.bytes_scanned,
        a.errors@.len() == 0,
        b.errors@.len() == 0,
{
    let total = image.len() as int;
    let chunk = chunk_used(block_size, chunk_size);
    let other_chunk = chunk_used(other_block_size, other_chunk_size);
    image_is_seen_as_it_is(
        reader,
        image,
        0,
        total,
        block_used(block_size),
        chunk,
        seen,
        texts(a.errors@),
    );
    image_is_seen_as_it_is(
        other,
        image,
        0,
        total,
        block_used(other_block_size),
        other_chunk,
        also_seen,
        texts(b.errors@),
    );
    chunk_size_changes_no_order(seen, sigs, active, false, chunk, other_chunk);
    chunk_size_changes_no_order(seen, sigs, active, true, chunk, other_chunk);
}

} // verus!
