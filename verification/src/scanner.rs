//! Scanning: streaming the source in large chunks and recording where
//! signatures stand.
//!
//! The tail of each chunk is carried over to the next, so that matches that
//! span chunks are found, and a match is recorded with the chunk in which it
//! ends, so that none is recorded twice. Read errors never end a scan: a
//! chunk that cannot be read is read again block by block, and blocks that
//! cannot be read count as zeros and are reported.

use vstd::prelude::*;
use vstd::slice::slice_subrange;

use crate::bytes::{matches_at, occurs_at};
use crate::disk::ReadAt;
use crate::error::{IoError, IoErrorView};
use crate::signatures::{views, Signature, SignatureView};
use crate::sizes::least;
use crate::text::{decimal, push_decimal, texts};

verus! {

/// What a scan found.
pub struct ScanResult {
    /// Offset and signature index of every header match, in scan order.
    pub headers: Vec<(u64, usize)>,
    /// Offset and signature index of every footer match, in scan order.
    pub footers: Vec<(u64, usize)>,
    /// The read errors that were met, in words.
    pub errors: Vec<String>,
    pub bytes_scanned: u64,
}

// ---------------------------------------------------------------------------
// Patterns
// ---------------------------------------------------------------------------

/// A byte sequence that is looked for.
struct Pattern {
    bytes: &'static [u8],
    sig: usize,
    is_footer: bool,
}

/// What a [`Pattern`] says.
pub struct PatternView {
    pub bytes: Seq<u8>,
    pub sig: usize,
    pub is_footer: bool,
}

impl View for Pattern {
    type V = PatternView;

    closed spec fn view(&self) -> PatternView {
        PatternView { bytes: self.bytes@, sig: self.sig, is_footer: self.is_footer }
    }
}

/// The patterns of the active signatures: the header of each and, if there is
/// one, its footer.
pub open spec fn patterns_of(sigs: Seq<SignatureView>, active: Seq<usize>) -> Seq<PatternView>
    decreases active.len(),
{
    if active.len() == 0 {
        Seq::empty()
    } else {
        let si = active.last();
        let sig = sigs[si as int];
        let with_header = patterns_of(sigs, active.drop_last()).push(
            PatternView { bytes: sig.header, sig: si, is_footer: false },
        );
        match sig.footer {
            Some(f) => with_header.push(PatternView { bytes: f, sig: si, is_footer: true }),
            None => with_header,
        }
    }
}

/// The length of the longest pattern; one if there is none.
pub open spec fn longest(patterns: Seq<PatternView>) -> nat
    decreases patterns.len(),
{
    if patterns.len() == 0 {
        1
    } else {
        let rest = longest(patterns.drop_last());
        if patterns.last().bytes.len() > rest {
            patterns.last().bytes.len()
        } else {
            rest
        }
    }
}

/// No pattern is longer than the longest.
proof fn longest_bounds(patterns: Seq<PatternView>)
    ensures
        longest(patterns) >= 1,
        forall|k: int|
            0 <= k < patterns.len() ==> (#[trigger] patterns[k]).bytes.len() <= longest(patterns),
    decreases patterns.len(),
{
    if patterns.len() > 0 {
        longest_bounds(patterns.drop_last());
        assert forall|k: int| 0 <= k < patterns.len() implies (#[trigger] patterns[k]).bytes.len()
            <= longest(patterns) by {
            if k < patterns.len() - 1 {
                assert(patterns.drop_last()[k] == patterns[k]);
            }
        }
    }
}

// ---------------------------------------------------------------------------
// Matches
// ---------------------------------------------------------------------------

/// The matches of the first `n` patterns at offset `at` that end after `lo`
/// and no later than `hi`; those of footers or those of headers.
pub open spec fn hits_at(
    seen: Seq<u8>,
    patterns: Seq<PatternView>,
    footer: bool,
    lo: int,
    hi: int,
    at: int,
    n: int,
) -> Seq<(u64, usize)>
    decreases n,
{
    if n <= 0 {
        Seq::empty()
    } else {
        let p = patterns[n - 1];
        let before = hits_at(seen, patterns, footer, lo, hi, at, n - 1);
        if p.is_footer == footer && lo < at + p.bytes.len() <= hi && occurs_at(seen, p.bytes, at) {
            before.push((at as u64, p.sig))
        } else {
            before
        }
    }
}

/// The matches at offsets below `upto` that end after `lo` and no later than
/// `hi`, by offset and then by pattern.
pub open spec fn hits_between(
    seen: Seq<u8>,
    patterns: Seq<PatternView>,
    footer: bool,
    lo: int,
    hi: int,
    upto: int,
) -> Seq<(u64, usize)>
    decreases upto,
{
    if upto <= 0 {
        Seq::empty()
    } else {
        hits_between(seen, patterns, footer, lo, hi, upto - 1) + hits_at(
            seen,
            patterns,
            footer,
            lo,
            hi,
            upto - 1,
            patterns.len() as int,
        )
    }
}

/// All matches that end after offset `lo`, chunk by chunk: first those that
/// end in the first chunk from `lo` on, then those that end in the next, and so
/// on; within a chunk by offset and then by pattern.
pub open spec fn scan_hits(
    seen: Seq<u8>,
    patterns: Seq<PatternView>,
    footer: bool,
    chunk: int,
    lo: int,
) -> Seq<(u64, usize)>
    decreases seen.len() - lo,
{
    if lo >= seen.len() || chunk <= 0 {
        Seq::empty()
    } else {
        let hi = least(lo + chunk, seen.len() as int);
        hits_between(seen, patterns, footer, lo, hi, hi) + scan_hits(
            seen,
            patterns,
            footer,
            chunk,
            hi,
        )
    }
}

// ---------------------------------------------------------------------------
// Reading
// ---------------------------------------------------------------------------

/// `n` zero bytes.
pub open spec fn zeros(n: int) -> Seq<u8> {
    Seq::new(n as nat, |i: int| 0u8)
}

/// The report of a chunk that could not be read at all.
pub open spec fn region_note(pos: int, e: IoErrorView) -> Seq<char> {
    "read error at offset "@ + decimal(pos as nat) + ": "@ + e.message + " — region skipped"@
}

/// The report of a block that could not be read.
pub open spec fn block_note(pos: int, e: IoErrorView) -> Seq<char> {
    "read error at offset "@ + decimal(pos as nat) + ": "@ + e.message + " — block skipped"@
}

/// Whether reading `len` bytes from `pos` on block by block may give `bytes`
/// and the reports `notes`: a block that cannot be read counts as zeros and is
/// reported.
pub open spec fn blocks_may<R: ReadAt + ?Sized>(
    reader: &R,
    pos: int,
    len: int,
    block: int,
    bytes: Seq<u8>,
    notes: Seq<Seq<char>>,
) -> bool
    decreases len,
{
    if len <= 0 || block <= 0 {
        bytes.len() == 0 && notes.len() == 0
    } else {
        let n = least(block, len);
        &&& bytes.len() == len
        &&& {
            ||| reader.may_read(pos as u64, n as nat, Ok(bytes.take(n))) && blocks_may(
                reader,
                pos + n,
                len - n,
                block,
                bytes.skip(n),
                notes,
            )
            ||| exists|e: IoErrorView|
                {
                    &&& #[trigger] reader.may_read(pos as u64, n as nat, Err(e))
                    &&& bytes.take(n) == zeros(n)
                    &&& notes.len() > 0
                    &&& notes[0] == block_note(pos, e)
                    &&& blocks_may(
                        reader,
                        pos + n,
                        len - n,
                        block,
                        bytes.skip(n),
                        notes.drop_first(),
                    )
                }
        }
    }
}

/// Whether reading `len` bytes from `pos` on may give `bytes` and the reports
/// `notes`: all at once, or block by block if that fails. If it fails and there
/// is only one block, that counts as zeros and is reported.
pub open spec fn span_may<R: ReadAt + ?Sized>(
    reader: &R,
    pos: int,
    len: int,
    block: int,
    bytes: Seq<u8>,
    notes: Seq<Seq<char>>,
) -> bool {
    &&& bytes.len() == len
    &&& {
        ||| len == 0 && notes.len() == 0
        ||| reader.may_read(pos as u64, len as nat, Ok(bytes)) && notes.len() == 0
        ||| exists|e: IoErrorView| #[trigger]
            reader.may_read(pos as u64, len as nat, Err(e)) && (if len <= block {
                bytes == zeros(len) && notes == seq![region_note(pos, e)]
            } else {
                blocks_may(reader, pos, len, block, bytes, notes)
            })
    }
}

/// Whether reading a source of `total` bytes chunk by chunk, from `pos` on, may
/// give `bytes` and the reports `notes`.
pub open spec fn source_may<R: ReadAt + ?Sized>(
    reader: &R,
    pos: int,
    total: int,
    block: int,
    chunk: int,
    bytes: Seq<u8>,
    notes: Seq<Seq<char>>,
) -> bool
    decreases total - pos,
{
    if pos >= total || chunk <= 0 {
        bytes.len() == 0 && notes.len() == 0
    } else {
        let n = least(chunk, total - pos);
        &&& bytes.len() == total - pos
        &&& exists|here: Seq<Seq<char>>|
            {
                &&& #[trigger] span_may(reader, pos, n, block, bytes.take(n), here)
                &&& here.is_prefix_of(notes)
                &&& source_may(
                    reader,
                    pos + n,
                    total,
                    block,
                    chunk,
                    bytes.skip(n),
                    notes.skip(here.len() as int),
                )
            }
    }
}

/// Appends the report of a failed read: `region` tells a whole chunk from a
/// block.
fn push_note(errors: &mut Vec<String>, pos: u64, e: &IoError, region: bool)
    ensures
        texts(final(errors)@) == texts(old(errors)@).push(
            if region {
                region_note(pos as int, e@)
            } else {
                block_note(pos as int, e@)
            },
        ),
{
    let mut note: String = String::new();
    note.append("read error at offset ");
    push_decimal(&mut note, pos);
    note.append(": ");
    note.append(e.message.as_str());
    if region {
        note.append(" — region skipped");
        assert(note@ =~= region_note(pos as int, e@));
    } else {
        note.append(" — block skipped");
        assert(note@ =~= block_note(pos as int, e@));
    }
    errors.push(note);
    assert(texts(errors@) =~= texts(old(errors)@).push(note@));
}

/// Sets all of `buf` to zero.
fn clear(buf: &mut [u8])
    ensures
        final(buf)@ == zeros(old(buf)@.len() as int),
{
    let len: usize = buf.len();
    let mut k: usize = 0;
    while k < len
        invariant
            k <= len,
            buf@.len() == len,
            forall|j: int| 0 <= j < k ==> buf@[j] == 0,
        decreases len - k,
    {
        buf[k] = 0;
        k = k + 1;
    }
    assert(buf@ =~= zeros(len as int));
}

/// Fills `buf` with the bytes at `pos`. If that fails, it is tried again block
/// by block, so that one bad sector does not lose a whole chunk; failed blocks
/// are set to zero and reported. Returns how many bytes were filled.
fn read_span<R: ReadAt + ?Sized>(
    reader: &R,
    pos: u64,
    buf: &mut [u8],
    block_size: u64,
    errors: &mut Vec<String>,
) -> (n: usize)
    requires
        pos + old(buf)@.len() <= u64::MAX,
        0 < block_size,
    ensures
        n == old(buf)@.len(),
        exists|notes: Seq<Seq<char>>|
            span_may(
                reader,
                pos as int,
                n as int,
                block_size as int,
                final(buf)@,
                notes,
            ) && texts(final(errors)@) == #[trigger] (texts(old(errors)@) + notes),
{
    let len: usize = buf.len();
    if len == 0 {
        assert(texts(errors@) =~= texts(old(errors)@) + Seq::<Seq<char>>::empty());
        return 0;
    }
    let whole: Result<(), IoError> = reader.read_exact_at(pos, buf);
    if let Err(e) = whole {
        if len as u64 <= block_size {
            push_note(errors, pos, &e, true);
            clear(buf);
            proof {
                let notes = seq![region_note(pos as int, e@)];
                assert(reader.may_read(pos as int as u64, len as int as nat, Err(e@)));
                assert(texts(errors@) =~= texts(old(errors)@) + notes);
                assert(span_may(
                    reader,
                    pos as int,
                    len as int,
                    block_size as int,
                    buf@,
                    notes,
                ));
            }
            return len;
        }
        read_blocks(reader, pos, buf, block_size, errors);
        proof {
            let notes = choose|notes: Seq<Seq<char>>|
                blocks_may(reader, pos as int, len as int, block_size as int, buf@, notes)
                    && texts(errors@) == #[trigger] (texts(old(errors)@) + notes);
            let (p, l, b): (int, int, int) = (pos as int, len as int, block_size as int);
            assert(blocks_may(reader, p, l, b, buf@, notes));
            assert(reader.may_read(p as u64, l as nat, Err(e@)));
            assert(span_may(reader, p, l, b, buf@, notes));
        }
        return len;
    }
    proof {
        let notes = Seq::<Seq<char>>::empty();
        assert(texts(errors@) =~= texts(old(errors)@) + notes);
        assert(span_may(reader, pos as int, len as int, block_size as int, buf@, notes));
    }
    len
}

/// Fills `buf` with the bytes at `pos`, block by block. Blocks that cannot be
/// read are set to zero and reported.
fn read_blocks<R: ReadAt + ?Sized>(
    reader: &R,
    pos: u64,
    buf: &mut [u8],
    block_size: u64,
    errors: &mut Vec<String>,
)
    requires
        pos + old(buf)@.len() <= u64::MAX,
        0 < block_size <= old(buf)@.len(),
    ensures
        final(buf)@.len() == old(buf)@.len(),
        exists|notes: Seq<Seq<char>>|
            blocks_may(
                reader,
                pos as int,
                old(buf)@.len() as int,
                block_size as int,
                final(buf)@,
                notes,
            ) && texts(final(errors)@) == #[trigger] (texts(old(errors)@) + notes),
{
    let len: usize = buf.len();
    let bs: usize = block_size as usize;
    let mut done: usize = 0;
    let ghost start: Seq<Seq<char>> = texts(errors@);
    let ghost mut notes: Seq<Seq<char>> = Seq::empty();
    proof {
        assert(start + notes =~= start);
        assert forall|b: Seq<u8>, m: Seq<Seq<char>>| #[trigger]
            blocks_may(reader, pos + done, len - done, block_size as int, b, m) implies blocks_may(
            reader,
            pos as int,
            len as int,
            block_size as int,
            buf@.take(done as int) + b,
            notes + m,
        ) by {
            assert(buf@.take(0) + b =~= b);
            assert(notes + m =~= m);
        }
    }
    while done < len
        invariant
            done <= len,
            buf@.len() == len,
            pos + len <= u64::MAX,
            bs == block_size,
            0 < bs,
            texts(errors@) == start + notes,
            forall|b: Seq<u8>, m: Seq<Seq<char>>| #[trigger]
                blocks_may(reader, pos + done, len - done, block_size as int, b, m) ==> blocks_may(
                    reader,
                    pos as int,
                    len as int,
                    block_size as int,
                    buf@.take(done as int) + b,
                    notes + m,
                ),
        decreases len - done,
    {
        let n: usize = if len - done < bs {
            len - done
        } else {
            bs
        };
        let off: u64 = pos + done as u64;
        let ghost before: Seq<u8> = buf@;
        let ghost noted: Seq<Seq<char>> = notes;
        let (_, rest) = buf.split_at_mut(done);
        let (sub, _) = rest.split_at_mut(n);
        let outcome: Result<(), IoError> = reader.read_exact_at(off, sub);
        if let Err(e) = &outcome {
            push_note(errors, off, e, false);
            clear(sub);
            proof {
                notes = notes.push(block_note(off as int, e@));
                assert(texts(errors@) =~= start + notes);
            }
        }
        let ghost piece: Seq<u8> = sub@;
        assert(match outcome {
            Ok(()) => reader.may_read(off, n as nat, Ok(piece)),
            Err(e) => reader.may_read(off, n as nat, Err(e@)) && piece == zeros(n as int),
        });
        assert(buf@.subrange(done as int, done + n) =~= piece);
        assert(buf@.take(done as int) =~= before.take(done as int));
        assert(buf@.take(done + n) =~= buf@.take(done as int) + piece);
        proof {
            assert forall|b: Seq<u8>, m: Seq<Seq<char>>| #[trigger]
                blocks_may(
                    reader,
                    pos + (done + n),
                    len - (done + n),
                    block_size as int,
                    b,
                    m,
                ) implies blocks_may(
                reader,
                pos as int,
                len as int,
                block_size as int,
                buf@.take(done + n) + b,
                notes + m,
            ) by {
                let more = piece + b;
                assert(more.take(n as int) =~= piece);
                assert(more.skip(n as int) =~= b);
                assert(buf@.take(done as int) + more =~= buf@.take(done + n) + b);
                match outcome {
                    Ok(()) => {
                        assert(blocks_may(
                            reader,
                            pos + done,
                            len - done,
                            block_size as int,
                            more,
                            m,
                        ));
                    },
                    Err(e) => {
                        let own = seq![block_note(off as int, e@)] + m;
                        assert(own.drop_first() =~= m);
                        assert(noted + own =~= notes + m);
                        assert(blocks_may(
                            reader,
                            pos + done,
                            len - done,
                            block_size as int,
                            more,
                            own,
                        ));
                    },
                }
            }
        }
        done = done + n;
    }
    proof {
        let none = Seq::<u8>::empty();
        let silent = Seq::<Seq<char>>::empty();
        assert(blocks_may(reader, pos + done, len - done, block_size as int, none, silent));
        assert(buf@.take(done as int) + none =~= buf@);
        assert(notes + silent =~= notes);
    }
}

// ---------------------------------------------------------------------------
// Searching
// ---------------------------------------------------------------------------

/// What each pattern of a list says.
spec fn pattern_views(patterns: Seq<Pattern>) -> Seq<PatternView> {
    patterns.map_values(|p: Pattern| p@)
}

/// Whether a scan for the active signatures is possible: each of them exists,
/// and none of its patterns is empty.
pub open spec fn searchable(sigs: Seq<SignatureView>, active: Seq<usize>) -> bool {
    forall|k: int|
        #![trigger active[k]]
        0 <= k < active.len() ==> {
            &&& active[k] < sigs.len()
            &&& sigs[active[k] as int].header.len() > 0
            &&& sigs[active[k] as int].footer matches Some(f) ==> f.len() > 0
        }
}

/// Whether no pattern is empty.
pub open spec fn none_empty(patterns: Seq<PatternView>) -> bool {
    forall|k: int| 0 <= k < patterns.len() ==> (#[trigger] patterns[k]).bytes.len() > 0
}

/// The patterns of the active signatures.
fn collect_patterns(sigs: &[Signature], active: &[usize]) -> (patterns: Vec<Pattern>)
    requires
        searchable(views(sigs@), active@),
    ensures
        pattern_views(patterns@) == patterns_of(views(sigs@), active@),
        none_empty(pattern_views(patterns@)),
{
    let mut patterns: Vec<Pattern> = Vec::new();
    let mut k: usize = 0;
    assert(pattern_views(patterns@) =~= patterns_of(views(sigs@), active@.take(0)));
    while k < active.len()
        invariant
            k <= active@.len(),
            searchable(views(sigs@), active@),
            pattern_views(patterns@) == patterns_of(views(sigs@), active@.take(k as int)),
            none_empty(pattern_views(patterns@)),
        decreases active@.len() - k,
    {
        let si: usize = active[k];
        assert(active@[k as int] < views(sigs@).len());
        let s: &Signature = &sigs[si];
        assert(views(sigs@)[si as int] == s@);
        let ghost before: Seq<PatternView> = pattern_views(patterns@);
        let ghost found: Seq<usize> = active@.take(k + 1);
        assert(found.drop_last() =~= active@.take(k as int));
        assert(found.last() == si);
        patterns.push(Pattern { bytes: s.header, sig: si, is_footer: false });
        let ghost head: PatternView = PatternView { bytes: s@.header, sig: si, is_footer: false };
        assert(pattern_views(patterns@) =~= before.push(head));
        if let Some(f) = s.footer {
            let ghost foot: PatternView = PatternView { bytes: f@, sig: si, is_footer: true };
            patterns.push(Pattern { bytes: f, sig: si, is_footer: true });
            assert(pattern_views(patterns@) =~= before.push(head).push(foot));
        }
        k = k + 1;
    }
    assert(active@.take(k as int) =~= active@);
    patterns
}

/// The length of the longest pattern; one if there is none.
fn longest_length(patterns: &Vec<Pattern>) -> (len: usize)
    ensures
        len == longest(pattern_views(patterns@)),
{
    let mut len: usize = 1;
    let mut k: usize = 0;
    let ghost all: Seq<PatternView> = pattern_views(patterns@);
    while k < patterns.len()
        invariant
            k <= patterns@.len(),
            all == pattern_views(patterns@),
            len == longest(all.take(k as int)),
        decreases patterns@.len() - k,
    {
        let n: usize = patterns[k].bytes.len();
        assert(all.take(k + 1).drop_last() =~= all.take(k as int));
        assert(all.take(k + 1).last().bytes.len() == n);
        if n > len {
            len = n;
        }
        k = k + 1;
    }
    assert(all.take(k as int) =~= all);
    len
}

/// Whether `list` holds, in ascending order, those of the first `n` patterns
/// that begin with the byte `b`.
spec fn lists(list: Seq<usize>, patterns: Seq<PatternView>, n: int, b: int) -> bool {
    &&& forall|j: int|
        0 <= j < list.len() ==> (#[trigger] list[j]) < n && patterns[list[j] as int].bytes[0] == b
    &&& forall|i: int, j: int| 0 <= i < j < list.len() ==> list[i] < list[j]
    &&& forall|k: int|
        0 <= k < n && (#[trigger] patterns[k]).bytes[0] == b ==> exists|j: int|
            0 <= j < list.len() && #[trigger] list[j] == k
}

/// Whether `index` lists, for every byte, the patterns that begin with it.
spec fn indexes(index: Seq<Vec<usize>>, patterns: Seq<PatternView>, n: int) -> bool {
    &&& index.len() == 256
    &&& forall|b: int| 0 <= b < 256 ==> lists((#[trigger] index[b])@, patterns, n, b)
}

/// Lists, for every byte, the patterns that begin with it.
fn index_by_first_byte(patterns: &Vec<Pattern>) -> (index: Vec<Vec<usize>>)
    requires
        none_empty(pattern_views(patterns@)),
    ensures
        indexes(index@, pattern_views(patterns@), patterns@.len() as int),
{
    let ghost all: Seq<PatternView> = pattern_views(patterns@);
    let mut index: Vec<Vec<usize>> = Vec::new();
    let mut b: usize = 0;
    while b < 256
        invariant
            b <= 256,
            index@.len() == b,
            forall|j: int| 0 <= j < b ==> lists((#[trigger] index@[j])@, all, 0, j),
        decreases 256 - b,
    {
        index.push(Vec::new());
        b = b + 1;
    }
    let mut k: usize = 0;
    while k < patterns.len()
        invariant
            k <= patterns@.len(),
            all == pattern_views(patterns@),
            none_empty(all),
            indexes(index@, all, k as int),
        decreases patterns@.len() - k,
    {
        assert(all[k as int].bytes.len() > 0);
        let first: usize = patterns[k].bytes[0] as usize;
        let ghost before: Seq<Vec<usize>> = index@;
        index[first].push(k);
        assert forall|b: int| 0 <= b < 256 implies lists((#[trigger] index@[b])@, all, k + 1, b) by {
            let old_list = before[b]@;
            let list = index@[b]@;
            assert(lists(old_list, all, k as int, b));
            if b == first {
                assert(list == old_list.push(k));
                assert forall|i: int| 0 <= i < k + 1 && (#[trigger] all[i]).bytes[0] == b implies exists|
                    j: int,
                | 0 <= j < list.len() && #[trigger] list[j] == i by {
                    if i == k {
                        assert(list[list.len() - 1] == k);
                    } else {
                        let j = choose|j: int| 0 <= j < old_list.len() && #[trigger] old_list[j] == i;
                        assert(list[j] == i);
                    }
                }
            } else {
                assert(list == old_list);
            }
        }
        k = k + 1;
    }
    index
}

/// Patterns that do not occur at `at` add nothing to the matches there.
proof fn hits_skip(
    seen: Seq<u8>,
    patterns: Seq<PatternView>,
    footer: bool,
    lo: int,
    hi: int,
    at: int,
    n: int,
    m: int,
)
    requires
        0 <= n <= m <= patterns.len(),
        forall|k: int| n <= k < m ==> !occurs_at(seen, (#[trigger] patterns[k]).bytes, at),
    ensures
        hits_at(seen, patterns, footer, lo, hi, at, m) == hits_at(
            seen,
            patterns,
            footer,
            lo,
            hi,
            at,
            n,
        ),
    decreases m - n,
{
    if n < m {
        assert(!occurs_at(seen, patterns[m - 1].bytes, at));
        hits_skip(seen, patterns, footer, lo, hi, at, n, m - 1);
    }
}

/// Where every pattern that starts at or before `upto` ends by `lo`, nothing
/// is recorded.
proof fn hits_before(
    seen: Seq<u8>,
    patterns: Seq<PatternView>,
    footer: bool,
    lo: int,
    hi: int,
    at: int,
    n: int,
)
    requires
        n <= patterns.len(),
        forall|k: int| 0 <= k < n ==> at + (#[trigger] patterns[k]).bytes.len() <= lo,
    ensures
        hits_at(seen, patterns, footer, lo, hi, at, n) == Seq::<(u64, usize)>::empty(),
    decreases n,
{
    if n > 0 {
        assert(at + patterns[n - 1].bytes.len() <= lo);
        hits_before(seen, patterns, footer, lo, hi, at, n - 1);
    }
}

/// Matches below `upto` all end by `lo` if even the longest does.
proof fn nothing_carried(
    seen: Seq<u8>,
    patterns: Seq<PatternView>,
    footer: bool,
    lo: int,
    hi: int,
    upto: int,
)
    requires
        upto - 1 + longest(patterns) <= lo,
    ensures
        hits_between(seen, patterns, footer, lo, hi, upto) == Seq::<(u64, usize)>::empty(),
    decreases upto,
{
    if upto > 0 {
        nothing_carried(seen, patterns, footer, lo, hi, upto - 1);
        longest_bounds(patterns);
        hits_before(seen, patterns, footer, lo, hi, upto - 1, patterns.len() as int);
        assert(hits_between(seen, patterns, footer, lo, hi, upto) =~= Seq::empty());
    }
}

/// A pattern stands in a window exactly where it stands in all that was seen.
proof fn occurs_in_window(now: Seq<u8>, window: Seq<u8>, base: int, needle: Seq<u8>, i: int)
    requires
        0 <= base <= now.len(),
        window == now.skip(base),
        0 <= i,
    ensures
        occurs_at(window, needle, i) == occurs_at(now, needle, base + i),
{
    if i + needle.len() <= window.len() {
        assert(window.subrange(i, i + needle.len()) =~= now.subrange(
            base + i,
            base + i + needle.len(),
        ));
    }
}

/// Records the matches at position `i` of a window that starts at `base`.
fn search_position(
    window: &[u8],
    base: u64,
    i: usize,
    lo: u64,
    patterns: &Vec<Pattern>,
    candidates: &Vec<usize>,
    headers: &mut Vec<(u64, usize)>,
    footers: &mut Vec<(u64, usize)>,
    Ghost(now): Ghost<Seq<u8>>,
)
    requires
        base + window@.len() == now.len(),
        now.len() <= u64::MAX,
        window@ == now.skip(base as int),
        i < window@.len(),
        none_empty(pattern_views(patterns@)),
        lists(
            candidates@,
            pattern_views(patterns@),
            patterns@.len() as int,
            window@[i as int] as int,
        ),
    ensures
        final(headers)@ == old(headers)@ + hits_at(
            now,
            pattern_views(patterns@),
            false,
            lo as int,
            now.len() as int,
            base + i,
            patterns@.len() as int,
        ),
        final(footers)@ == old(footers)@ + hits_at(
            now,
            pattern_views(patterns@),
            true,
            lo as int,
            now.len() as int,
            base + i,
            patterns@.len() as int,
        ),
{
    let ghost all: Seq<PatternView> = pattern_views(patterns@);
    let ghost hi: int = now.len() as int;
    let ghost at: int = base + i;
    let ghost h0: Seq<(u64, usize)> = headers@;
    let ghost f0: Seq<(u64, usize)> = footers@;
    let ghost mut done: int = 0;
    let mut j: usize = 0;
    assert(headers@ =~= h0 + hits_at(now, all, false, lo as int, hi, at, 0));
    assert(footers@ =~= f0 + hits_at(now, all, true, lo as int, hi, at, 0));
    while j < candidates.len()
        invariant
            j <= candidates@.len(),
            all == pattern_views(patterns@),
            hi == now.len(),
            at == base + i,
            base + window@.len() == now.len(),
            now.len() <= u64::MAX,
            window@ == now.skip(base as int),
            i < window@.len(),
            none_empty(all),
            lists(candidates@, all, patterns@.len() as int, window@[i as int] as int),
            0 <= done <= patterns@.len(),
            done == if j == 0 {
                0
            } else {
                candidates@[j - 1] + 1
            },
            headers@ == h0 + hits_at(now, all, false, lo as int, hi, at, done),
            footers@ == f0 + hits_at(now, all, true, lo as int, hi, at, done),
        decreases candidates@.len() - j,
    {
        let pi: usize = candidates[j];
        assert(candidates@[j as int] < patterns@.len());
        let p: &Pattern = &patterns[pi];
        assert(all[pi as int] == p@);
        assert forall|k: int| done <= k < pi implies !occurs_at(
            now,
            (#[trigger] all[k]).bytes,
            at,
        ) by {
            missed_by_candidates(candidates@, all, j as int, done, k, now, at);
        }
        proof {
            hits_skip(now, all, false, lo as int, hi, at, done, pi as int);
            hits_skip(now, all, true, lo as int, hi, at, done, pi as int);
            occurs_in_window(now, window@, base as int, p@.bytes, i as int);
        }
        if matches_at(window, p.bytes, i) {
            let abs: u64 = base + i as u64;
            if abs + p.bytes.len() as u64 > lo {
                if p.is_footer {
                    footers.push((abs, p.sig));
                } else {
                    headers.push((abs, p.sig));
                }
            }
        }
        proof {
            done = pi + 1;
        }
        assert(headers@ =~= h0 + hits_at(now, all, false, lo as int, hi, at, done));
        assert(footers@ =~= f0 + hits_at(now, all, true, lo as int, hi, at, done));
        j = j + 1;
    }
    assert forall|k: int| done <= k < patterns@.len() implies !occurs_at(
        now,
        (#[trigger] all[k]).bytes,
        at,
    ) by {
        missed_by_candidates(candidates@, all, j as int, done, k, now, at);
    }
    proof {
        hits_skip(now, all, false, lo as int, hi, at, done, patterns@.len() as int);
        hits_skip(now, all, true, lo as int, hi, at, done, patterns@.len() as int);
    }
}

/// A pattern between two neighbouring candidates, or after the last, begins
/// with another byte and so does not occur.
proof fn missed_by_candidates(
    candidates: Seq<usize>,
    patterns: Seq<PatternView>,
    j: int,
    done: int,
    k: int,
    now: Seq<u8>,
    at: int,
)
    requires
        0 <= at < now.len(),
        none_empty(patterns),
        lists(candidates, patterns, patterns.len() as int, now[at] as int),
        0 <= j <= candidates.len(),
        done == if j == 0 {
            0
        } else {
            candidates[j - 1] + 1
        },
        done <= k < patterns.len(),
        j < candidates.len() ==> k < candidates[j],
    ensures
        !occurs_at(now, patterns[k].bytes, at),
{
    let bytes = patterns[k].bytes;
    if occurs_at(now, bytes, at) {
        assert(bytes.len() > 0);
        assert(now.subrange(at, at + bytes.len())[0] == now[at]);
        let m = choose|m: int| 0 <= m < candidates.len() && #[trigger] candidates[m] == k;
        if m < j {
            assert(candidates[m] <= candidates[j - 1]);
        } else {
            assert(candidates[j] <= candidates[m]);
        }
    }
}

/// Records the matches in a window that end after `lo`. The window is the end
/// of all that was seen, `now`, from `base` on; it reaches far enough back to
/// hold every such match.
fn search_window(
    window: &[u8],
    base: u64,
    lo: u64,
    patterns: &Vec<Pattern>,
    index: &Vec<Vec<usize>>,
    headers: &mut Vec<(u64, usize)>,
    footers: &mut Vec<(u64, usize)>,
    Ghost(now): Ghost<Seq<u8>>,
)
    requires
        base + window@.len() == now.len(),
        now.len() <= u64::MAX,
        window@ == now.skip(base as int),
        none_empty(pattern_views(patterns@)),
        indexes(index@, pattern_views(patterns@), patterns@.len() as int),
        base == 0 || base - 1 + longest(pattern_views(patterns@)) <= lo,
    ensures
        final(headers)@ == old(headers)@ + hits_between(
            now,
            pattern_views(patterns@),
            false,
            lo as int,
            now.len() as int,
            now.len() as int,
        ),
        final(footers)@ == old(footers)@ + hits_between(
            now,
            pattern_views(patterns@),
            true,
            lo as int,
            now.len() as int,
            now.len() as int,
        ),
{
    let ghost all: Seq<PatternView> = pattern_views(patterns@);
    let ghost hi: int = now.len() as int;
    let ghost h0: Seq<(u64, usize)> = headers@;
    let ghost f0: Seq<(u64, usize)> = footers@;
    proof {
        if base > 0 {
            nothing_carried(now, all, false, lo as int, hi, base as int);
            nothing_carried(now, all, true, lo as int, hi, base as int);
        }
        assert(headers@ =~= h0 + hits_between(now, all, false, lo as int, hi, base as int));
        assert(footers@ =~= f0 + hits_between(now, all, true, lo as int, hi, base as int));
    }
    let mut i: usize = 0;
    while i < window.len()
        invariant
            i <= window@.len(),
            all == pattern_views(patterns@),
            hi == now.len(),
            base + window@.len() == now.len(),
            now.len() <= u64::MAX,
            window@ == now.skip(base as int),
            none_empty(all),
            indexes(index@, all, patterns@.len() as int),
            headers@ == h0 + hits_between(now, all, false, lo as int, hi, base + i),
            footers@ == f0 + hits_between(now, all, true, lo as int, hi, base + i),
        decreases window@.len() - i,
    {
        let first: usize = window[i] as usize;
        search_position(
            window,
            base,
            i,
            lo,
            patterns,
            &index[first],
            headers,
            footers,
            Ghost(now),
        );
        assert(headers@ =~= h0 + hits_between(now, all, false, lo as int, hi, base + i + 1));
        assert(footers@ =~= f0 + hits_between(now, all, true, lo as int, hi, base + i + 1));
        i = i + 1;
    }
}

// ---------------------------------------------------------------------------
// The scan
// ---------------------------------------------------------------------------

/// The larger of two numbers.
pub open spec fn larger(a: int, b: int) -> int {
    if a >= b {
        a
    } else {
        b
    }
}

/// The block size that a scan works with: no less than a sector.
pub open spec fn block_used(block_size: int) -> int {
    larger(block_size, 512)
}

/// The chunk size that a scan works with: no less than a block.
pub open spec fn chunk_used(block_size: int, chunk_size: int) -> int {
    larger(chunk_size, block_used(block_size))
}

/// Whether `progress` was called after every chunk from offset `lo` on, with
/// the number of bytes scanned and of headers found so far. Before `lo`,
/// `found` headers had been found.
pub open spec fn progress_made<F: FnMut(u64, usize)>(
    progress: F,
    seen: Seq<u8>,
    patterns: Seq<PatternView>,
    chunk: int,
    lo: int,
    found: nat,
) -> bool
    decreases seen.len() - lo,
{
    if lo >= seen.len() || chunk <= 0 {
        true
    } else {
        let hi = least(lo + chunk, seen.len() as int);
        let now = found + hits_between(seen, patterns, false, lo, hi, hi).len();
        &&& call_ensures(progress, (hi as u64, now as usize), ())
        &&& progress_made(progress, seen, patterns, chunk, hi, now)
    }
}

/// Whether a scan of the first `total` bytes of the source may give `result`:
/// the bytes seen are those that the source may give when read chunk by chunk,
/// the read errors are reported, and all matches in the bytes seen are
/// recorded.
pub open spec fn scan_may<R: ReadAt + ?Sized, F: FnMut(u64, usize)>(
    reader: &R,
    total: int,
    block_size: int,
    chunk_size: int,
    patterns: Seq<PatternView>,
    progress: F,
    seen: Seq<u8>,
    result: ScanResult,
) -> bool {
    let chunk = chunk_used(block_size, chunk_size);
    &&& seen.len() == total
    &&& source_may(reader, 0, total, block_used(block_size), chunk, seen, texts(result.errors@))
    &&& result.headers@ == scan_hits(seen, patterns, false, chunk, 0)
    &&& result.footers@ == scan_hits(seen, patterns, true, chunk, 0)
    &&& result.bytes_scanned == total
    &&& progress_made(progress, seen, patterns, chunk, 0, 0)
}

/// The matches at one place that end by `hi` depend on the first `hi` bytes
/// only.
proof fn hits_at_prefix(
    full: Seq<u8>,
    patterns: Seq<PatternView>,
    footer: bool,
    lo: int,
    hi: int,
    at: int,
    n: int,
)
    requires
        0 <= hi <= full.len(),
        0 <= at,
    ensures
        hits_at(full, patterns, footer, lo, hi, at, n) == hits_at(
            full.take(hi),
            patterns,
            footer,
            lo,
            hi,
            at,
            n,
        ),
    decreases n,
{
    if n > 0 {
        hits_at_prefix(full, patterns, footer, lo, hi, at, n - 1);
        let bytes = patterns[n - 1].bytes;
        if at + bytes.len() <= hi {
            assert(full.subrange(at, at + bytes.len()) =~= full.take(hi).subrange(
                at,
                at + bytes.len(),
            ));
        }
    }
}

/// The matches that end by `hi` depend on the first `hi` bytes only.
proof fn hits_between_prefix(
    full: Seq<u8>,
    patterns: Seq<PatternView>,
    footer: bool,
    lo: int,
    hi: int,
    upto: int,
)
    requires
        0 <= hi <= full.len(),
    ensures
        hits_between(full, patterns, footer, lo, hi, upto) == hits_between(
            full.take(hi),
            patterns,
            footer,
            lo,
            hi,
            upto,
        ),
    decreases upto,
{
    if upto > 0 {
        hits_between_prefix(full, patterns, footer, lo, hi, upto - 1);
        hits_at_prefix(full, patterns, footer, lo, hi, upto - 1, patterns.len() as int);
    }
}

/// Whether reading on from `pos` in any way completes a read of the source
/// that has given `sofar` and the reports `notes` up to there.
#[verifier::opaque]
spec fn source_so_far<R: ReadAt + ?Sized>(
    reader: &R,
    pos: int,
    total: int,
    block: int,
    chunk: int,
    sofar: Seq<u8>,
    notes: Seq<Seq<char>>,
) -> bool {
    forall|b: Seq<u8>, m: Seq<Seq<char>>| #[trigger]
        source_may(reader, pos, total, block, chunk, b, m) ==> source_may(
            reader,
            0,
            total,
            block,
            chunk,
            sofar + b,
            notes + m,
        )
}

/// Nothing has been read at the start.
proof fn source_start<R: ReadAt + ?Sized>(reader: &R, total: int, block: int, chunk: int)
    ensures
        source_so_far(
            reader,
            0,
            total,
            block,
            chunk,
            Seq::<u8>::empty(),
            Seq::<Seq<char>>::empty(),
        ),
{
    reveal(source_so_far);
    assert forall|b: Seq<u8>, m: Seq<Seq<char>>| #[trigger]
        source_may(reader, 0, total, block, chunk, b, m) implies source_may(
        reader,
        0,
        total,
        block,
        chunk,
        Seq::<u8>::empty() + b,
        Seq::<Seq<char>>::empty() + m,
    ) by {
        assert(Seq::<u8>::empty() + b =~= b);
        assert(Seq::<Seq<char>>::empty() + m =~= m);
    }
}

/// One more chunk is read.
proof fn source_step<R: ReadAt + ?Sized>(
    reader: &R,
    pos: int,
    total: int,
    block: int,
    chunk: int,
    sofar: Seq<u8>,
    notes: Seq<Seq<char>>,
    bytes: Seq<u8>,
    here: Seq<Seq<char>>,
)
    requires
        source_so_far(reader, pos, total, block, chunk, sofar, notes),
        0 <= pos < total,
        0 < chunk,
        bytes.len() == least(chunk, total - pos),
        span_may(reader, pos, bytes.len() as int, block, bytes, here),
    ensures
        source_so_far(reader, pos + bytes.len(), total, block, chunk, sofar + bytes, notes + here),
{
    reveal(source_so_far);
    let n = bytes.len() as int;
    assert forall|b: Seq<u8>, m: Seq<Seq<char>>| #[trigger]
        source_may(reader, pos + n, total, block, chunk, b, m) implies source_may(
        reader,
        0,
        total,
        block,
        chunk,
        sofar + bytes + b,
        notes + here + m,
    ) by {
        let more = bytes + b;
        assert(more.take(n) =~= bytes);
        assert(more.skip(n) =~= b);
        assert(more.len() == total - pos);
        assert(span_may(reader, pos, n, block, more.take(n), here));
        assert((here + m).skip(here.len() as int) =~= m);
        assert(here.is_prefix_of(here + m));
        assert(source_may(reader, pos, total, block, chunk, more, here + m));
        assert(sofar + more =~= sofar + bytes + b);
        assert(notes + (here + m) =~= notes + here + m);
    }
}

/// Whether the matches recorded up to `pos`, where `sofar` had been seen, are
/// the first of all matches, however the source goes on.
#[verifier::opaque]
spec fn hits_so_far(
    total: int,
    patterns: Seq<PatternView>,
    footer: bool,
    chunk: int,
    pos: int,
    sofar: Seq<u8>,
    hits: Seq<(u64, usize)>,
) -> bool {
    forall|full: Seq<u8>|
        full.len() == total && #[trigger] full.take(pos) == sofar ==> scan_hits(
            full,
            patterns,
            footer,
            chunk,
            0,
        ) == hits + scan_hits(full, patterns, footer, chunk, pos)
}

/// Nothing is recorded at the start.
proof fn hits_start(total: int, patterns: Seq<PatternView>, footer: bool, chunk: int)
    ensures
        hits_so_far(
            total,
            patterns,
            footer,
            chunk,
            0,
            Seq::<u8>::empty(),
            Seq::<(u64, usize)>::empty(),
        ),
{
    reveal(hits_so_far);
    assert forall|full: Seq<u8>|
        full.len() == total && #[trigger] full.take(0) == Seq::<u8>::empty() implies scan_hits(
        full,
        patterns,
        footer,
        chunk,
        0,
    ) == Seq::<(u64, usize)>::empty() + scan_hits(full, patterns, footer, chunk, 0) by {
        let hits = scan_hits(full, patterns, footer, chunk, 0);
        assert(Seq::<(u64, usize)>::empty() + hits =~= hits);
    }
}

/// One more chunk is searched.
proof fn hits_step(
    total: int,
    patterns: Seq<PatternView>,
    footer: bool,
    chunk: int,
    pos: int,
    sofar: Seq<u8>,
    hits: Seq<(u64, usize)>,
    bytes: Seq<u8>,
)
    requires
        hits_so_far(total, patterns, footer, chunk, pos, sofar, hits),
        0 <= pos < total,
        0 < chunk,
        sofar.len() == pos,
        bytes.len() == least(chunk, total - pos),
    ensures
        hits_so_far(
            total,
            patterns,
            footer,
            chunk,
            pos + bytes.len(),
            sofar + bytes,
            hits + hits_between(
                sofar + bytes,
                patterns,
                footer,
                pos,
                pos + bytes.len(),
                pos + bytes.len(),
            ),
        ),
{
    reveal(hits_so_far);
    let hi = pos + bytes.len();
    let found = hits_between(sofar + bytes, patterns, footer, pos, hi, hi);
    assert forall|full: Seq<u8>|
        full.len() == total && #[trigger] full.take(hi) == sofar + bytes implies scan_hits(
        full,
        patterns,
        footer,
        chunk,
        0,
    ) == hits + found + scan_hits(full, patterns, footer, chunk, hi) by {
        assert(full.take(pos) =~= full.take(hi).take(pos));
        assert(full.take(pos) =~= sofar);
        hits_between_prefix(full, patterns, footer, pos, hi, hi);
        let rest = scan_hits(full, patterns, footer, chunk, hi);
        assert(scan_hits(full, patterns, footer, chunk, pos) == found + rest);
        assert(hits + (found + rest) =~= hits + found + rest);
    }
}

/// Whether the calls of `progress` up to `pos` are the first of all calls,
/// however the source goes on.
#[verifier::opaque]
spec fn progress_so_far<F: FnMut(u64, usize)>(
    progress: F,
    total: int,
    patterns: Seq<PatternView>,
    chunk: int,
    pos: int,
    sofar: Seq<u8>,
    found: nat,
) -> bool {
    forall|full: Seq<u8>|
        full.len() == total && #[trigger] full.take(pos) == sofar && progress_made(
            progress,
            full,
            patterns,
            chunk,
            pos,
            found,
        ) ==> progress_made(progress, full, patterns, chunk, 0, 0)
}

/// One more call of `progress` is made.
proof fn progress_step<F: FnMut(u64, usize)>(
    progress: F,
    total: int,
    patterns: Seq<PatternView>,
    chunk: int,
    pos: int,
    sofar: Seq<u8>,
    found: nat,
    bytes: Seq<u8>,
    now: nat,
)
    requires
        progress_so_far(progress, total, patterns, chunk, pos, sofar, found),
        0 <= pos < total,
        0 < chunk,
        sofar.len() == pos,
        bytes.len() == least(chunk, total - pos),
        now == found + hits_between(
            sofar + bytes,
            patterns,
            false,
            pos,
            pos + bytes.len(),
            pos + bytes.len(),
        ).len(),
        call_ensures(progress, ((pos + bytes.len()) as u64, now as usize), ()),
    ensures
        progress_so_far(
            progress,
            total,
            patterns,
            chunk,
            pos + bytes.len(),
            sofar + bytes,
            now,
        ),
{
    reveal(progress_so_far);
    let hi = pos + bytes.len();
    assert forall|full: Seq<u8>|
        full.len() == total && #[trigger] full.take(hi) == sofar + bytes && progress_made(
            progress,
            full,
            patterns,
            chunk,
            hi,
            now,
        ) implies progress_made(progress, full, patterns, chunk, 0, 0) by {
        assert(full.take(pos) =~= full.take(hi).take(pos));
        assert(full.take(pos) =~= sofar);
        hits_between_prefix(full, patterns, false, pos, hi, hi);
        assert(progress_made(progress, full, patterns, chunk, pos, found));
    }
}

/// Moves the last `keep` of the first `len` bytes of `buf` to its front.
fn carry_over(buf: &mut Vec<u8>, len: usize, keep: usize)
    requires
        keep <= len <= old(buf)@.len(),
    ensures
        final(buf)@.len() == old(buf)@.len(),
        final(buf)@.take(keep as int) == old(buf)@.subrange(len - keep, len as int),
{
    let ghost before: Seq<u8> = buf@;
    let mut k: usize = 0;
    while k < keep
        invariant
            k <= keep <= len,
            len <= buf@.len(),
            buf@.len() == before.len(),
            forall|j: int| 0 <= j < k ==> buf@[j] == before[len - keep + j],
            forall|j: int| k <= j < before.len() ==> buf@[j] == before[j],
        decreases keep - k,
    {
        let b: u8 = buf[len - keep + k];
        buf[k] = b;
        k = k + 1;
    }
    assert(buf@.take(keep as int) =~= before.subrange(len - keep, len as int));
}

/// Reads the next chunk, of `want` bytes, into `buf` behind the bytes carried
/// over. Returns, for the proof, the bytes and the reports.
fn read_chunk<R: ReadAt + ?Sized>(
    reader: &R,
    pos: u64,
    want: usize,
    block: u64,
    buf: &mut Vec<u8>,
    carry: usize,
    errors: &mut Vec<String>,
) -> (seen: Ghost<(Seq<u8>, Seq<Seq<char>>)>)
    requires
        carry + want <= old(buf)@.len(),
        pos + want <= u64::MAX,
        0 < block,
    ensures
        final(buf)@.len() == old(buf)@.len(),
        final(buf)@.take(carry as int) == old(buf)@.take(carry as int),
        final(buf)@.subrange(carry as int, carry + want) == seen@.0,
        span_may(reader, pos as int, want as int, block as int, seen@.0, seen@.1),
        texts(final(errors)@) == texts(old(errors)@) + seen@.1,
{
    let ghost noted: Seq<Seq<char>> = texts(errors@);
    let ghost before: Seq<u8> = buf@;
    let (_, tail) = buf.as_mut_slice().split_at_mut(carry);
    let (fresh, _) = tail.split_at_mut(want);
    read_span(reader, pos, fresh, block, errors);
    let ghost bytes: Seq<u8> = fresh@;
    let ghost here: Seq<Seq<char>> = choose|here: Seq<Seq<char>>|
        span_may(reader, pos as int, want as int, block as int, bytes, here) && texts(errors@)
            == #[trigger] (noted + here);
    assert(buf@.take(carry as int) =~= before.take(carry as int));
    assert(buf@.subrange(carry as int, carry + want) =~= bytes);
    Ghost((bytes, here))
}

/// Scans the first `total_size` bytes of the source for the headers and
/// footers of the active signatures. After every chunk `progress` is called
/// with the bytes scanned and the headers found so far.
#[verifier::rlimit(40)]
pub fn scan<R: ReadAt + ?Sized, F: FnMut(u64, usize)>(
    reader: &R,
    total_size: u64,
    block_size: u64,
    chunk_size: u64,
    sigs: &[Signature],
    active: &[usize],
    progress: F,
) -> (result: ScanResult)
    requires
        searchable(views(sigs@), active@),
        chunk_used(block_size as int, chunk_size as int) + longest(
            patterns_of(views(sigs@), active@),
        ) - 1 <= isize::MAX,
        forall|done: u64, found: usize|
            done <= total_size ==> call_requires(progress, (done, found)),
    ensures
        exists|seen: Seq<u8>|
            #[trigger] scan_may(
                reader,
                total_size as int,
                block_size as int,
                chunk_size as int,
                patterns_of(views(sigs@), active@),
                progress,
                seen,
                result,
            ),
{
    let mut progress: F = progress;
    let ghost report: F = progress;
    let patterns: Vec<Pattern> = collect_patterns(sigs, active);
    let ghost all: Seq<PatternView> = pattern_views(patterns@);
    let max_len: usize = longest_length(&patterns);
    proof {
        longest_bounds(all);
    }
    let overlap: usize = max_len - 1;
    let index: Vec<Vec<usize>> = index_by_first_byte(&patterns);

    let block: u64 = if block_size >= 512 {
        block_size
    } else {
        512
    };
    let chunk: u64 = if chunk_size >= block {
        chunk_size
    } else {
        block
    };
    let mut buf: Vec<u8> = vec![0u8; chunk as usize + overlap];
    let mut headers: Vec<(u64, usize)> = Vec::new();
    let mut footers: Vec<(u64, usize)> = Vec::new();
    let mut errors: Vec<String> = Vec::new();

    let mut carry: usize = 0;
    let mut pos: u64 = 0;
    let ghost mut sofar: Seq<u8> = Seq::empty();
    let ghost mut notes: Seq<Seq<char>> = Seq::empty();
    proof {
        assert(buf@.take(0) =~= sofar.skip(0));
        assert(texts(errors@) =~= notes);
        source_start(reader, total_size as int, block as int, chunk as int);
        hits_start(total_size as int, all, false, chunk as int);
        hits_start(total_size as int, all, true, chunk as int);
        assert(progress_so_far(
            report,
            total_size as int,
            all,
            chunk as int,
            0,
            sofar,
            headers@.len(),
        )) by {
            reveal(progress_so_far);
        }
    }
    while pos < total_size
        invariant
            pos <= total_size,
            0 < block <= chunk,
            all == pattern_views(patterns@),
            none_empty(all),
            indexes(index@, all, patterns@.len() as int),
            longest(all) == overlap + 1,
            buf@.len() == chunk + overlap,
            chunk + overlap <= usize::MAX,
            carry <= overlap,
            carry <= pos,
            carry == overlap || carry == pos,
            sofar.len() == pos,
            buf@.take(carry as int) == sofar.skip(pos - carry),
            forall|done: u64, found: usize|
                done <= total_size ==> call_requires(progress, (done, found)),
            progress == report,
            texts(errors@) == notes,
            source_so_far(
                reader,
                pos as int,
                total_size as int,
                block as int,
                chunk as int,
                sofar,
                notes,
            ),
            hits_so_far(
                total_size as int,
                all,
                false,
                chunk as int,
                pos as int,
                sofar,
                headers@,
            ),
            hits_so_far(total_size as int, all, true, chunk as int, pos as int, sofar, footers@),
            progress_so_far(
                report,
                total_size as int,
                all,
                chunk as int,
                pos as int,
                sofar,
                headers@.len(),
            ),
        decreases total_size - pos,
    {
        let want: usize = if total_size - pos < chunk {
            (total_size - pos) as usize
        } else {
            chunk as usize
        };
        let ghost before: Seq<u8> = sofar;
        let ghost noted: Seq<Seq<char>> = notes;
        let ghost h0: Seq<(u64, usize)> = headers@;
        let ghost f0: Seq<(u64, usize)> = footers@;
        let ghost carried: Seq<u8> = buf@.take(carry as int);
        let Ghost(seen): Ghost<(Seq<u8>, Seq<Seq<char>>)> = read_chunk(
            reader,
            pos,
            want,
            block,
            &mut buf,
            carry,
            &mut errors,
        );
        let ghost bytes: Seq<u8> = seen.0;
        let ghost here: Seq<Seq<char>> = seen.1;
        let window_len: usize = carry + want;
        let window: &[u8] = slice_subrange(buf.as_slice(), 0, window_len);
        let base: u64 = pos - carry as u64;
        proof {
            sofar = before + bytes;
            notes = noted + here;
            assert(window@ =~= carried + bytes);
            assert(window@ =~= sofar.skip(base as int));
        }
        search_window(
            window,
            base,
            pos,
            &patterns,
            &index,
            &mut headers,
            &mut footers,
            Ghost(sofar),
        );
        let ghost lo: int = pos as int;
        let ghost hi: int = pos + want;
        pos = pos + want as u64;
        progress(pos, headers.len());
        proof {
            let total = total_size as int;
            let c = chunk as int;
            source_step(reader, lo, total, block as int, c, before, noted, bytes, here);
            hits_step(total, all, false, c, lo, before, h0, bytes);
            hits_step(total, all, true, c, lo, before, f0, bytes);
            progress_step(report, total, all, c, lo, before, h0.len(), bytes, headers@.len());
        }
        let keep: usize = if window_len >= overlap {
            overlap
        } else {
            window_len
        };
        let ghost held: Seq<u8> = buf@;
        assert(held.take(window_len as int) =~= sofar.skip(base as int));
        carry_over(&mut buf, window_len, keep);
        proof {
            assert(held.subrange(window_len - keep, window_len as int) =~= held.take(
                window_len as int,
            ).skip(window_len - keep));
            assert(held.subrange(window_len - keep, window_len as int) =~= sofar.skip(hi - keep));
        }
        carry = keep;
    }
    proof {
        reveal(source_so_far);
        reveal(hits_so_far);
        reveal(progress_so_far);
        let none = Seq::<u8>::empty();
        let silent = Seq::<Seq<char>>::empty();
        assert(source_may(
            reader,
            pos as int,
            total_size as int,
            block as int,
            chunk as int,
            none,
            silent,
        ));
        assert(sofar + none =~= sofar);
        assert(notes + silent =~= notes);
        assert(sofar.take(pos as int) =~= sofar);
        assert(headers@ + Seq::<(u64, usize)>::empty() =~= headers@);
        assert(footers@ + Seq::<(u64, usize)>::empty() =~= footers@);
    }
    let result: ScanResult = ScanResult { headers, footers, errors, bytes_scanned: pos };
    assert(scan_may(
        reader,
        total_size as int,
        block_size as int,
        chunk_size as int,
        all,
        report,
        sofar,
        result,
    ));
    result
}

} // verus!
