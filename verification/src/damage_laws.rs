//! What a scan sees of a source that has bytes that cannot be read: all but the
//! blocks that hold such bytes, each of which it reports.

use vstd::arithmetic::div_mod::{
    lemma_basic_div, lemma_div_plus_one, lemma_fundamental_div_mod, lemma_mod_bound,
};
use vstd::arithmetic::mul::{lemma_mul_is_commutative, lemma_mul_is_distributive_add};
use vstd::prelude::*;

use crate::bytes::occurs_at;
use crate::disk::ReadAt;
use crate::error::IoErrorView;
use crate::scan_laws::{scan_finds_every_match, stands_at};
use crate::scanner::{
    block_note, blocks_may, patterns_of, region_note, scan_may,
    searchable, source_may, span_may, zeros, ScanResult,
};
use crate::signatures::SignatureView;
use crate::text::{decimal, texts};

verus! {

/// Whether a byte from `from` up to `to` is bad.
pub open spec fn is_hit(bad: spec_fn(int) -> bool, from: int, to: int) -> bool {
    exists|p: int| from <= p < to && #[trigger] bad(p)
}

/// Whether a read inside `image` fails just if it touches a bad byte, and gives
/// the bytes that stand there otherwise.
pub open spec fn reads_around<R: ReadAt + ?Sized>(
    reader: &R,
    image: Seq<u8>,
    bad: spec_fn(int) -> bool,
) -> bool {
    forall|offset: u64, len: nat, outcome: Result<Seq<u8>, IoErrorView>| #[trigger]
        reader.may_read(offset, len, outcome) && offset + len <= image.len() ==> (if is_hit(
            bad,
            offset as int,
            offset + len,
        ) {
            outcome is Err
        } else {
            outcome == Ok::<Seq<u8>, IoErrorView>(image.subrange(offset as int, offset + len))
        })
}

/// The block that holds the byte at `p`, from its first byte up to its end, in
/// `len` bytes that are divided into blocks of `block` bytes.
#[verifier::opaque]
pub open spec fn block_around(p: int, len: int, block: int) -> (int, int) {
    let first = p / block * block;
    (first, if first + block <= len {
        first + block
    } else {
        len
    })
}

/// The block that holds the byte at `p` of a source of `total` bytes that is
/// read in chunks of `chunk` bytes, and these in blocks of `block` bytes.
pub open spec fn block_of(p: int, total: int, block: int, chunk: int) -> (int, int) {
    let (from, to) = block_around(p, total, chunk);
    let (first, end) = block_around(p - from, to - from, block);
    (from + first, from + end)
}

/// Whether `note` reports a failed read at `offset`.
pub open spec fn reports(note: Seq<char>, offset: int) -> bool {
    exists|message: Seq<char>, what: Seq<char>|
        note == #[trigger] ("read error at offset "@ + decimal(offset as nat) + ": "@ + message
            + " — "@ + what + " skipped"@)
}

/// Where a block begins in what is divided into blocks.
proof fn blocks_begin(p: int, block: int)
    requires
        0 <= p,
        0 < block,
    ensures
        p < block ==> p / block * block == 0,
        p >= block ==> p / block * block == block + (p - block) / block * block,
        0 <= p / block * block <= p < p / block * block + block,
{
    let q = p / block;
    lemma_fundamental_div_mod(p, block);
    lemma_mod_bound(p, block);
    lemma_mul_is_commutative(block, q);
    if p < block {
        lemma_basic_div(p, block);
        assert(q * block == 0) by (nonlinear_arith)
            requires
                q == 0,
        ;
    } else {
        lemma_div_plus_one(p - block, block);
        let r = (p - block) / block;
        assert(q == r + 1);
        lemma_mul_is_distributive_add(block, r, 1);
        lemma_mul_is_commutative(block, r);
    }
}

/// Whether `bytes` are those of an image from `pos` on, but for the blocks that
/// hold a bad byte, which are zeros.
spec fn sees(
    image: Seq<u8>,
    bad: spec_fn(int) -> bool,
    pos: int,
    len: int,
    block: int,
    bytes: Seq<u8>,
) -> bool {
    &&& bytes.len() == len
    &&& forall|i: int|
        #![trigger bytes[i]]
        0 <= i < len ==> {
            let (first, end) = block_around(i, len, block);
            bytes[i] == (if is_hit(bad, pos + first, pos + end) {
                0u8
            } else {
                image[pos + i]
            })
        }
}

/// Whether `starts` are where the blocks with a bad byte begin, in order.
spec fn lists(
    bad: spec_fn(int) -> bool,
    pos: int,
    len: int,
    block: int,
    starts: Seq<int>,
) -> bool {
    &&& forall|i: int, j: int| 0 <= i < j < starts.len() ==> starts[i] < starts[j]
    &&& forall|i: int|
        #![trigger starts[i]]
        0 <= i < starts.len() ==> pos <= starts[i] < pos + len && {
            let (first, end) = block_around(starts[i] - pos, len, block);
            starts[i] == pos + first && is_hit(bad, pos + first, pos + end)
        }
    &&& forall|p: int|
        #![trigger bad(p)]
        pos <= p < pos + len && bad(p) ==> starts.contains(
            pos + block_around(p - pos, len, block).0,
        )
}

/// Whether each of `notes` reports a failed read at the one of `starts`.
pub open spec fn report_all(notes: Seq<Seq<char>>, starts: Seq<int>) -> bool {
    notes.len() == starts.len() && forall|k: int|
        0 <= k < notes.len() ==> reports(#[trigger] notes[k], starts[k])
}

/// Reports name where reading failed.
proof fn notes_report(pos: int, e: IoErrorView)
    ensures
        reports(block_note(pos, e), pos),
        reports(region_note(pos, e), pos),
{
    reveal_strlit(" — block skipped");
    reveal_strlit(" — region skipped");
    reveal_strlit(" — ");
    reveal_strlit(" skipped");
    reveal_strlit("block");
    reveal_strlit("region");
    let front = "read error at offset "@ + decimal(pos as nat) + ": "@ + e.message;
    assert(" — block skipped"@ =~= " — "@ + "block"@ + " skipped"@);
    assert(" — region skipped"@ =~= " — "@ + "region"@ + " skipped"@);
    let block = "read error at offset "@ + decimal(pos as nat) + ": "@ + e.message + " — "@
        + "block"@ + " skipped"@;
    let region = "read error at offset "@ + decimal(pos as nat) + ": "@ + e.message + " — "@
        + "region"@ + " skipped"@;
    assert(front + " — block skipped"@ =~= block);
    assert(front + " — region skipped"@ =~= region);
}

/// The first block, and those after it.
proof fn blocks_follow(i: int, len: int, block: int)
    requires
        0 <= i < len,
        0 < block,
    ensures
        ({
            let (first, end) = block_around(i, len, block);
            let n = if block <= len {
                block
            } else {
                len
            };
            let (later, later_end) = block_around(i - n, len - n, block);
            &&& 0 <= first <= i < end <= len
            &&& i < n ==> first == 0 && end == n
            &&& i >= n ==> first == n + later && end == n + later_end
        }),
{
    reveal(block_around);
    blocks_begin(i, block);
    if i >= block {
        blocks_begin(i - block, block);
    }
}

/// The first block that is read, and what follows.
proof fn first_block<R: ReadAt + ?Sized>(
    reader: &R,
    image: Seq<u8>,
    bad: spec_fn(int) -> bool,
    pos: int,
    len: int,
    block: int,
    bytes: Seq<u8>,
    notes: Seq<Seq<char>>,
    n: int,
)
    requires
        reads_around(reader, image, bad),
        0 < block,
        0 <= pos,
        0 < len,
        pos + len <= image.len(),
        image.len() <= u64::MAX,
        n == (if block <= len {
            block
        } else {
            len
        }),
        blocks_may(reader, pos, len, block, bytes, notes),
    ensures
        bytes.len() == len,
        !is_hit(bad, pos, pos + n) ==> bytes.take(n) == image.subrange(pos, pos + n) && blocks_may(
            reader,
            pos + n,
            len - n,
            block,
            bytes.skip(n),
            notes,
        ),
        is_hit(bad, pos, pos + n) ==> {
            &&& forall|i: int| 0 <= i < n ==> #[trigger] bytes[i] == 0
            &&& notes.len() > 0
            &&& reports(notes[0], pos)
            &&& blocks_may(reader, pos + n, len - n, block, bytes.skip(n), notes.drop_first())
        },
{
    let at = pos as u64;
    if is_hit(bad, pos, pos + n) {
        let e = choose|e: IoErrorView|
            {
                &&& #[trigger] reader.may_read(at, n as nat, Err(e))
                &&& bytes.take(n) == zeros(n)
                &&& notes.len() > 0
                &&& notes[0] == block_note(pos, e)
                &&& blocks_may(
                    reader,
                    pos + n,
                    len - n,
                    block,
                    bytes.skip(n),
                    notes.drop_first(),
                )
            };
        notes_report(pos, e);
        assert forall|i: int| 0 <= i < n implies #[trigger] bytes[i] == 0 by {
            assert(bytes.take(n)[i] == zeros(n)[i]);
        }
    }
}

/// Reading block by block sees all but the damaged blocks.
proof fn blocks_are_seen<R: ReadAt + ?Sized>(
    reader: &R,
    image: Seq<u8>,
    bad: spec_fn(int) -> bool,
    pos: int,
    len: int,
    block: int,
    bytes: Seq<u8>,
    notes: Seq<Seq<char>>,
)
    requires
        reads_around(reader, image, bad),
        0 < block,
        0 <= pos,
        0 <= len,
        pos + len <= image.len(),
        image.len() <= u64::MAX,
        blocks_may(reader, pos, len, block, bytes, notes),
    ensures
        sees(image, bad, pos, len, block, bytes),
    decreases len,
{
    if len > 0 {
        let n = if block <= len {
            block
        } else {
            len
        };
        let hit = is_hit(bad, pos, pos + n);
        let rest = if hit {
            notes.drop_first()
        } else {
            notes
        };
        first_block(reader, image, bad, pos, len, block, bytes, notes, n);
        blocks_are_seen(reader, image, bad, pos + n, len - n, block, bytes.skip(n), rest);
        assert forall|i: int| #![trigger bytes[i]] 0 <= i < len implies {
            let (first, end) = block_around(i, len, block);
            bytes[i] == (if is_hit(bad, pos + first, pos + end) {
                0u8
            } else {
                image[pos + i]
            })
        } by {
            blocks_follow(i, len, block);
            if i < n {
                assert(bytes.take(n)[i] == bytes[i]);
                assert(image.subrange(pos, pos + n)[i] == image[pos + i]);
            } else {
                assert(bytes.skip(n)[i - n] == bytes[i]);
                let (first, end) = block_around(i, len, block);
                let (later, later_end) = block_around(i - n, len - n, block);
                assert(pos + n + later == pos + first && pos + n + later_end == pos + end);
            }
        }
    }
}

/// Reading block by block reports the damaged blocks, in order.
proof fn blocks_are_reported<R: ReadAt + ?Sized>(
    reader: &R,
    image: Seq<u8>,
    bad: spec_fn(int) -> bool,
    pos: int,
    len: int,
    block: int,
    bytes: Seq<u8>,
    notes: Seq<Seq<char>>,
) -> (starts: Seq<int>)
    requires
        reads_around(reader, image, bad),
        0 < block,
        0 <= pos,
        0 <= len,
        pos + len <= image.len(),
        image.len() <= u64::MAX,
        blocks_may(reader, pos, len, block, bytes, notes),
    ensures
        lists(bad, pos, len, block, starts),
        report_all(notes, starts),
    decreases len,
{
    if len <= 0 {
        Seq::empty()
    } else {
        let n = if block <= len {
            block
        } else {
            len
        };
        let hit = is_hit(bad, pos, pos + n);
        let rest = if hit {
            notes.drop_first()
        } else {
            notes
        };
        first_block(reader, image, bad, pos, len, block, bytes, notes, n);
        let later = blocks_are_reported(
            reader,
            image,
            bad,
            pos + n,
            len - n,
            block,
            bytes.skip(n),
            rest,
        );
        if hit {
            let starts = seq![pos] + later;
            one_more_block(bad, pos, len, block, n, later, starts);
            assert forall|k: int| 0 <= k < notes.len() implies reports(
                #[trigger] notes[k],
                starts[k],
            ) by {
                if k > 0 {
                    assert(rest[k - 1] == notes[k]);
                }
            }
            starts
        } else {
            one_more_block(bad, pos, len, block, n, later, later);
            later
        }
    }
}

/// The damaged blocks are the first, if it is damaged, and those after it.
proof fn one_more_block(
    bad: spec_fn(int) -> bool,
    pos: int,
    len: int,
    block: int,
    n: int,
    later: Seq<int>,
    starts: Seq<int>,
)
    requires
        0 < block,
        0 < len,
        n == (if block <= len {
            block
        } else {
            len
        }),
        lists(bad, pos + n, len - n, block, later),
        starts == (if is_hit(bad, pos, pos + n) {
            seq![pos] + later
        } else {
            later
        }),
    ensures
        lists(bad, pos, len, block, starts),
{
    let hit = is_hit(bad, pos, pos + n);
    let shift = if hit {
        1int
    } else {
        0int
    };
    assert forall|i: int| #![trigger starts[i]] 0 <= i < starts.len() implies pos <= starts[i] < pos
        + len && {
        let (first, end) = block_around(starts[i] - pos, len, block);
        starts[i] == pos + first && is_hit(bad, pos + first, pos + end)
    } by {
        if hit && i == 0 {
            blocks_follow(0, len, block);
        } else {
            let k = i - shift;
            assert(starts[i] == later[k]);
            blocks_follow(later[k] - pos, len, block);
            let (first, end) = block_around(later[k] - pos, len, block);
            let (a, b) = block_around(later[k] - (pos + n), len - n, block);
            assert(later[k] - pos - n == later[k] - (pos + n));
            assert(pos + n + a == pos + first && pos + n + b == pos + end);
        }
    }
    assert forall|i: int, j: int| 0 <= i < j < starts.len() implies starts[i] < starts[j] by {
        assert(starts[j] == later[j - shift]);
        if i >= shift {
            assert(starts[i] == later[i - shift]);
        }
    }
    assert forall|p: int|
        #![trigger bad(p)]
        pos <= p < pos + len && bad(p) implies starts.contains(
        pos + block_around(p - pos, len, block).0,
    ) by {
        blocks_follow(p - pos, len, block);
        if p < pos + n {
            assert(starts[0] == pos);
        } else {
            let s = pos + n + block_around(p - (pos + n), len - n, block).0;
            assert(p - pos - n == p - (pos + n));
            assert(later.contains(s));
            assert(starts[later.index_of(s) + shift] == s);
        }
    }
}

/// Where nothing is damaged, no block is.
proof fn nothing_hit(bad: spec_fn(int) -> bool, from: int, to: int, a: int, b: int)
    requires
        !is_hit(bad, from, to),
        from <= a,
        b <= to,
    ensures
        !is_hit(bad, a, b),
{
    if is_hit(bad, a, b) {
        let p = choose|p: int| a <= p < b && #[trigger] bad(p);
        assert(from <= p < to && bad(p));
    }
}

/// Reading a chunk sees all but the damaged blocks.
proof fn chunk_is_seen<R: ReadAt + ?Sized>(
    reader: &R,
    image: Seq<u8>,
    bad: spec_fn(int) -> bool,
    pos: int,
    len: int,
    block: int,
    bytes: Seq<u8>,
    notes: Seq<Seq<char>>,
) -> (starts: Seq<int>)
    requires
        reads_around(reader, image, bad),
        0 < block,
        0 <= pos,
        0 < len,
        pos + len <= image.len(),
        image.len() <= u64::MAX,
        span_may(reader, pos, len, block, bytes, notes),
    ensures
        sees(image, bad, pos, len, block, bytes),
        lists(bad, pos, len, block, starts),
        report_all(notes, starts),
{
    let at = pos as u64;
    if !is_hit(bad, pos, pos + len) {
        assert(bytes == image.subrange(pos, pos + len) && notes.len() == 0);
        assert forall|i: int| #![trigger bytes[i]] 0 <= i < len implies {
            let (first, end) = block_around(i, len, block);
            bytes[i] == (if is_hit(bad, pos + first, pos + end) {
                0u8
            } else {
                image[pos + i]
            })
        } by {
            let (first, end) = block_around(i, len, block);
            blocks_follow(i, len, block);
            nothing_hit(bad, pos, pos + len, pos + first, pos + end);
        }
        assert forall|p: int| #![trigger bad(p)] pos <= p < pos + len && bad(p) implies false by {
            assert(is_hit(bad, pos, pos + len));
        }
        Seq::empty()
    } else if len <= block {
        let e = choose|e: IoErrorView| #[trigger]
            reader.may_read(at, len as nat, Err(e)) && bytes == zeros(len) && notes == seq![
                region_note(pos, e),
            ];
        notes_report(pos, e);
        assert forall|i: int| #![trigger bytes[i]] 0 <= i < len implies {
            let (first, end) = block_around(i, len, block);
            bytes[i] == (if is_hit(bad, pos + first, pos + end) {
                0u8
            } else {
                image[pos + i]
            })
        } by {
            blocks_follow(i, len, block);
        }
        let starts = seq![pos];
        blocks_follow(0, len, block);
        assert forall|p: int| #![trigger bad(p)] pos <= p < pos + len
            && bad(p) implies starts.contains(
            pos + block_around(p - pos, len, block).0,
        ) by {
            blocks_follow(p - pos, len, block);
            assert(starts[0] == pos);
        }
        starts
    } else {
        blocks_are_seen(reader, image, bad, pos, len, block, bytes, notes);
        blocks_are_reported(reader, image, bad, pos, len, block, bytes, notes)
    }
}

/// Whether `bytes` are those of an image from `pos` on, but for the blocks that
/// hold a bad byte, which are zeros.
pub open spec fn is_seen(
    image: Seq<u8>,
    bad: spec_fn(int) -> bool,
    pos: int,
    len: int,
    block: int,
    chunk: int,
    bytes: Seq<u8>,
) -> bool {
    &&& bytes.len() == len
    &&& forall|i: int|
        #![trigger bytes[i]]
        0 <= i < len ==> {
            let (first, end) = block_of(i, len, block, chunk);
            bytes[i] == (if is_hit(bad, pos + first, pos + end) {
                0u8
            } else {
                image[pos + i]
            })
        }
}

/// Whether `starts` are where the blocks with a bad byte begin, in order: each
/// such block once, and no other.
pub open spec fn are_damaged(
    bad: spec_fn(int) -> bool,
    pos: int,
    len: int,
    block: int,
    chunk: int,
    starts: Seq<int>,
) -> bool {
    &&& forall|i: int, j: int| 0 <= i < j < starts.len() ==> starts[i] < starts[j]
    &&& forall|i: int|
        #![trigger starts[i]]
        0 <= i < starts.len() ==> pos <= starts[i] < pos + len && {
            let (first, end) = block_of(starts[i] - pos, len, block, chunk);
            starts[i] == pos + first && is_hit(bad, pos + first, pos + end)
        }
    &&& forall|p: int|
        #![trigger bad(p)]
        pos <= p < pos + len && bad(p) ==> starts.contains(
            pos + block_of(p - pos, len, block, chunk).0,
        )
}

/// The blocks of the first chunk, and those after it.
proof fn chunks_follow(i: int, len: int, block: int, chunk: int)
    requires
        0 <= i < len,
        0 < block,
        0 < chunk,
    ensures
        ({
            let (first, end) = block_of(i, len, block, chunk);
            let n = if chunk <= len {
                chunk
            } else {
                len
            };
            let (a, b) = block_around(i, n, block);
            let (c, d) = block_of(i - n, len - n, block, chunk);
            &&& 0 <= first <= i < end <= len
            &&& i < n ==> first == a && end == b
            &&& i >= n ==> first == n + c && end == n + d
        }),
{
    let n = if chunk <= len {
        chunk
    } else {
        len
    };
    blocks_follow(i, len, chunk);
    let (from, to) = block_around(i, len, chunk);
    blocks_follow(i - from, to - from, block);
    if i >= n {
        let (x, y) = block_around(i - n, len - n, chunk);
        assert(from == n + x && to == n + y);
        assert(i - from == i - n - x && to - from == y - x);
    }
}

/// Reading a source chunk by chunk sees all but the damaged blocks.
proof fn source_is_seen<R: ReadAt + ?Sized>(
    reader: &R,
    image: Seq<u8>,
    bad: spec_fn(int) -> bool,
    pos: int,
    total: int,
    block: int,
    chunk: int,
    bytes: Seq<u8>,
    notes: Seq<Seq<char>>,
) -> (starts: Seq<int>)
    requires
        reads_around(reader, image, bad),
        0 < block,
        0 < chunk,
        0 <= pos <= total <= image.len(),
        image.len() <= u64::MAX,
        source_may(reader, pos, total, block, chunk, bytes, notes),
    ensures
        is_seen(image, bad, pos, total - pos, block, chunk, bytes),
        are_damaged(bad, pos, total - pos, block, chunk, starts),
        report_all(notes, starts),
    decreases total - pos,
{
    let len = total - pos;
    if len <= 0 {
        Seq::empty()
    } else {
        let n = if chunk <= len {
            chunk
        } else {
            len
        };
        let here = choose|here: Seq<Seq<char>>|
            {
                &&& #[trigger] span_may(reader, pos, n, block, bytes.take(n), here)
                &&& here.is_prefix_of(notes)
                &&& source_may(
                    reader,
                    pos + n,
                    total,
                    block,
                    chunk,
                    bytes.skip(n),
                    notes.skip(here.len() as int),
                )
            };
        let now = chunk_is_seen(reader, image, bad, pos, n, block, bytes.take(n), here);
        let later = source_is_seen(
            reader,
            image,
            bad,
            pos + n,
            total,
            block,
            chunk,
            bytes.skip(n),
            notes.skip(here.len() as int),
        );
        assert forall|i: int| #![trigger bytes[i]] 0 <= i < len implies {
            let (first, end) = block_of(i, len, block, chunk);
            bytes[i] == (if is_hit(bad, pos + first, pos + end) {
                0u8
            } else {
                image[pos + i]
            })
        } by {
            chunks_follow(i, len, block, chunk);
            let (first, end) = block_of(i, len, block, chunk);
            if i < n {
                assert(bytes.take(n)[i] == bytes[i]);
            } else {
                assert(bytes.skip(n)[i - n] == bytes[i]);
                let (c, d) = block_of(i - n, len - n, block, chunk);
                assert(pos + n + c == pos + first && pos + n + d == pos + end);
            }
        }
        let starts = now + later;
        more_chunks(bad, pos, len, block, chunk, n, now, later);
        assert forall|k: int| 0 <= k < notes.len() implies reports(
            #[trigger] notes[k],
            starts[k],
        ) by {
            if k < here.len() {
                assert(notes[k] == here[k]);
            } else {
                assert(notes[k] == notes.skip(here.len() as int)[k - here.len()]);
            }
        }
        starts
    }
}

/// The damaged blocks are those of the first chunk and those after it.
proof fn more_chunks(
    bad: spec_fn(int) -> bool,
    pos: int,
    len: int,
    block: int,
    chunk: int,
    n: int,
    now: Seq<int>,
    later: Seq<int>,
)
    requires
        0 < block,
        0 < chunk,
        0 < len,
        n == (if chunk <= len {
            chunk
        } else {
            len
        }),
        lists(bad, pos, n, block, now),
        are_damaged(bad, pos + n, len - n, block, chunk, later),
    ensures
        are_damaged(bad, pos, len, block, chunk, now + later),
{
    let starts = now + later;
    let m = now.len() as int;
    assert forall|i: int| #![trigger starts[i]] 0 <= i < starts.len() implies pos <= starts[i] < pos
        + len && {
        let (first, end) = block_of(starts[i] - pos, len, block, chunk);
        starts[i] == pos + first && is_hit(bad, pos + first, pos + end)
    } by {
        if i < m {
            assert(starts[i] == now[i]);
            chunks_follow(now[i] - pos, len, block, chunk);
        } else {
            let s = later[i - m];
            assert(starts[i] == s);
            chunks_follow(s - pos, len, block, chunk);
            let (first, end) = block_of(s - pos, len, block, chunk);
            let (c, d) = block_of(s - (pos + n), len - n, block, chunk);
            assert(s - pos - n == s - (pos + n));
            assert(pos + n + c == pos + first && pos + n + d == pos + end);
        }
    }
    assert forall|i: int, j: int| 0 <= i < j < starts.len() implies starts[i] < starts[j] by {
        if j >= m {
            assert(starts[j] == later[j - m]);
            assert(later[j - m] >= pos + n);
        } else {
            assert(starts[j] == now[j]);
        }
        if i >= m {
            assert(starts[i] == later[i - m]);
        } else {
            assert(starts[i] == now[i]);
            assert(now[i] < pos + n);
        }
    }
    assert forall|p: int|
        #![trigger bad(p)]
        pos <= p < pos + len && bad(p) implies starts.contains(
        pos + block_of(p - pos, len, block, chunk).0,
    ) by {
        chunks_follow(p - pos, len, block, chunk);
        if p < pos + n {
            let s = pos + block_around(p - pos, n, block).0;
            assert(now.contains(s));
            assert(starts[now.index_of(s)] == s);
        } else {
            let s = pos + n + block_of(p - (pos + n), len - n, block, chunk).0;
            assert(p - pos - n == p - (pos + n));
            assert(later.contains(s));
            assert(starts[m + later.index_of(s)] == s);
        }
    }
}

/// On a source of which some bytes cannot be read, a scan sees every byte as it
/// is, but for those in the blocks that hold such bytes, which count as zeros.
/// Each of these blocks is reported once, and in order; nothing else is. Blocks
/// have at least 512 bytes, and chunks are at least one block.
pub proof fn damage_costs_only_its_blocks<R: ReadAt + ?Sized, F: FnMut(u64, usize)>(
    reader: &R,
    image: Seq<u8>,
    bad: spec_fn(int) -> bool,
    block_size: int,
    chunk_size: int,
    block: int,
    chunk: int,
    sigs: Seq<SignatureView>,
    active: Seq<usize>,
    progress: F,
    seen: Seq<u8>,
    result: ScanResult,
) -> (starts: Seq<int>)
    requires
        reads_around(reader, image, bad),
        image.len() <= u64::MAX,
        scan_may(
            reader,
            image.len() as int,
            block_size,
            chunk_size,
            patterns_of(sigs, active),
            progress,
            seen,
            result,
        ),
        block == (if block_size < 512 {
            512
        } else {
            block_size
        }),
        chunk == (if chunk_size < block {
            block
        } else {
            chunk_size
        }),
    ensures
        is_seen(image, bad, 0, image.len() as int, block, chunk, seen),
        are_damaged(bad, 0, image.len() as int, block, chunk, starts),
        report_all(texts(result.errors@), starts),
{
    source_is_seen(
        reader,
        image,
        bad,
        0,
        image.len() as int,
        block,
        chunk,
        seen,
        texts(result.errors@),
    )
}

/// Every header and footer that stands in blocks that can be read is recorded,
/// whatever else of the source cannot be read.
pub proof fn readable_matches_are_recorded<R: ReadAt + ?Sized, F: FnMut(u64, usize)>(
    reader: &R,
    image: Seq<u8>,
    bad: spec_fn(int) -> bool,
    block_size: int,
    chunk_size: int,
    block: int,
    chunk: int,
    sigs: Seq<SignatureView>,
    active: Seq<usize>,
    progress: F,
    seen: Seq<u8>,
    result: ScanResult,
    pattern: Seq<u8>,
    h: u64,
    si: usize,
)
    requires
        reads_around(reader, image, bad),
        image.len() <= u64::MAX,
        searchable(sigs, active),
        scan_may(
            reader,
            image.len() as int,
            block_size,
            chunk_size,
            patterns_of(sigs, active),
            progress,
            seen,
            result,
        ),
        block == (if block_size < 512 {
            512
        } else {
            block_size
        }),
        chunk == (if chunk_size < block {
            block
        } else {
            chunk_size
        }),
        active.contains(si),
        h + pattern.len() <= image.len(),
        forall|k: int| 0 <= k < pattern.len() ==> image[h + k] == #[trigger] pattern[k],
        forall|k: int|
            0 <= k < pattern.len() ==> {
                let (first, end) = block_of(
                    #[trigger] (h + k),
                    image.len() as int,
                    block,
                    chunk,
                );
                !is_hit(bad, first, end)
            },
    ensures
        pattern == sigs[si as int].header ==> result.headers@.contains((h, si)),
        sigs[si as int].footer == Some(pattern) ==> result.footers@.contains((h, si)),
{
    let starts = damage_costs_only_its_blocks(
        reader,
        image,
        bad,
        block_size,
        chunk_size,
        block,
        chunk,
        sigs,
        active,
        progress,
        seen,
        result,
    );
    assert(occurs_at(seen, pattern, h as int)) by {
        assert forall|k: int| 0 <= k < pattern.len() implies seen.subrange(
            h as int,
            h + pattern.len(),
        )[k] == pattern[k] by {
            assert(seen[h + k] == image[h + k]);
        }
        assert(seen.subrange(h as int, h + pattern.len()) =~= pattern);
    }
    scan_finds_every_match(seen, sigs, active, false, chunk, (h, si));
    scan_finds_every_match(seen, sigs, active, true, chunk, (h, si));
    if pattern == sigs[si as int].header {
        assert(stands_at(seen, sigs, active, false, h as int, si));
    }
    if sigs[si as int].footer == Some(pattern) {
        assert(stands_at(seen, sigs, active, true, h as int, si));
    }
}

} // verus!
