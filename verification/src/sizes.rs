//! Size parsers: a file's size from what the file says of itself.
//!
//! As with the validators, each parser comes with a relation that holds for
//! the answers that its reads can lead to. Positions are unbounded integers
//! there: a position past the 64-bit range is past every limit.

use vstd::arithmetic::power2::{lemma2_to64, pow2};
use vstd::prelude::*;

use crate::bytes::{
    be16, be16_at, be32, be32_at, be64, be64_at, contains, le32, le32_at, le64, le64_at, occurs,
};
use crate::disk::{fetch, fetched, may_fetch, ReadAt};

verus! {

/// "WAVE".
pub const TAG_WAVE: u64 = 0x5741_5645;

/// "mdat".
pub const TAG_MDAT: u64 = 0x6D64_6174;

/// "moov".
pub const TAG_MOOV: u64 = 0x6D6F_6F76;

/// How many blocks of a GIF file are walked before giving up.
pub const GIF_MAX_STEPS: u32 = 1_000_000;

/// How many top-level boxes of an MP4 file are walked.
pub const MP4_MAX_BOXES: u32 = 4096;

// ---------------------------------------------------------------------------
// GIF
// ---------------------------------------------------------------------------

/// The size of the colour table that a packed GIF field announces: three bytes
/// for each of 2^(n+1) colours, where n is the field's low three bits, if the
/// field's high bit is set.
pub open spec fn color_table_len(packed: u8) -> nat {
    if packed >= 0x80 {
        3 * pow2((packed % 8 + 1) as nat)
    } else {
        0
    }
}

/// The size of the colour table that a packed GIF field announces.
pub fn color_table(packed: u8) -> (len: u64)
    ensures
        len == color_table_len(packed),
        len <= 768,
{
    proof {
        lemma2_to64();
    }
    if packed < 0x80 {
        return 0;
    }
    let n: u8 = packed % 8;
    if n == 0 {
        6
    } else if n == 1 {
        12
    } else if n == 2 {
        24
    } else if n == 3 {
        48
    } else if n == 4 {
        96
    } else if n == 5 {
        192
    } else if n == 6 {
        384
    } else {
        768
    }
}

/// Whether walking a chain of GIF sub-blocks from `pos` may end at `end`: each
/// sub-block is a length byte and as many bytes, and a zero length ends the
/// chain. A chain that reaches `limit` or cannot be read has no end.
pub open spec fn sub_blocks_may<R: ReadAt + ?Sized>(
    reader: &R,
    pos: int,
    limit: int,
    end: Option<int>,
) -> bool
    decreases
            (if pos < limit {
                limit - pos
            } else {
                0
            }),
{
    if pos >= limit {
        end is None
    } else {
        exists|got: Option<Seq<u8>>| #[trigger]
            may_fetch(reader, pos, 1, got) && (match got {
                None => end is None,
                Some(b) => if b[0] == 0 {
                    end == Some(pos + 1)
                } else {
                    sub_blocks_may(reader, pos + 1 + b[0], limit, end)
                },
            })
    }
}

/// The integer that an optional machine integer stands for.
pub open spec fn widened(n: Option<u64>) -> Option<int> {
    match n {
        Some(v) => Some(v as int),
        None => None,
    }
}

/// Walks a chain of GIF sub-blocks and returns the position after it.
pub fn skip_sub_blocks<R: ReadAt + ?Sized>(reader: &R, start: u64, limit: u64) -> (end: Option<u64>)
    ensures
        sub_blocks_may(reader, start as int, limit as int, widened(end)),
        end matches Some(e) ==> start < e <= limit,
{
    let mut pos: u64 = start;
    loop
        invariant
            start <= pos,
            forall|end: Option<int>| #[trigger]
                sub_blocks_may(reader, pos as int, limit as int, end) ==> sub_blocks_may(
                    reader,
                    start as int,
                    limit as int,
                    end,
                ),
        decreases limit - pos,
    {
        if pos >= limit {
            assert(sub_blocks_may(reader, pos as int, limit as int, None));
            return None;
        }
        let got: Option<Vec<u8>> = fetch(reader, pos, 1);
        let ghost seen: Option<Seq<u8>> = fetched(got);
        assert(may_fetch(reader, pos as int, 1, seen));
        match got {
            None => {
                assert(sub_blocks_may(reader, pos as int, limit as int, None));
                return None;
            },
            Some(s) => {
                let len: u8 = s[0];
                if len == 0 {
                    assert(sub_blocks_may(reader, pos as int, limit as int, Some(pos + 1)));
                    return Some(pos + 1);
                }
                assert(forall|end: Option<int>| #[trigger]
                    sub_blocks_may(reader, pos + 1 + len, limit as int, end) ==> sub_blocks_may(
                        reader,
                        pos as int,
                        limit as int,
                        end,
                    ));
                if len as u64 >= limit - pos {
                    assert(sub_blocks_may(reader, pos + 1 + len, limit as int, None));
                    return None;
                }
                pos = pos + 1 + len as u64;
            },
        }
    }
}

/// Whether walking the blocks of a GIF file that starts at `start` may, from
/// the block at `pos` on and after `steps` blocks, give the file size `size`.
/// The walk passes over extensions and images, ends at a trailer, and fails at
/// `limit`, at an unreadable or unknown block, and when it takes too long.
pub open spec fn gif_walk_may<R: ReadAt + ?Sized>(
    reader: &R,
    start: int,
    pos: int,
    limit: int,
    steps: int,
    size: Option<int>,
) -> bool
    decreases GIF_MAX_STEPS + 1 - steps,
{
    if pos >= limit || steps > GIF_MAX_STEPS {
        size is None
    } else {
        exists|got: Option<Seq<u8>>| #[trigger]
            may_fetch(reader, pos, 1, got) && (match got {
                None => size is None,
                Some(b) => if b[0] == 0x3B {
                    size == Some(pos - start + 1)
                } else if b[0] == 0x21 {
                    exists|next: Option<int>| #[trigger]
                        sub_blocks_may(reader, pos + 2, limit, next) && (match next {
                            None => size is None,
                            Some(p) => gif_walk_may(reader, start, p, limit, steps + 1, size),
                        })
                } else if b[0] == 0x2C {
                    exists|image: Option<Seq<u8>>| #[trigger]
                        may_fetch(reader, pos + 1, 10, image) && (match image {
                            None => size is None,
                            Some(d) => exists|next: Option<int>| #[trigger]
                                sub_blocks_may(
                                    reader,
                                    pos + 11 + color_table_len(d[8]),
                                    limit,
                                    next,
                                ) && (match next {
                                    None => size is None,
                                    Some(p) => gif_walk_may(
                                        reader,
                                        start,
                                        p,
                                        limit,
                                        steps + 1,
                                        size,
                                    ),
                                }),
                        })
                } else {
                    size is None
                },
            })
    }
}

/// Whether the size of the GIF file at `start`, sought within `cap` bytes, may
/// come out as `size`. The blocks start after the header, the logical screen
/// descriptor and the global colour table, if there is one.
pub open spec fn gif_may<R: ReadAt + ?Sized>(
    reader: &R,
    start: int,
    cap: int,
    size: Option<int>,
) -> bool {
    if start + cap > u64::MAX {
        size is None
    } else {
        exists|got: Option<Seq<u8>>| #[trigger]
            may_fetch(reader, start, 13, got) && (match got {
                None => size is None,
                Some(h) => gif_walk_may(
                    reader,
                    start,
                    start + 13 + color_table_len(h[10]),
                    start + cap,
                    0,
                    size,
                ),
            })
    }
}

/// The size of the GIF file at `start`: a walk from its header over its blocks
/// to the trailer, within `cap` bytes.
pub fn parse_gif<R: ReadAt + ?Sized>(reader: &R, start: u64, cap: u64) -> (size: Option<u64>)
    ensures
        gif_may(reader, start as int, cap as int, widened(size)),
{
    if cap > u64::MAX - start {
        return None;
    }
    let limit: u64 = start + cap;
    let got: Option<Vec<u8>> = fetch(reader, start, 13);
    let ghost seen: Option<Seq<u8>> = fetched(got);
    assert(may_fetch(reader, start as int, 13, seen));
    let hdr: Vec<u8> = match got {
        None => {
            return None;
        },
        Some(h) => h,
    };
    let table: u64 = color_table(hdr[10]);
    assert(forall|size: Option<int>| #[trigger]
        gif_walk_may(reader, start as int, start + 13 + table, limit as int, 0, size) ==> gif_may(
            reader,
            start as int,
            cap as int,
            size,
        ));
    if 13 + table > cap {
        assert(gif_walk_may(reader, start as int, start + 13 + table, limit as int, 0, None));
        return None;
    }
    let mut pos: u64 = start + 13 + table;
    let mut steps: u32 = 0;
    loop
        invariant
            start < pos <= limit,
            limit == start + cap,
            steps <= GIF_MAX_STEPS + 1,
            forall|size: Option<int>| #[trigger]
                gif_walk_may(reader, start as int, pos as int, limit as int, steps as int, size)
                    ==> gif_may(reader, start as int, cap as int, size),
        decreases GIF_MAX_STEPS + 1 - steps,
    {
        let ghost here: spec_fn(Option<int>) -> bool = |size: Option<int>|
            gif_walk_may(reader, start as int, pos as int, limit as int, steps as int, size);
        if pos >= limit || steps > GIF_MAX_STEPS {
            assert(here(None));
            return None;
        }
        let got: Option<Vec<u8>> = fetch(reader, pos, 1);
        let ghost seen: Option<Seq<u8>> = fetched(got);
        assert(may_fetch(reader, pos as int, 1, seen));
        let kind: u8 = match got {
            None => {
                assert(here(None));
                return None;
            },
            Some(b) => b[0],
        };
        if kind == 0x3B {
            assert(here(Some(pos - start + 1)));
            return Some(pos - start + 1);
        } else if kind == 0x21 {
            let next: Option<u64> = if limit - pos <= 2 {
                None
            } else {
                skip_sub_blocks(reader, pos + 2, limit)
            };
            assert(sub_blocks_may(reader, pos + 2, limit as int, widened(next)));
            match next {
                None => {
                    assert(here(None));
                    return None;
                },
                Some(p) => {
                    assert forall|size: Option<int>| #[trigger]
                        gif_walk_may(reader, start as int, p as int, limit as int, steps + 1, size)
                        implies here(size) by {}
                    pos = p;
                },
            }
        } else if kind == 0x2C {
            let image: Option<Vec<u8>> = fetch(reader, pos + 1, 10);
            let ghost shape: Option<Seq<u8>> = fetched(image);
            assert(may_fetch(reader, pos + 1, 10, shape));
            match image {
                None => {
                    assert(here(None));
                    return None;
                },
                Some(d) => {
                    let skip: u64 = 11 + color_table(d[8]);
                    let next: Option<u64> = if limit - pos <= skip {
                        None
                    } else {
                        skip_sub_blocks(reader, pos + skip, limit)
                    };
                    assert(sub_blocks_may(
                        reader,
                        pos + 11 + color_table_len(d[8]),
                        limit as int,
                        widened(next),
                    ));
                    match next {
                        None => {
                            assert(here(None));
                            return None;
                        },
                        Some(p) => {
                            assert forall|size: Option<int>| #[trigger]
                                gif_walk_may(
                                    reader,
                                    start as int,
                                    p as int,
                                    limit as int,
                                    steps + 1,
                                    size,
                                ) implies here(size) by {}
                            pos = p;
                        },
                    }
                },
            }
        } else {
            assert(here(None));
            return None;
        }
        steps = steps + 1;
    }
}

// ---------------------------------------------------------------------------
// MP4 and MOV
// ---------------------------------------------------------------------------

/// Whether the four bytes from `at` on are printable ASCII characters, as they
/// are in a box type.
pub open spec fn printable_tag(b: Seq<u8>, at: int) -> bool {
    forall|k: int| at <= k < at + 4 ==> 0x20 <= #[trigger] b[k] <= 0x7E
}

/// Whether the four bytes from `at` on are printable ASCII characters.
fn is_printable_tag(b: &[u8], at: usize) -> (ok: bool)
    requires
        at + 4 <= b@.len(),
    ensures
        ok == printable_tag(b@, at as int),
{
    assert(b.len() <= usize::MAX);
    let mut k: usize = at;
    while k < at + 4
        invariant
            at <= k <= at + 4 <= b@.len(),
            b@.len() <= usize::MAX,
            forall|j: int| at <= j < k ==> 0x20 <= #[trigger] b@[j] <= 0x7E,
        decreases at + 4 - k,
    {
        if b[k] < 0x20 || b[k] > 0x7E {
            return false;
        }
        k = k + 1;
    }
    true
}

/// The size of an MP4 file whose box chain ends at `pos`: credible only if
/// there is at least a box header and a media or movie box was seen.
pub open spec fn mp4_total(start: int, pos: int, mdat: bool, moov: bool) -> Option<int> {
    if pos - start >= 8 && (mdat || moov) {
        Some(pos - start)
    } else {
        None
    }
}

/// Whether the walk over the boxes of an MP4 file may, from the box at `pos`
/// on, give the file size `size`. `mdat` and `moov` say which boxes were seen
/// and `count` how many boxes were passed. The chain ends at an unreadable
/// box header, at a type that is not printable and after the last box that is
/// walked.
pub open spec fn mp4_walk_may<R: ReadAt + ?Sized>(
    reader: &R,
    start: int,
    cap: int,
    pos: int,
    mdat: bool,
    moov: bool,
    count: int,
    size: Option<int>,
) -> bool
    decreases MP4_MAX_BOXES - count, 1int,
{
    if count >= MP4_MAX_BOXES {
        size == mp4_total(start, pos, mdat, moov)
    } else {
        exists|got: Option<Seq<u8>>| #[trigger]
            may_fetch(reader, pos, 8, got) && (match got {
                None => size == mp4_total(start, pos, mdat, moov),
                Some(h) => if !printable_tag(h, 4) {
                    size == mp4_total(start, pos, mdat, moov)
                } else if be32_at(h, 0) == 1 {
                    exists|wide: Option<Seq<u8>>| #[trigger]
                        may_fetch(reader, pos + 8, 8, wide) && (match wide {
                            None => size == mp4_total(start, pos, mdat, moov),
                            Some(w) => mp4_box_may(
                                reader,
                                start,
                                cap,
                                pos,
                                mdat,
                                moov,
                                count,
                                be64_at(w, 0),
                                16,
                                be32_at(h, 4),
                                size,
                            ),
                        })
                } else {
                    mp4_box_may(
                        reader,
                        start,
                        cap,
                        pos,
                        mdat,
                        moov,
                        count,
                        be32_at(h, 0),
                        8,
                        be32_at(h, 4),
                        size,
                    )
                },
            })
    }
}

/// The size of an MP4 file whose last box, of type `tag`, runs up to the cap.
/// The chain is credible only if that box or one before it holds media data or
/// a movie header.
pub open spec fn mp4_open_end(cap: int, mdat: bool, moov: bool, tag: int) -> Option<int> {
    if mdat || moov || tag == TAG_MDAT || tag == TAG_MOOV {
        Some(cap)
    } else {
        None
    }
}

/// The step of [`mp4_walk_may`] for a box of `box_size` bytes with a header of
/// `header_len` bytes and type `tag`. Size zero means "to the end of the
/// file", which is taken to be the cap; a box smaller than its header ends the
/// chain; a box that reaches the cap makes the file as large as the cap. A
/// chain that ends so without media data or movie header has no size either.
pub open spec fn mp4_box_may<R: ReadAt + ?Sized>(
    reader: &R,
    start: int,
    cap: int,
    pos: int,
    mdat: bool,
    moov: bool,
    count: int,
    box_size: int,
    header_len: int,
    tag: int,
    size: Option<int>,
) -> bool
    decreases MP4_MAX_BOXES - count, 0int,
{
    if count >= MP4_MAX_BOXES {
        false
    } else if box_size == 0 {
        size == mp4_open_end(cap, mdat, moov, tag)
    } else if box_size < header_len {
        size == mp4_total(start, pos, mdat, moov)
    } else if pos + box_size >= start + cap {
        size == mp4_open_end(cap, mdat, moov, tag)
    } else {
        mp4_walk_may(
            reader,
            start,
            cap,
            pos + box_size,
            mdat || tag == TAG_MDAT,
            moov || tag == TAG_MOOV,
            count + 1,
            size,
        )
    }
}

/// Whether the size of the MP4 or MOV file at `start`, sought within `cap`
/// bytes, may come out as `size`.
pub open spec fn mp4_may<R: ReadAt + ?Sized>(
    reader: &R,
    start: int,
    cap: int,
    size: Option<int>,
) -> bool {
    if start + cap > u64::MAX {
        size is None
    } else {
        mp4_walk_may(reader, start, cap, start, false, false, 0, size)
    }
}

/// The size of an MP4 file whose box chain ends at `pos`.
fn credible_total(start: u64, pos: u64, mdat: bool, moov: bool) -> (size: Option<u64>)
    requires
        start <= pos,
    ensures
        widened(size) == mp4_total(start as int, pos as int, mdat, moov),
{
    let total: u64 = pos - start;
    if total >= 8 && (mdat || moov) {
        Some(total)
    } else {
        None
    }
}

/// The size of the MP4 or MOV file at `start`: a walk over the chain of
/// top-level boxes, within `cap` bytes.
pub fn parse_mp4<R: ReadAt + ?Sized>(reader: &R, start: u64, cap: u64) -> (size: Option<u64>)
    ensures
        mp4_may(reader, start as int, cap as int, widened(size)),
{
    if cap > u64::MAX - start {
        return None;
    }
    let end_limit: u64 = start + cap;
    let mut pos: u64 = start;
    let mut mdat: bool = false;
    let mut moov: bool = false;
    let mut count: u32 = 0;
    while count < MP4_MAX_BOXES
        invariant
            start <= pos <= end_limit,
            end_limit == start + cap,
            count <= MP4_MAX_BOXES,
            forall|size: Option<int>| #[trigger]
                mp4_walk_may(
                    reader,
                    start as int,
                    cap as int,
                    pos as int,
                    mdat,
                    moov,
                    count as int,
                    size,
                ) ==> mp4_may(reader, start as int, cap as int, size),
        decreases MP4_MAX_BOXES - count,
    {
        let ghost here: spec_fn(Option<int>) -> bool = |size: Option<int>|
            mp4_walk_may(
                reader,
                start as int,
                cap as int,
                pos as int,
                mdat,
                moov,
                count as int,
                size,
            );
        let ghost total: Option<int> = mp4_total(start as int, pos as int, mdat, moov);
        let got: Option<Vec<u8>> = fetch(reader, pos, 8);
        let ghost seen: Option<Seq<u8>> = fetched(got);
        assert(may_fetch(reader, pos as int, 8, seen));
        let h: Vec<u8> = match got {
            None => {
                assert(here(total));
                return credible_total(start, pos, mdat, moov);
            },
            Some(h) => h,
        };
        if !is_printable_tag(&h, 4) {
            assert(here(total));
            return credible_total(start, pos, mdat, moov);
        }
        let tag: u64 = be32(&h, 4);
        let mut box_size: u64 = be32(&h, 0);
        let mut header_len: u64 = 8;
        if box_size == 1 {
            let wide: Option<Vec<u8>> = if pos > u64::MAX - 8 {
                None
            } else {
                fetch(reader, pos + 8, 8)
            };
            let ghost extended: Option<Seq<u8>> = fetched(wide);
            assert(may_fetch(reader, pos + 8, 8, extended));
            match wide {
                None => {
                    assert(here(total));
                    return credible_total(start, pos, mdat, moov);
                },
                Some(w) => {
                    box_size = be64(&w, 0);
                    header_len = 16;
                },
            }
        }
        assert forall|size: Option<int>| #[trigger]
            mp4_box_may(
                reader,
                start as int,
                cap as int,
                pos as int,
                mdat,
                moov,
                count as int,
                box_size as int,
                header_len as int,
                tag as int,
                size,
            ) implies here(size) by {}
        let ghost step: spec_fn(Option<int>) -> bool = |size: Option<int>|
            mp4_box_may(
                reader,
                start as int,
                cap as int,
                pos as int,
                mdat,
                moov,
                count as int,
                box_size as int,
                header_len as int,
                tag as int,
                size,
            );
        let saw_mdat: bool = mdat || tag == TAG_MDAT;
        let saw_moov: bool = moov || tag == TAG_MOOV;
        if box_size == 0 {
            assert(step(mp4_open_end(cap as int, mdat, moov, tag as int)));
            return if saw_mdat || saw_moov {
                Some(cap)
            } else {
                None
            };
        }
        if box_size < header_len {
            assert(step(total));
            return credible_total(start, pos, mdat, moov);
        }
        if box_size >= end_limit - pos {
            assert(step(mp4_open_end(cap as int, mdat, moov, tag as int)));
            return if saw_mdat || saw_moov {
                Some(cap)
            } else {
                None
            };
        }
        assert forall|size: Option<int>| #[trigger]
            mp4_walk_may(
                reader,
                start as int,
                cap as int,
                pos + box_size,
                saw_mdat,
                saw_moov,
                count + 1,
                size,
            ) implies here(size) by {
            assert(step(size));
        }
        mdat = saw_mdat;
        moov = saw_moov;
        pos = pos + box_size;
        count = count + 1;
    }
    proof {
        let total = mp4_total(start as int, pos as int, mdat, moov);
        assert(mp4_walk_may(
            reader,
            start as int,
            cap as int,
            pos as int,
            mdat,
            moov,
            count as int,
            total,
        ));
    }
    credible_total(start, pos, mdat, moov)
}

// ---------------------------------------------------------------------------
// Formats with a size field
// ---------------------------------------------------------------------------

/// Whether `n` is a page size that SQLite knows: a power of two from 512 to
/// 65536.
pub open spec fn is_page_size(n: int) -> bool {
    exists|k: nat| 9 <= k <= 16 && n == #[trigger] pow2(k)
}

/// The size that a SQLite header gives: page size (where 1 stands for 65536)
/// times page count, if the page size, the format versions and the page count
/// are valid.
pub open spec fn sqlite_size(h: Seq<u8>) -> Option<int> {
    let page = if be16_at(h, 16) == 1 {
        65536
    } else {
        be16_at(h, 16)
    };
    if is_page_size(page) && 1 <= h[18] <= 2 && 1 <= h[19] <= 2 && be32_at(h, 28) != 0 {
        Some(page * be32_at(h, 28))
    } else {
        None
    }
}

/// Whether the size of the SQLite file at `off` may come out as `size`.
pub open spec fn sqlite_may<R: ReadAt + ?Sized>(reader: &R, off: int, size: Option<int>) -> bool {
    exists|got: Option<Seq<u8>>| #[trigger]
        may_fetch(reader, off, 100, got) && size == (match got {
            Some(h) => sqlite_size(h),
            None => None,
        })
}

/// Whether `n` is a page size that SQLite knows.
fn page_size_ok(n: u64) -> (ok: bool)
    ensures
        ok == is_page_size(n as int),
{
    proof {
        lemma2_to64();
        assert forall|k: nat| 9 <= k <= 16 implies #[trigger] pow2(k) == 512 || pow2(k) == 1024
            || pow2(k) == 2048 || pow2(k) == 4096 || pow2(k) == 8192 || pow2(k) == 16384 || pow2(k)
            == 32768 || pow2(k) == 65536 by {
            assert(k == 9 || k == 10 || k == 11 || k == 12 || k == 13 || k == 14 || k == 15 || k
                == 16);
        }
    }
    n == 512 || n == 1024 || n == 2048 || n == 4096 || n == 8192 || n == 16384 || n == 32768 || n
        == 65536
}

/// The size of the SQLite database at `off`, from its header.
pub fn parse_sqlite<R: ReadAt + ?Sized>(reader: &R, off: u64) -> (size: Option<u64>)
    ensures
        sqlite_may(reader, off as int, widened(size)),
{
    let got: Option<Vec<u8>> = fetch(reader, off, 100);
    let ghost seen: Option<Seq<u8>> = fetched(got);
    assert(may_fetch(reader, off as int, 100, seen));
    match got {
        None => None,
        Some(h) => {
            let mut page_size: u64 = be16(&h, 16);
            if page_size == 1 {
                page_size = 65536;
            }
            if !page_size_ok(page_size) {
                return None;
            }
            if h[18] < 1 || h[18] > 2 || h[19] < 1 || h[19] > 2 {
                return None;
            }
            let pages: u64 = be32(&h, 28);
            if pages == 0 {
                return None;
            }
            assert(page_size * pages <= 65536 * 0xffff_ffff) by (nonlinear_arith)
                requires
                    page_size <= 65536,
                    pages <= 0xffff_ffff,
            ;
            Some(page_size * pages)
        },
    }
}

/// The size that a 7z start header gives: the header's 32 bytes, and the
/// offset and size of the next header, if those are plausible.
pub open spec fn seven_zip_size(h: Seq<u8>) -> Option<int> {
    if le64_at(h, 12) <= 0x100_0000_0000 && le64_at(h, 20) <= 0x4_0000_0000 {
        Some(32 + le64_at(h, 12) + le64_at(h, 20))
    } else {
        None
    }
}

/// Whether the size of the 7z file at `off` may come out as `size`.
pub open spec fn seven_zip_may<R: ReadAt + ?Sized>(
    reader: &R,
    off: int,
    size: Option<int>,
) -> bool {
    exists|got: Option<Seq<u8>>| #[trigger]
        may_fetch(reader, off, 32, got) && size == (match got {
            Some(h) => seven_zip_size(h),
            None => None,
        })
}

/// The size of the 7z archive at `off`, from its start header.
pub fn parse_7z<R: ReadAt + ?Sized>(reader: &R, off: u64) -> (size: Option<u64>)
    ensures
        seven_zip_may(reader, off as int, widened(size)),
{
    let got: Option<Vec<u8>> = fetch(reader, off, 32);
    let ghost seen: Option<Seq<u8>> = fetched(got);
    assert(may_fetch(reader, off as int, 32, seen));
    match got {
        None => None,
        Some(h) => {
            let next_off: u64 = le64(&h, 12);
            let next_size: u64 = le64(&h, 20);
            if next_off > 0x100_0000_0000 || next_size > 0x4_0000_0000 {
                return None;
            }
            Some(32 + next_off + next_size)
        },
    }
}

/// The size that a RIFF header gives: chunk size and eight header bytes, if
/// the form type is "WAVE" and the size leaves room for a format chunk.
pub open spec fn wav_size(h: Seq<u8>) -> Option<int> {
    if be32_at(h, 8) == TAG_WAVE && le32_at(h, 4) + 8 >= 36 {
        Some(le32_at(h, 4) + 8)
    } else {
        None
    }
}

/// Whether the size of the WAV file at `off` may come out as `size`.
pub open spec fn wav_may<R: ReadAt + ?Sized>(reader: &R, off: int, size: Option<int>) -> bool {
    exists|got: Option<Seq<u8>>| #[trigger]
        may_fetch(reader, off, 12, got) && size == (match got {
            Some(h) => wav_size(h),
            None => None,
        })
}

/// The size of the WAV file at `off`. Other RIFF forms, such as AVI, are
/// rejected.
pub fn parse_wav<R: ReadAt + ?Sized>(reader: &R, off: u64) -> (size: Option<u64>)
    ensures
        wav_may(reader, off as int, widened(size)),
{
    let got: Option<Vec<u8>> = fetch(reader, off, 12);
    let ghost seen: Option<Seq<u8>> = fetched(got);
    assert(may_fetch(reader, off as int, 12, seen));
    match got {
        None => None,
        Some(h) => {
            if be32(&h, 8) != TAG_WAVE {
                return None;
            }
            let size: u64 = le32(&h, 4) + 8;
            if size < 36 {
                return None;
            }
            Some(size)
        },
    }
}

/// The size field of a BMP header, if the reserved bytes are zero, the size of
/// the DIB header is a known one and the size is at least that of the headers.
pub open spec fn bmp_size(h: Seq<u8>) -> Option<int> {
    let dib = le32_at(h, 14);
    if h[6] == 0 && h[7] == 0 && h[8] == 0 && h[9] == 0 && (dib == 12 || dib == 40 || dib == 52
        || dib == 56 || dib == 108 || dib == 124) && le32_at(h, 2) >= 54 {
        Some(le32_at(h, 2))
    } else {
        None
    }
}

/// Whether the size of the BMP file at `off` may come out as `size`.
pub open spec fn bmp_may<R: ReadAt + ?Sized>(reader: &R, off: int, size: Option<int>) -> bool {
    exists|got: Option<Seq<u8>>| #[trigger]
        may_fetch(reader, off, 26, got) && size == (match got {
            Some(h) => bmp_size(h),
            None => None,
        })
}

/// The size of the BMP file at `off`, after strict plausibility checks: the
/// two-byte signature is prone to false positives.
pub fn parse_bmp<R: ReadAt + ?Sized>(reader: &R, off: u64) -> (size: Option<u64>)
    ensures
        bmp_may(reader, off as int, widened(size)),
{
    let got: Option<Vec<u8>> = fetch(reader, off, 26);
    let ghost seen: Option<Seq<u8>> = fetched(got);
    assert(may_fetch(reader, off as int, 26, seen));
    match got {
        None => None,
        Some(h) => {
            let reserved_ok: bool = h[6] == 0 && h[7] == 0 && h[8] == 0 && h[9] == 0;
            let size: u64 = le32(&h, 2);
            let dib: u64 = le32(&h, 14);
            let dib_known: bool = dib == 12 || dib == 40 || dib == 52 || dib == 56 || dib == 108
                || dib == 124;
            if reserved_ok && dib_known && size >= 54 {
                Some(size)
            } else {
                None
            }
        },
    }
}

// ---------------------------------------------------------------------------
// ZIP content
// ---------------------------------------------------------------------------

/// "[Content_Types].xml".
pub open spec fn content_types_name() -> Seq<u8> {
    seq![
        0x5B, 0x43, 0x6F, 0x6E, 0x74, 0x65, 0x6E, 0x74, 0x5F, 0x54, 0x79, 0x70, 0x65, 0x73, 0x5D,
        0x2E, 0x78, 0x6D, 0x6C,
    ]
}

/// "word/".
pub open spec fn word_prefix() -> Seq<u8> {
    seq![0x77, 0x6F, 0x72, 0x64, 0x2F]
}

/// "xl/".
pub open spec fn xl_prefix() -> Seq<u8> {
    seq![0x78, 0x6C, 0x2F]
}

/// "ppt/".
pub open spec fn ppt_prefix() -> Seq<u8> {
    seq![0x70, 0x70, 0x74, 0x2F]
}

/// The type of a ZIP file in whose `window` of bytes member names were looked
/// for: an office document if it holds the content type list and a part of
/// such a document, else a plain archive.
pub open spec fn zip_type(window: Seq<u8>) -> Seq<char> {
    if !occurs(window, content_types_name()) {
        "zip"@
    } else if occurs(window, word_prefix()) {
        "docx"@
    } else if occurs(window, xl_prefix()) {
        "xlsx"@
    } else if occurs(window, ppt_prefix()) {
        "pptx"@
    } else {
        "zip"@
    }
}

/// The bytes read, or none after a failed read.
pub open spec fn bytes_or_none(got: Option<Seq<u8>>) -> Seq<u8> {
    match got {
        Some(b) => b,
        None => Seq::empty(),
    }
}

/// The smaller of two integers.
pub open spec fn least(a: int, b: int) -> int {
    if a <= b {
        a
    } else {
        b
    }
}

/// Whether the ZIP file of `size` bytes at `off` may be taken for type `kind`.
/// Looked at are the first 4096 bytes and, in a larger file, also the last
/// 65536, where the central directory lists the members.
pub open spec fn zip_type_may<R: ReadAt + ?Sized>(
    reader: &R,
    off: int,
    size: int,
    kind: Seq<char>,
) -> bool {
    exists|head: Option<Seq<u8>>| #[trigger]
        may_fetch(reader, off, least(size, 4096) as nat, head) && (if size > 4096 {
            exists|tail: Option<Seq<u8>>| #[trigger]
                may_fetch(
                    reader,
                    off + size - least(size, 65536),
                    least(size, 65536) as nat,
                    tail,
                ) && kind == zip_type(bytes_or_none(head) + bytes_or_none(tail))
        } else {
            kind == zip_type(bytes_or_none(head))
        })
}

/// Tells office documents from plain archives by the member names in the ZIP
/// file of `size` bytes at `off`.
pub fn classify_zip<R: ReadAt + ?Sized>(reader: &R, off: u64, size: u64) -> (kind: &'static str)
    requires
        off + size <= u64::MAX,
    ensures
        zip_type_may(reader, off as int, size as int, kind@),
{
    let mut window: Vec<u8> = Vec::new();
    let head_len: u64 = if size <= 4096 {
        size
    } else {
        4096
    };
    let head: Option<Vec<u8>> = fetch(reader, off, head_len as usize);
    let ghost first: Option<Seq<u8>> = fetched(head);
    assert(may_fetch(reader, off as int, least(size as int, 4096) as nat, first));
    match head {
        Some(mut b) => {
            window.append(&mut b);
        },
        None => {},
    }
    assert(window@ =~= bytes_or_none(first));
    let ghost mut last: Option<Seq<u8>> = None;
    if size > 4096 {
        let tail_len: u64 = if size <= 65536 {
            size
        } else {
            65536
        };
        let tail: Option<Vec<u8>> = fetch(reader, off + size - tail_len, tail_len as usize);
        proof {
            last = fetched(tail);
        }
        assert(may_fetch(
            reader,
            off + size - least(size as int, 65536),
            least(size as int, 65536) as nat,
            last,
        ));
        match tail {
            Some(mut b) => {
                window.append(&mut b);
            },
            None => {},
        }
        assert(window@ =~= bytes_or_none(first) + bytes_or_none(last));
    }
    let content_types: [u8; 19] = [
        0x5B, 0x43, 0x6F, 0x6E, 0x74, 0x65, 0x6E, 0x74, 0x5F, 0x54, 0x79, 0x70, 0x65, 0x73, 0x5D,
        0x2E, 0x78, 0x6D, 0x6C,
    ];
    let word: [u8; 5] = [0x77, 0x6F, 0x72, 0x64, 0x2F];
    let xl: [u8; 3] = [0x78, 0x6C, 0x2F];
    let ppt: [u8; 4] = [0x70, 0x70, 0x74, 0x2F];
    assert(content_types@ =~= content_types_name());
    assert(word@ =~= word_prefix());
    assert(xl@ =~= xl_prefix());
    assert(ppt@ =~= ppt_prefix());
    if !contains(&window, &content_types) {
        return "zip";
    }
    if contains(&window, &word) {
        "docx"
    } else if contains(&window, &xl) {
        "xlsx"
    } else if contains(&window, &ppt) {
        "pptx"
    } else {
        "zip"
    }
}

} // verus!
