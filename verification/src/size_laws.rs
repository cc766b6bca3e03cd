//! What holds of the sizes that files state: they are determined by a source
//! that answers each read in one way only, do not depend on a cap beyond them,
//! and are those of the files' own bytes.

use vstd::prelude::*;

use crate::bytes::{be32_at, be64_at};
use crate::carver::{capped, stated_size_may};
use crate::disk::{image_fetch_is_determined, may_fetch, reads_image, steady, ReadAt};
use crate::signatures::SizeParser;
use crate::sizes::{
    color_table_len, gif_may, gif_walk_may, mp4_box_may, mp4_total, mp4_walk_may, printable_tag,
    sub_blocks_may, GIF_MAX_STEPS, MP4_MAX_BOXES, TAG_MDAT, TAG_MOOV,
};

verus! {

/// A request is answered in one way only.
pub(crate) proof fn fetch_once<R: ReadAt + ?Sized>(
    reader: &R,
    offset: int,
    len: nat,
    a: Option<Seq<u8>>,
    b: Option<Seq<u8>>,
)
    requires
        steady(reader),
        may_fetch(reader, offset, len, a),
        may_fetch(reader, offset, len, b),
    ensures
        a == b,
{
}

/// A chain of GIF sub-blocks ends in one place.
proof fn sub_blocks_once<R: ReadAt + ?Sized>(
    reader: &R,
    pos: int,
    limit: int,
    a: Option<int>,
    b: Option<int>,
)
    requires
        steady(reader),
        sub_blocks_may(reader, pos, limit, a),
        sub_blocks_may(reader, pos, limit, b),
    ensures
        a == b,
    decreases
            (if pos < limit {
                limit - pos
            } else {
                0
            }),
{
    if pos < limit {
        let x = choose|got: Option<Seq<u8>>| #[trigger]
            may_fetch(reader, pos, 1, got) && (match got {
                None => a is None,
                Some(d) => if d[0] == 0 {
                    a == Some(pos + 1)
                } else {
                    sub_blocks_may(reader, pos + 1 + d[0], limit, a)
                },
            });
        let y = choose|got: Option<Seq<u8>>| #[trigger]
            may_fetch(reader, pos, 1, got) && (match got {
                None => b is None,
                Some(d) => if d[0] == 0 {
                    b == Some(pos + 1)
                } else {
                    sub_blocks_may(reader, pos + 1 + d[0], limit, b)
                },
            });
        fetch_once(reader, pos, 1, x, y);
        if let Some(d) = x {
            if d[0] != 0 {
                sub_blocks_once(reader, pos + 1 + d[0], limit, a, b);
            }
        }
    }
}

/// What follows an extension or an image in the walk over a GIF file.
pub open spec fn gif_next_may<R: ReadAt + ?Sized>(
    reader: &R,
    start: int,
    blocks: int,
    limit: int,
    steps: int,
    size: Option<int>,
) -> bool {
    exists|next: Option<int>| #[trigger]
        sub_blocks_may(reader, blocks, limit, next) && (match next {
            None => size is None,
            Some(p) => gif_walk_may(reader, start, p, limit, steps + 1, size),
        })
}

/// The walk over a GIF file ends in one way.
proof fn gif_walk_once<R: ReadAt + ?Sized>(
    reader: &R,
    start: int,
    pos: int,
    limit: int,
    steps: int,
    a: Option<int>,
    b: Option<int>,
)
    requires
        steady(reader),
        gif_walk_may(reader, start, pos, limit, steps, a),
        gif_walk_may(reader, start, pos, limit, steps, b),
    ensures
        a == b,
    decreases GIF_MAX_STEPS + 1 - steps, 1int,
{
    if pos < limit && steps <= GIF_MAX_STEPS {
        let x = gif_block(reader, start, pos, limit, steps, a);
        let y = gif_block(reader, start, pos, limit, steps, b);
        fetch_once(reader, pos, 1, x, y);
        if let Some(d) = x {
            if d[0] == 0x21 {
                gif_next_once(reader, start, pos + 2, limit, steps, a, b);
            } else if d[0] == 0x2C {
                let v = gif_image(reader, start, pos, limit, steps, a);
                let w = gif_image(reader, start, pos, limit, steps, b);
                fetch_once(reader, pos + 1, 10, v, w);
                if let Some(e) = v {
                    gif_next_once(
                        reader,
                        start,
                        pos + 11 + color_table_len(e[8]),
                        limit,
                        steps,
                        a,
                        b,
                    );
                }
            }
        }
    }
}

/// The walk goes on in one way after the sub-blocks.
proof fn gif_next_once<R: ReadAt + ?Sized>(
    reader: &R,
    start: int,
    blocks: int,
    limit: int,
    steps: int,
    a: Option<int>,
    b: Option<int>,
)
    requires
        steady(reader),
        steps <= GIF_MAX_STEPS,
        gif_next_may(reader, start, blocks, limit, steps, a),
        gif_next_may(reader, start, blocks, limit, steps, b),
    ensures
        a == b,
    decreases GIF_MAX_STEPS + 1 - steps, 0int,
{
    let x = choose|next: Option<int>| #[trigger]
        sub_blocks_may(reader, blocks, limit, next) && (match next {
            None => a is None,
            Some(p) => gif_walk_may(reader, start, p, limit, steps + 1, a),
        });
    let y = choose|next: Option<int>| #[trigger]
        sub_blocks_may(reader, blocks, limit, next) && (match next {
            None => b is None,
            Some(p) => gif_walk_may(reader, start, p, limit, steps + 1, b),
        });
    sub_blocks_once(reader, blocks, limit, x, y);
    if let Some(p) = x {
        gif_walk_once(reader, start, p, limit, steps + 1, a, b);
    }
}

/// The byte that introduces a block of a GIF file, and what follows from it.
pub(crate) proof fn gif_block<R: ReadAt + ?Sized>(
    reader: &R,
    start: int,
    pos: int,
    limit: int,
    steps: int,
    size: Option<int>,
) -> (got: Option<Seq<u8>>)
    requires
        pos < limit,
        steps <= GIF_MAX_STEPS,
        gif_walk_may(reader, start, pos, limit, steps, size),
    ensures
        may_fetch(reader, pos, 1, got),
        match got {
            None => size is None,
            Some(d) => if d[0] == 0x3B {
                size == Some(pos - start + 1)
            } else if d[0] == 0x21 {
                gif_next_may(reader, start, pos + 2, limit, steps, size)
            } else if d[0] == 0x2C {
                gif_image_may(reader, start, pos, limit, steps, size)
            } else {
                size is None
            },
        },
{
    choose|got: Option<Seq<u8>>| #[trigger]
        may_fetch(reader, pos, 1, got) && (match got {
            None => size is None,
            Some(d) => if d[0] == 0x3B {
                size == Some(pos - start + 1)
            } else if d[0] == 0x21 {
                gif_next_may(reader, start, pos + 2, limit, steps, size)
            } else if d[0] == 0x2C {
                gif_image_may(reader, start, pos, limit, steps, size)
            } else {
                size is None
            },
        })
}

/// What follows the descriptor of an image in a GIF file.
pub open spec fn gif_image_may<R: ReadAt + ?Sized>(
    reader: &R,
    start: int,
    pos: int,
    limit: int,
    steps: int,
    size: Option<int>,
) -> bool {
    exists|image: Option<Seq<u8>>| #[trigger]
        may_fetch(reader, pos + 1, 10, image) && (match image {
            None => size is None,
            Some(d) => gif_next_may(
                reader,
                start,
                pos + 11 + color_table_len(d[8]),
                limit,
                steps,
                size,
            ),
        })
}

/// The descriptor of an image in a GIF file, and what follows from it.
pub(crate) proof fn gif_image<R: ReadAt + ?Sized>(
    reader: &R,
    start: int,
    pos: int,
    limit: int,
    steps: int,
    size: Option<int>,
) -> (image: Option<Seq<u8>>)
    requires
        gif_image_may(reader, start, pos, limit, steps, size),
    ensures
        may_fetch(reader, pos + 1, 10, image),
        match image {
            None => size is None,
            Some(d) => gif_next_may(
                reader,
                start,
                pos + 11 + color_table_len(d[8]),
                limit,
                steps,
                size,
            ),
        },
{
    choose|image: Option<Seq<u8>>| #[trigger]
        may_fetch(reader, pos + 1, 10, image) && (match image {
            None => size is None,
            Some(d) => gif_next_may(
                reader,
                start,
                pos + 11 + color_table_len(d[8]),
                limit,
                steps,
                size,
            ),
        })
}

/// A GIF file has one size.
proof fn gif_once<R: ReadAt + ?Sized>(
    reader: &R,
    start: int,
    cap: int,
    a: Option<int>,
    b: Option<int>,
)
    requires
        steady(reader),
        gif_may(reader, start, cap, a),
        gif_may(reader, start, cap, b),
    ensures
        a == b,
{
    if start + cap <= u64::MAX {
        let x = choose|got: Option<Seq<u8>>| #[trigger]
            may_fetch(reader, start, 13, got) && (match got {
                None => a is None,
                Some(h) => gif_walk_may(
                    reader,
                    start,
                    start + 13 + color_table_len(h[10]),
                    start + cap,
                    0,
                    a,
                ),
            });
        let y = choose|got: Option<Seq<u8>>| #[trigger]
            may_fetch(reader, start, 13, got) && (match got {
                None => b is None,
                Some(h) => gif_walk_may(
                    reader,
                    start,
                    start + 13 + color_table_len(h[10]),
                    start + cap,
                    0,
                    b,
                ),
            });
        fetch_once(reader, start, 13, x, y);
        if let Some(h) = x {
            gif_walk_once(
                reader,
                start,
                start + 13 + color_table_len(h[10]),
                start + cap,
                0,
                a,
                b,
            );
        }
    }
}

/// What follows the header `h` of a box of an MP4 file.
pub open spec fn mp4_header_may<R: ReadAt + ?Sized>(
    reader: &R,
    start: int,
    cap: int,
    pos: int,
    mdat: bool,
    moov: bool,
    count: int,
    h: Seq<u8>,
    size: Option<int>,
) -> bool {
    if !printable_tag(h, 4) {
        size == mp4_total(start, pos, mdat, moov)
    } else if be32_at(h, 0) == 1 {
        exists|wide: Option<Seq<u8>>| #[trigger]
            may_fetch(reader, pos + 8, 8, wide) && (match wide {
                None => size == mp4_total(start, pos, mdat, moov),
                Some(w) => mp4_box_may(
                    reader,
                    start,
                    cap,
                    pos,
                    mdat,
                    moov,
                    count,
                    be64_at(w, 0),
                    16,
                    be32_at(h, 4),
                    size,
                ),
            })
    } else {
        mp4_box_may(
            reader,
            start,
            cap,
            pos,
            mdat,
            moov,
            count,
            be32_at(h, 0),
            8,
            be32_at(h, 4),
            size,
        )
    }
}

/// The header of a box of an MP4 file, and what follows from it.
pub(crate) proof fn mp4_header<R: ReadAt + ?Sized>(
    reader: &R,
    start: int,
    cap: int,
    pos: int,
    mdat: bool,
    moov: bool,
    count: int,
    size: Option<int>,
) -> (got: Option<Seq<u8>>)
    requires
        count < MP4_MAX_BOXES,
        mp4_walk_may(reader, start, cap, pos, mdat, moov, count, size),
    ensures
        may_fetch(reader, pos, 8, got),
        match got {
            None => size == mp4_total(start, pos, mdat, moov),
            Some(h) => mp4_header_may(reader, start, cap, pos, mdat, moov, count, h, size),
        },
{
    choose|got: Option<Seq<u8>>| #[trigger]
        may_fetch(reader, pos, 8, got) && (match got {
            None => size == mp4_total(start, pos, mdat, moov),
            Some(h) => mp4_header_may(reader, start, cap, pos, mdat, moov, count, h, size),
        })
}

/// The walk over an MP4 file ends in one way, and in the same way within a wider
/// cap if it ends before the cap.
proof fn mp4_walk_once<R: ReadAt + ?Sized>(
    reader: &R,
    start: int,
    cap: int,
    wider: int,
    pos: int,
    mdat: bool,
    moov: bool,
    count: int,
    a: Option<int>,
    b: Option<int>,
)
    requires
        steady(reader),
        cap <= wider,
        cap < wider ==> (a matches Some(s) && s < cap),
        mp4_walk_may(reader, start, cap, pos, mdat, moov, count, a),
        mp4_walk_may(reader, start, wider, pos, mdat, moov, count, b),
    ensures
        a == b,
    decreases MP4_MAX_BOXES - count, 1int,
{
    if count < MP4_MAX_BOXES {
        let x = mp4_header(reader, start, cap, pos, mdat, moov, count, a);
        let y = mp4_header(reader, start, wider, pos, mdat, moov, count, b);
        fetch_once(reader, pos, 8, x, y);
        if let Some(h) = x {
            if printable_tag(h, 4) {
                let tag = be32_at(h, 4);
                if be32_at(h, 0) == 1 {
                    let v = choose|wide: Option<Seq<u8>>| #[trigger]
                        may_fetch(reader, pos + 8, 8, wide) && (match wide {
                            None => a == mp4_total(start, pos, mdat, moov),
                            Some(w) => mp4_box_may(
                                reader,
                                start,
                                cap,
                                pos,
                                mdat,
                                moov,
                                count,
                                be64_at(w, 0),
                                16,
                                tag,
                                a,
                            ),
                        });
                    let w = choose|wide: Option<Seq<u8>>| #[trigger]
                        may_fetch(reader, pos + 8, 8, wide) && (match wide {
                            None => b == mp4_total(start, pos, mdat, moov),
                            Some(w) => mp4_box_may(
                                reader,
                                start,
                                wider,
                                pos,
                                mdat,
                                moov,
                                count,
                                be64_at(w, 0),
                                16,
                                tag,
                                b,
                            ),
                        });
                    fetch_once(reader, pos + 8, 8, v, w);
                    if let Some(e) = v {
                        mp4_box_once(
                            reader,
                            start,
                            cap,
                            wider,
                            pos,
                            mdat,
                            moov,
                            count,
                            be64_at(e, 0),
                            16,
                            tag,
                            a,
                            b,
                        );
                    }
                } else {
                    mp4_box_once(
                        reader,
                        start,
                        cap,
                        wider,
                        pos,
                        mdat,
                        moov,
                        count,
                        be32_at(h, 0),
                        8,
                        tag,
                        a,
                        b,
                    );
                }
            }
        }
    }
}

/// One box is passed in one way, within a wider cap too.
proof fn mp4_box_once<R: ReadAt + ?Sized>(
    reader: &R,
    start: int,
    cap: int,
    wider: int,
    pos: int,
    mdat: bool,
    moov: bool,
    count: int,
    box_size: int,
    header_len: int,
    tag: int,
    a: Option<int>,
    b: Option<int>,
)
    requires
        steady(reader),
        cap <= wider,
        cap < wider ==> (a matches Some(s) && s < cap),
        count < MP4_MAX_BOXES,
        mp4_box_may(
            reader,
            start,
            cap,
            pos,
            mdat,
            moov,
            count,
            box_size,
            header_len,
            tag,
            a,
        ),
        mp4_box_may(
            reader,
            start,
            wider,
            pos,
            mdat,
            moov,
            count,
            box_size,
            header_len,
            tag,
            b,
        ),
    ensures
        a == b,
    decreases MP4_MAX_BOXES - count, 0int,
{
    if box_size != 0 && box_size >= header_len && pos + box_size < start + cap {
        mp4_walk_once(
            reader,
            start,
            cap,
            wider,
            pos + box_size,
            mdat || tag == TAG_MDAT,
            moov || tag == TAG_MOOV,
            count + 1,
            a,
            b,
        );
    }
}

/// A file states one size of itself.
pub(crate) proof fn stated_size_once<R: ReadAt + ?Sized>(
    reader: &R,
    parser: SizeParser,
    off: int,
    cap: int,
    a: Option<int>,
    b: Option<int>,
)
    requires
        steady(reader),
        stated_size_may(reader, parser, off, cap, a),
        stated_size_may(reader, parser, off, cap, b),
    ensures
        a == b,
{
    match parser {
        SizeParser::Gif => gif_once(reader, off, cap, a, b),
        SizeParser::Mp4 => if off + cap <= u64::MAX {
            mp4_walk_once(reader, off, cap, cap, off, false, false, 0, a, b);
        },
        _ => {},
    }
}

// ---------------------------------------------------------------------------
// What a size depends on
// ---------------------------------------------------------------------------

/// Whether what `other` gives at `shift` bytes further on is what `reader` gives,
/// for all that lies from `lo` up to `hi`.
spec fn reads_alike<R: ReadAt + ?Sized, S: ReadAt + ?Sized>(
    reader: &R,
    other: &S,
    lo: int,
    hi: int,
    shift: int,
) -> bool {
    forall|p: int, q: int, len: nat, a: Option<Seq<u8>>, b: Option<Seq<u8>>| #[trigger]
        may_fetch(reader, p, len, a) && #[trigger] may_fetch(other, q, len, b) && q == p + shift
            && lo <= p && p + len <= hi && a is Some ==> a == b
}

/// A chain of GIF sub-blocks ends after it starts, within the limit.
proof fn sub_blocks_end<R: ReadAt + ?Sized>(reader: &R, pos: int, limit: int, end: int)
    requires
        sub_blocks_may(reader, pos, limit, Some(end)),
    ensures
        pos < end <= limit,
    decreases
            (if pos < limit {
                limit - pos
            } else {
                0
            }),
{
    let got = choose|got: Option<Seq<u8>>| #[trigger]
        may_fetch(reader, pos, 1, got) && (match got {
            None => false,
            Some(d) => if d[0] == 0 {
                end == pos + 1
            } else {
                sub_blocks_may(reader, pos + 1 + d[0], limit, Some(end))
            },
        });
    let d = got->0;
    if d[0] != 0 {
        sub_blocks_end(reader, pos + 1 + d[0], limit, end);
    }
}

/// A chain of GIF sub-blocks ends in the same place wherever its bytes stand.
proof fn sub_blocks_alike<R: ReadAt + ?Sized, S: ReadAt + ?Sized>(
    reader: &R,
    other: &S,
    lo: int,
    hi: int,
    shift: int,
    pos: int,
    limit: int,
    wider: int,
    end: int,
    b: Option<int>,
)
    requires
        reads_alike(reader, other, lo, hi, shift),
        lo <= pos,
        end <= hi,
        limit + shift <= wider,
        sub_blocks_may(reader, pos, limit, Some(end)),
        sub_blocks_may(other, pos + shift, wider, b),
    ensures
        b == Some(end + shift),
    decreases
            (if pos < limit {
                limit - pos
            } else {
                0
            }),
{
    sub_blocks_end(reader, pos, limit, end);
    let x = choose|got: Option<Seq<u8>>| #[trigger]
        may_fetch(reader, pos, 1, got) && (match got {
            None => false,
            Some(d) => if d[0] == 0 {
                end == pos + 1
            } else {
                sub_blocks_may(reader, pos + 1 + d[0], limit, Some(end))
            },
        });
    let at = pos + shift;
    let y = choose|got: Option<Seq<u8>>| #[trigger]
        may_fetch(other, at, 1, got) && (match got {
            None => b is None,
            Some(d) => if d[0] == 0 {
                b == Some(at + 1)
            } else {
                sub_blocks_may(other, at + 1 + d[0], wider, b)
            },
        });
    assert(x == y);
    let d = x->0;
    if d[0] != 0 {
        sub_blocks_alike(
            reader,
            other,
            lo,
            hi,
            shift,
            pos + 1 + d[0],
            limit,
            wider,
            end,
            b,
        );
    }
}

/// Where the walk over a GIF file goes on after the sub-blocks.
pub(crate) proof fn gif_next<R: ReadAt + ?Sized>(
    reader: &R,
    start: int,
    blocks: int,
    limit: int,
    steps: int,
    size: Option<int>,
) -> (next: Option<int>)
    requires
        gif_next_may(reader, start, blocks, limit, steps, size),
    ensures
        sub_blocks_may(reader, blocks, limit, next),
        match next {
            None => size is None,
            Some(p) => gif_walk_may(reader, start, p, limit, steps + 1, size),
        },
{
    choose|next: Option<int>| #[trigger]
        sub_blocks_may(reader, blocks, limit, next) && (match next {
            None => size is None,
            Some(p) => gif_walk_may(reader, start, p, limit, steps + 1, size),
        })
}

/// The walk over a GIF file ends with a trailer, after where it is and within
/// the limit.
proof fn gif_walk_end<R: ReadAt + ?Sized>(
    reader: &R,
    start: int,
    pos: int,
    limit: int,
    steps: int,
    n: int,
)
    requires
        gif_walk_may(reader, start, pos, limit, steps, Some(n)),
    ensures
        pos < start + n <= limit,
        exists|d: Seq<u8>| #[trigger] may_fetch(reader, start + n - 1, 1, Some(d)) && d[0] == 0x3B,
    decreases GIF_MAX_STEPS + 1 - steps,
{
    let x = gif_block(reader, start, pos, limit, steps, Some(n));
    let d = x->0;
    if d[0] == 0x3B {
        assert(start + n - 1 == pos);
        assert(may_fetch(reader, start + n - 1, 1, Some(d)));
    } else {
        let blocks = if d[0] == 0x21 {
            pos + 2
        } else {
            let image = gif_image(reader, start, pos, limit, steps, Some(n));
            pos + 11 + color_table_len(image->0[8])
        };
        let next = gif_next(reader, start, blocks, limit, steps, Some(n));
        sub_blocks_end(reader, blocks, limit, next->0);
        gif_walk_end(reader, start, next->0, limit, steps + 1, n);
    }
}

/// The walk over a GIF file ends in the same place wherever the file's bytes
/// stand, within a wider limit too.
proof fn gif_walk_alike<R: ReadAt + ?Sized, S: ReadAt + ?Sized>(
    reader: &R,
    other: &S,
    lo: int,
    hi: int,
    shift: int,
    start: int,
    pos: int,
    limit: int,
    wider: int,
    steps: int,
    n: int,
    b: Option<int>,
)
    requires
        reads_alike(reader, other, lo, hi, shift),
        lo <= pos,
        start + n <= hi,
        limit + shift <= wider,
        gif_walk_may(reader, start, pos, limit, steps, Some(n)),
        gif_walk_may(other, start + shift, pos + shift, wider, steps, b),
    ensures
        b == Some(n),
    decreases GIF_MAX_STEPS + 1 - steps,
{
    gif_walk_end(reader, start, pos, limit, steps, n);
    let at = pos + shift;
    let from = start + shift;
    let x = gif_block(reader, start, pos, limit, steps, Some(n));
    let y = gif_block(other, from, at, wider, steps, b);
    assert(x == y);
    let d = x->0;
    if d[0] != 0x3B {
        let blocks = if d[0] == 0x21 {
            pos + 2
        } else {
            let image = gif_image(reader, start, pos, limit, steps, Some(n));
            pos + 11 + color_table_len(image->0[8])
        };
        let next = gif_next(reader, start, blocks, limit, steps, Some(n));
        let p = next->0;
        sub_blocks_end(reader, blocks, limit, p);
        gif_walk_end(reader, start, p, limit, steps + 1, n);
        if d[0] == 0x2C {
            let v = gif_image(reader, start, pos, limit, steps, Some(n));
            let w = gif_image(other, from, at, wider, steps, b);
            assert(may_fetch(other, at + 1, 10, w));
            assert(v == w);
        }
        let follow = gif_next(other, from, blocks + shift, wider, steps, b);
        sub_blocks_alike(reader, other, lo, hi, shift, blocks, limit, wider, p, follow);
        gif_walk_alike(
            reader,
            other,
            lo,
            hi,
            shift,
            start,
            p,
            limit,
            wider,
            steps + 1,
            n,
            b,
        );
    }
}

/// A GIF file has the same size wherever its bytes stand, within a wider cap
/// too.
proof fn gif_alike<R: ReadAt + ?Sized, S: ReadAt + ?Sized>(
    reader: &R,
    other: &S,
    start: int,
    shift: int,
    cap: int,
    wider: int,
    n: int,
    b: Option<int>,
)
    requires
        reads_alike(reader, other, start, start + n, shift),
        start + shift + wider <= u64::MAX,
        cap <= wider,
        gif_may(reader, start, cap, Some(n)),
        gif_may(other, start + shift, wider, b),
    ensures
        b == Some(n),
{
    let from = start + shift;
    let x = gif_head(reader, start, cap, Some(n));
    let y = gif_head(other, from, wider, b);
    let h = x->0;
    let pos = start + 13 + color_table_len(h[10]);
    gif_walk_end(reader, start, pos, start + cap, 0, n);
    assert(x == y);
    gif_walk_alike(
        reader,
        other,
        start,
        start + n,
        shift,
        start,
        pos,
        start + cap,
        from + wider,
        0,
        n,
        b,
    );
}

/// The header of a GIF file, and what follows from it.
pub(crate) proof fn gif_head<R: ReadAt + ?Sized>(reader: &R, start: int, cap: int,
    size: Option<int>) -> (got:
    Option<Seq<u8>>)
    requires
        start + cap <= u64::MAX,
        gif_may(reader, start, cap, size),
    ensures
        may_fetch(reader, start, 13, got),
        match got {
            None => size is None,
            Some(h) => gif_walk_may(
                reader,
                start,
                start + 13 + color_table_len(h[10]),
                start + cap,
                0,
                size,
            ),
        },
{
    choose|got: Option<Seq<u8>>| #[trigger]
        may_fetch(reader, start, 13, got) && (match got {
            None => size is None,
            Some(h) => gif_walk_may(
                reader,
                start,
                start + 13 + color_table_len(h[10]),
                start + cap,
                0,
                size,
            ),
        })
}

/// A GIF file in an image, if it has a size, has at least a header and a
/// trailer, lies within the cap and the image, and ends with the trailer.
pub proof fn gif_ends_with_its_trailer<R: ReadAt + ?Sized>(
    reader: &R,
    image: Seq<u8>,
    start: int,
    cap: int,
    n: int,
)
    requires
        reads_image(reader, image),
        0 <= start,
        gif_may(reader, start, cap, Some(n)),
    ensures
        14 <= n <= cap,
        start + n <= image.len(),
        image[start + n - 1] == 0x3B,
{
    let x = gif_head(reader, start, cap, Some(n));
    let pos = start + 13 + color_table_len(x->0[10]);
    gif_walk_end(reader, start, pos, start + cap, 0, n);
    let d = choose|d: Seq<u8>| #[trigger]
        may_fetch(reader, start + n - 1, 1, Some(d)) && d[0] == 0x3B;
    image_fetch_is_determined(reader, image, start + n - 1, 1, Some(d));
}

/// The size of a GIF file depends on its own bytes alone: the same bytes at any
/// place in any image, whatever stands before and after them, have the same
/// size.
pub proof fn gif_size_is_of_its_bytes<R: ReadAt + ?Sized, S: ReadAt + ?Sized>(
    reader: &R,
    image: Seq<u8>,
    start: int,
    other: &S,
    elsewhere: Seq<u8>,
    place: int,
    cap: int,
    n: int,
    size: Option<int>,
)
    requires
        reads_image(reader, image),
        reads_image(other, elsewhere),
        0 <= start,
        0 <= place,
        place + cap <= u64::MAX,
        place + n <= elsewhere.len(),
        gif_may(reader, start, cap, Some(n)),
        elsewhere.subrange(place, place + n) == image.subrange(start, start + n),
        gif_may(other, place, cap, size),
    ensures
        size == Some(n),
{
    gif_ends_with_its_trailer(reader, image, start, cap, n);
    let shift = place - start;
    assert(reads_alike(reader, other, start, start + n, shift)) by {
        assert forall|p: int, q: int, len: nat, a: Option<Seq<u8>>, b: Option<Seq<u8>>| #[trigger]
            may_fetch(reader, p, len, a) && #[trigger] may_fetch(other, q, len, b) && q == p + shift
                && start <= p && p + len <= start + n && a is Some implies a == b by {
            image_fetch_is_determined(reader, image, p, len, a);
            image_fetch_is_determined(other, elsewhere, q, len, b);
            let here = image.subrange(start, start + n);
            let there = elsewhere.subrange(place, place + n);
            assert(image.subrange(p, p + len) =~= here.subrange(p - start, p - start + len));
            assert(elsewhere.subrange(q, q + len) =~= there.subrange(p - start, p - start + len));
        }
    }
    gif_alike(reader, other, start, shift, cap, cap, n, size);
}

/// The size that a file states within a cap, it states within a wider one too.
pub proof fn stated_size_outlasts_the_cap<R: ReadAt + ?Sized>(
    reader: &R,
    parser: SizeParser,
    off: int,
    cap: int,
    wider: int,
    stated: int,
    b: Option<int>,
)
    requires
        steady(reader),
        cap <= wider,
        off + wider <= u64::MAX,
        stated_size_may(reader, parser, off, cap, Some(stated)),
        capped(parser, stated, cap) == (stated, false),
        stated_size_may(reader, parser, off, wider, b),
    ensures
        b == Some(stated),
{
    match parser {
        SizeParser::Gif => {
            assert(reads_alike(reader, reader, off, off + stated, 0)) by {
                assert forall|
                    p: int,
                    q: int,
                    len: nat,
                    x: Option<Seq<u8>>,
                    y: Option<Seq<u8>>,
                | #[trigger]
                    may_fetch(reader, p, len, x) && #[trigger] may_fetch(reader, q, len, y) && q
                        == p + 0 && off <= p && p + len <= off + stated && x is Some implies x
                    == y by {
                    fetch_once(reader, p, len, x, y);
                }
            }
            gif_alike(reader, reader, off, 0, cap, wider, stated, b);
        },
        SizeParser::Mp4 => {
            mp4_walk_once(reader, off, cap, wider, off, false, false, 0, Some(stated), b);
        },
        _ => {
            stated_size_once(reader, parser, off, wider, Some(stated), b);
        },
    }
}

} // verus!
