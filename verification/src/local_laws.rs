//! What is said of a place rests on what stands there: sources that read alike at a
//! place have the same file there, whatever they hold elsewhere and whatever of it
//! cannot be read.

use vstd::prelude::*;

use crate::bytes::{be32_at, be64_at};
use crate::carver::{
    file_start, footer_end_may, footer_search_may, plan_may, resolved_late, size_cap, size_may,
    size_within_cap, stated_size_may, validation_may, PlanView,
};
use crate::choice_laws::{accepted_size, footer_of, stated_of, verdict_of};
use crate::disk::{may_fetch, ReadAt};
use crate::error::IoErrorView;
use crate::filter::passes;
use crate::signatures::{SignatureView, SizeParser, Validator};
use crate::size_laws::{
    gif_block, gif_head, gif_image, gif_next, mp4_header, mp4_header_may,
};
use crate::sizes::{
    color_table_len, gif_walk_may, mp4_box_may, mp4_total, mp4_walk_may, printable_tag,
    sub_blocks_may, zip_type_may, GIF_MAX_STEPS, MP4_MAX_BOXES, TAG_MDAT, TAG_MOOV,
};
use crate::steady_laws::zip_plan;
use crate::whole_laws::is_least;

verus! {

/// Whether two sources give the same answer to every read from `from` on up to
/// `to`.
pub open spec fn read_alike<R: ReadAt + ?Sized, S: ReadAt + ?Sized>(
    reader: &R,
    other: &S,
    from: int,
    to: int,
) -> bool {
    forall|
        offset: u64,
        len: nat,
        a: Result<Seq<u8>, IoErrorView>,
        b: Result<Seq<u8>, IoErrorView>,
    |
        #![trigger reader.may_read(offset, len, a), other.may_read(offset, len, b)]
        from <= offset && offset + len <= to && reader.may_read(offset, len, a) && other.may_read(
            offset,
            len,
            b,
        ) ==> a == b
}

/// The same is fetched where sources read alike.
proof fn same_is_fetched<R: ReadAt + ?Sized, S: ReadAt + ?Sized>(
    reader: &R,
    other: &S,
    from: int,
    to: int,
    offset: int,
    len: nat,
    a: Option<Seq<u8>>,
    b: Option<Seq<u8>>,
)
    requires
        read_alike(reader, other, from, to),
        0 <= from <= offset,
        offset + len <= to,
        may_fetch(reader, offset, len, a),
        may_fetch(other, offset, len, b),
    ensures
        a == b,
{
    if offset <= u64::MAX {
        match (a, b) {
            (Some(x), Some(y)) => {},
            (Some(x), None) => {
                let e = choose|e: IoErrorView| other.may_read(offset as u64, len, Err(e));
                assert(reader.may_read(offset as u64, len, Ok(x)));
            },
            (None, Some(y)) => {
                let e = choose|e: IoErrorView| reader.may_read(offset as u64, len, Err(e));
                assert(other.may_read(offset as u64, len, Ok(y)));
            },
            (None, None) => {},
        }
    }
}

/// Fetches of one place agree.
proof fn fetches_agree<R: ReadAt + ?Sized, S: ReadAt + ?Sized>(
    reader: &R,
    other: &S,
    from: int,
    to: int,
    offset: int,
    len: nat,
)
    requires
        read_alike(reader, other, from, to),
        0 <= from <= offset,
        offset + len <= to,
    ensures
        forall|a: Option<Seq<u8>>, b: Option<Seq<u8>>| #[trigger]
            may_fetch(reader, offset, len, a) && #[trigger] may_fetch(other, offset, len, b) ==> a
                == b,
{
    assert forall|a: Option<Seq<u8>>, b: Option<Seq<u8>>| #[trigger]
        may_fetch(reader, offset, len, a) && #[trigger] may_fetch(other, offset, len, b) implies a
        == b by {
        same_is_fetched(reader, other, from, to, offset, len, a, b);
    }
}

/// Whether a file is kept, and as what, rests on its first thirty bytes.
pub proof fn verdicts_rest_on_the_bytes_there<R: ReadAt + ?Sized, S: ReadAt + ?Sized>(
    reader: &R,
    other: &S,
    sig: SignatureView,
    off: int,
    v: Option<(Seq<char>, Seq<char>)>,
    w: Option<(Seq<char>, Seq<char>)>,
)
    requires
        0 <= off,
        read_alike(reader, other, off, off + 30),
        validation_may(reader, sig, off, v),
        validation_may(other, sig, off, w),
    ensures
        v == w,
{
    fetches_agree(reader, other, off, off + 30, off, 8);
    fetches_agree(reader, other, off, off + 30, off, 10);
    fetches_agree(reader, other, off, off + 30, off, 12);
    fetches_agree(reader, other, off, off + 30, off, 30);
}

/// The size that a header states rests on the first hundred bytes of the file.
pub proof fn stated_sizes_rest_on_the_bytes_there<R: ReadAt + ?Sized, S: ReadAt + ?Sized>(
    reader: &R,
    other: &S,
    parser: SizeParser,
    off: int,
    cap: int,
    a: Option<int>,
    b: Option<int>,
)
    requires
        0 <= off,
        parser != SizeParser::Gif,
        parser != SizeParser::Mp4,
        read_alike(reader, other, off, off + 100),
        stated_size_may(reader, parser, off, cap, a),
        stated_size_may(other, parser, off, cap, b),
    ensures
        a == b,
{
    fetches_agree(reader, other, off, off + 100, off, 12);
    fetches_agree(reader, other, off, off + 100, off, 26);
    fetches_agree(reader, other, off, off + 100, off, 32);
    fetches_agree(reader, other, off, off + 100, off, 100);
}

/// Where a footer ends a file rests on its first twenty-two bytes, and of what kind
/// a ZIP file is on the bytes of the file.
pub proof fn ends_and_kinds_rest_on_the_bytes_there<R: ReadAt + ?Sized, S: ReadAt + ?Sized>(
    reader: &R,
    other: &S,
    sig: SignatureView,
    footer: Seq<u8>,
    f: int,
    end: int,
    other_end: int,
    off: int,
    size: int,
    kind: Seq<char>,
    other_kind: Seq<char>,
)
    requires
        0 <= f,
        read_alike(reader, other, f, f + 22),
        footer_end_may(reader, sig, footer, f, end),
        footer_end_may(other, sig, footer, f, other_end),
        0 <= off,
        0 <= size,
        read_alike(reader, other, off, off + size),
        zip_type_may(reader, off, size, kind),
        zip_type_may(other, off, size, other_kind),
    ensures
        end == other_end,
        kind == other_kind,
{
    fetches_agree(reader, other, f, f + 22, f + 20, 2);
    kinds_agree(reader, other, off, size, off + size, kind, other_kind);
}

// ---------------------------------------------------------------------------
// Walks
// ---------------------------------------------------------------------------

/// Sub-blocks end in the same place.
proof fn sub_blocks_agree<R: ReadAt + ?Sized, S: ReadAt + ?Sized>(
    reader: &R,
    other: &S,
    from: int,
    to: int,
    pos: int,
    limit: int,
    a: Option<int>,
    b: Option<int>,
)
    requires
        read_alike(reader, other, from, to),
        0 <= from <= pos,
        limit <= to,
        sub_blocks_may(reader, pos, limit, a),
        sub_blocks_may(other, pos, limit, b),
    ensures
        a == b,
        a matches Some(end) ==> pos < end,
    decreases
            (if pos < limit {
                limit - pos
            } else {
                0
            }),
{
    if pos < limit {
        let x = choose|got: Option<Seq<u8>>| #[trigger]
            may_fetch(reader, pos, 1, got) && (match got {
                None => a is None,
                Some(d) => if d[0] == 0 {
                    a == Some(pos + 1)
                } else {
                    sub_blocks_may(reader, pos + 1 + d[0], limit, a)
                },
            });
        let y = choose|got: Option<Seq<u8>>| #[trigger]
            may_fetch(other, pos, 1, got) && (match got {
                None => b is None,
                Some(d) => if d[0] == 0 {
                    b == Some(pos + 1)
                } else {
                    sub_blocks_may(other, pos + 1 + d[0], limit, b)
                },
            });
        same_is_fetched(reader, other, from, to, pos, 1, x, y);
        if let Some(d) = x {
            if d[0] != 0 {
                sub_blocks_agree(reader, other, from, to, pos + 1 + d[0], limit, a, b);
            }
        }
    }
}

/// The walk over a GIF file ends in the same way.
proof fn gif_walks_agree<R: ReadAt + ?Sized, S: ReadAt + ?Sized>(
    reader: &R,
    other: &S,
    from: int,
    to: int,
    start: int,
    pos: int,
    limit: int,
    steps: int,
    a: Option<int>,
    b: Option<int>,
)
    requires
        read_alike(reader, other, from, to),
        0 <= from <= pos,
        limit + 100 <= to,
        gif_walk_may(reader, start, pos, limit, steps, a),
        gif_walk_may(other, start, pos, limit, steps, b),
    ensures
        a == b,
    decreases GIF_MAX_STEPS + 1 - steps,
{
    if pos < limit && steps <= GIF_MAX_STEPS {
        let x = gif_block(reader, start, pos, limit, steps, a);
        let y = gif_block(other, start, pos, limit, steps, b);
        same_is_fetched(reader, other, from, to, pos, 1, x, y);
        if let Some(d) = x {
            if d[0] == 0x21 || d[0] == 0x2C {
                let blocks = if d[0] == 0x21 {
                    pos + 2
                } else {
                    let p = gif_image(reader, start, pos, limit, steps, a);
                    let q = gif_image(other, start, pos, limit, steps, b);
                    same_is_fetched(reader, other, from, to, pos + 1, 10, p, q);
                    match p {
                        Some(e) => pos + 11 + color_table_len(e[8]),
                        None => -1,
                    }
                };
                if blocks >= 0 {
                    let u = gif_next(reader, start, blocks, limit, steps, a);
                    let v = gif_next(other, start, blocks, limit, steps, b);
                    sub_blocks_agree(reader, other, from, to, blocks, limit, u, v);
                    if let Some(next) = u {
                        gif_walks_agree(
                            reader,
                            other,
                            from,
                            to,
                            start,
                            next,
                            limit,
                            steps + 1,
                            a,
                            b,
                        );
                    }
                }
            }
        }
    }
}

/// The step of the walk over the boxes of a movie at one box.
proof fn box_steps_agree<R: ReadAt + ?Sized, S: ReadAt + ?Sized>(
    reader: &R,
    other: &S,
    from: int,
    to: int,
    start: int,
    cap: int,
    pos: int,
    mdat: bool,
    moov: bool,
    count: int,
    box_size: int,
    header_len: int,
    tag: int,
    a: Option<int>,
    b: Option<int>,
)
    requires
        read_alike(reader, other, from, to),
        0 <= from <= pos,
        start + cap + 100 <= to,
        0 <= count < MP4_MAX_BOXES,
        0 < header_len,
        mp4_box_may(
            reader,
            start,
            cap,
            pos,
            mdat,
            moov,
            count,
            box_size,
            header_len,
            tag,
            a,
        ),
        mp4_box_may(other, start, cap, pos, mdat, moov, count, box_size, header_len, tag, b),
    ensures
        a == b,
    decreases MP4_MAX_BOXES - count, 0int,
{
    if box_size != 0 && box_size >= header_len && pos + box_size < start + cap {
        box_walks_agree(
            reader,
            other,
            from,
            to,
            start,
            cap,
            pos + box_size,
            mdat || tag == TAG_MDAT,
            moov || tag == TAG_MOOV,
            count + 1,
            a,
            b,
        );
    }
}

/// The walk over the boxes of a movie ends in the same way.
proof fn box_walks_agree<R: ReadAt + ?Sized, S: ReadAt + ?Sized>(
    reader: &R,
    other: &S,
    from: int,
    to: int,
    start: int,
    cap: int,
    pos: int,
    mdat: bool,
    moov: bool,
    count: int,
    a: Option<int>,
    b: Option<int>,
)
    requires
        read_alike(reader, other, from, to),
        0 <= from <= pos,
        pos + 100 <= to,
        start + cap + 100 <= to,
        0 <= count,
        mp4_walk_may(reader, start, cap, pos, mdat, moov, count, a),
        mp4_walk_may(other, start, cap, pos, mdat, moov, count, b),
    ensures
        a == b,
    decreases MP4_MAX_BOXES - count, 1int,
{
    if count < MP4_MAX_BOXES {
        let x = mp4_header(reader, start, cap, pos, mdat, moov, count, a);
        let y = mp4_header(other, start, cap, pos, mdat, moov, count, b);
        same_is_fetched(reader, other, from, to, pos, 8, x, y);
        if let Some(h) = x {
            assert(mp4_header_may(reader, start, cap, pos, mdat, moov, count, h, a));
            assert(mp4_header_may(other, start, cap, pos, mdat, moov, count, h, b));
            let tag = be32_at(h, 4);
            if printable_tag(h, 4) && be32_at(h, 0) == 1 {
                let u = choose|wide: Option<Seq<u8>>| #[trigger]
                    may_fetch(reader, pos + 8, 8, wide) && (match wide {
                        None => a == mp4_total(start, pos, mdat, moov),
                        Some(w) => mp4_box_may(
                            reader,
                            start,
                            cap,
                            pos,
                            mdat,
                            moov,
                            count,
                            be64_at(w, 0),
                            16,
                            tag,
                            a,
                        ),
                    });
                let v = choose|wide: Option<Seq<u8>>| #[trigger]
                    may_fetch(other, pos + 8, 8, wide) && (match wide {
                        None => b == mp4_total(start, pos, mdat, moov),
                        Some(w) => mp4_box_may(
                            other,
                            start,
                            cap,
                            pos,
                            mdat,
                            moov,
                            count,
                            be64_at(w, 0),
                            16,
                            tag,
                            b,
                        ),
                    });
                same_is_fetched(reader, other, from, to, pos + 8, 8, u, v);
                if let Some(w) = u {
                    box_steps_agree(
                        reader,
                        other,
                        from,
                        to,
                        start,
                        cap,
                        pos,
                        mdat,
                        moov,
                        count,
                        be64_at(w, 0),
                        16,
                        tag,
                        a,
                        b,
                    );
                }
            } else if printable_tag(h, 4) {
                box_steps_agree(
                    reader,
                    other,
                    from,
                    to,
                    start,
                    cap,
                    pos,
                    mdat,
                    moov,
                    count,
                    be32_at(h, 0),
                    8,
                    tag,
                    a,
                    b,
                );
            }
        }
    }
}

/// The size that a file states rests on its own bytes, up to the cap, and a hundred
/// more.
proof fn stated_sizes_agree<R: ReadAt + ?Sized, S: ReadAt + ?Sized>(
    reader: &R,
    other: &S,
    parser: SizeParser,
    off: int,
    cap: int,
    a: Option<int>,
    b: Option<int>,
)
    requires
        0 <= off,
        0 <= cap,
        read_alike(reader, other, off, off + cap + 100),
        stated_size_may(reader, parser, off, cap, a),
        stated_size_may(other, parser, off, cap, b),
    ensures
        a == b,
{
    let to = off + cap + 100;
    if parser == SizeParser::Gif {
        if off + cap <= u64::MAX {
            let x = gif_head(reader, off, cap, a);
            let y = gif_head(other, off, cap, b);
            same_is_fetched(reader, other, off, to, off, 13, x, y);
            if let Some(h) = x {
                let first = off + 13 + color_table_len(h[10]);
                gif_walks_agree(reader, other, off, to, off, first, off + cap, 0, a, b);
            }
        }
    } else if parser == SizeParser::Mp4 {
        if off + cap <= u64::MAX {
            box_walks_agree(reader, other, off, to, off, cap, off, false, false, 0, a, b);
        }
    } else {
        assert(read_alike(reader, other, off, off + 100));
        stated_sizes_rest_on_the_bytes_there(reader, other, parser, off, cap, a, b);
    }
}

/// The search for a footer ends in the same place.
proof fn searches_agree<R: ReadAt + ?Sized, S: ReadAt + ?Sized>(
    reader: &R,
    other: &S,
    sig: SignatureView,
    footer: Seq<u8>,
    footers: Seq<u64>,
    k: int,
    off: int,
    cap: int,
    a: Option<int>,
    b: Option<int>,
)
    requires
        0 <= off,
        0 <= k,
        read_alike(reader, other, off, off + cap + 100),
        footer_search_may(reader, sig, footer, footers, k, off, cap, a),
        footer_search_may(other, sig, footer, footers, k, off, cap, b),
    ensures
        a == b,
    decreases footers.len() - k,
{
    if k < footers.len() && footers[k] <= off {
        searches_agree(reader, other, sig, footer, footers, k + 1, off, cap, a, b);
    } else if k < footers.len() && footers[k] - off <= cap {
        let f = footers[k] as int;
        let x = choose|e: int| #[trigger]
            footer_end_may(reader, sig, footer, f, e) && (if sig.min_size <= e - off <= cap {
                a == Some(e)
            } else {
                footer_search_may(reader, sig, footer, footers, k + 1, off, cap, a)
            });
        let y = choose|e: int| #[trigger]
            footer_end_may(other, sig, footer, f, e) && (if sig.min_size <= e - off <= cap {
                b == Some(e)
            } else {
                footer_search_may(other, sig, footer, footers, k + 1, off, cap, b)
            });
        fetches_agree(reader, other, off, off + cap + 100, f + 20, 2);
        assert(x == y);
        if !(sig.min_size <= x - off <= cap) {
            searches_agree(reader, other, sig, footer, footers, k + 1, off, cap, a, b);
        }
    }
}

/// A file is given the same size.
proof fn sizes_agree<R: ReadAt + ?Sized, S: ReadAt + ?Sized>(
    reader: &R,
    other: &S,
    sig: SignatureView,
    footers: Seq<u64>,
    off: int,
    cap: int,
    a: Option<(int, bool)>,
    b: Option<(int, bool)>,
)
    requires
        0 <= off,
        0 <= cap,
        read_alike(reader, other, off, off + cap + 100),
        size_may(reader, sig, footers, off, cap, a),
        size_may(other, sig, footers, off, cap, b),
    ensures
        a == b,
{
    let x = stated_of(reader, sig, footers, off, cap, a);
    let y = stated_of(other, sig, footers, off, cap, b);
    stated_sizes_agree(reader, other, sig.parser, off, cap, x, y);
    if x is None && a is Some && sig.footer is Some {
        let u = footer_of(reader, sig, footers, off, cap, a->0);
        let v = footer_of(other, sig, footers, off, cap, b->0);
        searches_agree(reader, other, sig, sig.footer->0, footers, 0, off, cap, u, v);
    }
}

/// What a hit leads to rests on the bytes of its file, up to the least of its
/// bounds, and a hundred more: two sources that read alike there, with the same
/// footers found, lead to the same plan. So damage elsewhere in a source changes
/// nothing about a file.
pub proof fn plans_rest_on_the_bytes_there<R: ReadAt + ?Sized, S: ReadAt + ?Sized>(
    reader: &R,
    other: &S,
    disk_size: int,
    hit: int,
    sig: SignatureView,
    footers: Seq<u64>,
    max_size: int,
    filter: Option<Set<Seq<char>>>,
    off: int,
    cap: int,
    a: Option<PlanView>,
    b: Option<PlanView>,
)
    requires
        0 <= hit,
        0 <= sig.min_size,
        off == (if sig.validator == Validator::Ftyp {
            hit - 4
        } else {
            hit
        }),
        is_least(cap, sig.max_size, max_size, disk_size - off),
        read_alike(reader, other, off, off + cap + 100),
        plan_may(reader, disk_size, hit, sig, footers, max_size, filter, a),
        plan_may(other, disk_size, hit, sig, footers, max_size, filter, b),
    ensures
        a == b,
{
    assert(cap == size_cap(sig, max_size, disk_size, off));
    if file_start(sig, hit) is Some && (resolved_late(sig) || passes(filter, sig.name)) && off
        <= disk_size && cap >= sig.min_size {
        let v = verdict_of(reader, disk_size, hit, sig, footers, max_size, filter, a, off);
        let w = verdict_of(other, disk_size, hit, sig, footers, max_size, filter, b, off);
        assert(read_alike(reader, other, off, off + 30));
        verdicts_rest_on_the_bytes_there(reader, other, sig, off, v, w);
        if let Some((name, extension)) = v {
            if !(sig.name == "ftyp"@ && !passes(filter, name)) {
                let x = accepted_size(
                    reader,
                    sig,
                    footers,
                    filter,
                    off,
                    cap,
                    name,
                    extension,
                    a,
                );
                let y = accepted_size(other, sig, footers, filter, off, cap, name, extension, b);
                sizes_agree(reader, other, sig, footers, off, cap, x, y);
                if let Some(z) = x {
                    size_within_cap(reader, sig, footers, off, cap, x);
                    if z.0 >= sig.min_size && sig.name == "zip"@ {
                        let k = choose|kind: Seq<char>| #[trigger]
                            zip_type_may(reader, off, z.0, kind) && a == zip_plan(
                                filter,
                                off,
                                z,
                                kind,
                            );
                        let l = choose|kind: Seq<char>| #[trigger]
                            zip_type_may(other, off, z.0, kind) && b == zip_plan(
                                filter,
                                off,
                                z,
                                kind,
                            );
                        kinds_agree(reader, other, off, z.0, off + cap + 100, k, l);
                    }
                }
            }
        }
    }
}

/// A ZIP file is of the same kind.
proof fn kinds_agree<R: ReadAt + ?Sized, S: ReadAt + ?Sized>(
    reader: &R,
    other: &S,
    off: int,
    size: int,
    to: int,
    kind: Seq<char>,
    other_kind: Seq<char>,
)
    requires
        0 <= off,
        0 <= size,
        off + size <= to,
        read_alike(reader, other, off, to),
        zip_type_may(reader, off, size, kind),
        zip_type_may(other, off, size, other_kind),
    ensures
        kind == other_kind,
{
    let head = if size <= 4096 {
        size
    } else {
        4096
    };
    let tail = if size <= 65536 {
        size
    } else {
        65536
    };
    fetches_agree(reader, other, off, to, off, head as nat);
    fetches_agree(reader, other, off, to, off + size - tail, tail as nat);
}

} // verus!
