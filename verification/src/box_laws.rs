//! What size the boxes of an MP4 or MOV file in an image give it.

use vstd::prelude::*;

use crate::bytes::{be32_at, be64_at, big};
use crate::disk::{may_fetch, reads_image, ReadAt};
use crate::format_laws::{brand_number, brand_stands, number_here, read_here, spells};
use crate::size_laws::{mp4_header, mp4_header_may};
use crate::sizes::{
    mp4_box_may, mp4_may, mp4_total, mp4_walk_may, printable_tag, MP4_MAX_BOXES, TAG_MDAT, TAG_MOOV,
};

verus! {

/// Whether the header of a box stands in an image at `pos`: a size of four
/// bytes and a type of four printable characters.
pub open spec fn is_box_header(image: Seq<u8>, pos: int) -> bool {
    &&& 0 <= pos
    &&& pos + 8 <= image.len()
    &&& forall|k: int| 4 <= k < 8 ==> 32 <= #[trigger] image[pos + k] <= 126
}

/// Whether a box of `size` bytes stands in an image at `pos`. Its size stands in
/// its header, or, where 1 stands there, in the eight bytes after the header. It
/// is at least that of these fields.
pub open spec fn is_box(image: Seq<u8>, pos: int, size: int) -> bool {
    &&& is_box_header(image, pos)
    &&& {
        ||| big(image, pos, 4) == size && 8 <= size
        ||| big(image, pos, 4) == 1 && pos + 16 <= image.len() && big(image, pos + 8, 8) == size
            && 16 <= size
    }
}

/// Whether the box at `pos` holds media data or describes a movie.
pub open spec fn is_media(image: Seq<u8>, pos: int) -> bool {
    spells(image, pos + 4, "mdat"@) || spells(image, pos + 4, "moov"@)
}

/// Whether boxes of the sizes `sizes` stand in an image one after the other,
/// from `pos` on.
pub open spec fn is_chain(image: Seq<u8>, pos: int, sizes: Seq<int>) -> bool
    decreases sizes.len(),
{
    sizes.len() == 0 || (is_box(image, pos, sizes[0]) && is_chain(
        image,
        pos + sizes[0],
        sizes.drop_first(),
    ))
}

/// Whether one of the boxes is a media box.
pub open spec fn has_media(image: Seq<u8>, pos: int, sizes: Seq<int>) -> bool
    decreases sizes.len(),
{
    sizes.len() > 0 && (is_media(image, pos) || has_media(
        image,
        pos + sizes[0],
        sizes.drop_first(),
    ))
}

/// How large boxes are together.
pub open spec fn sum(sizes: Seq<int>) -> int
    decreases sizes.len(),
{
    if sizes.len() == 0 {
        0
    } else {
        sizes[0] + sum(sizes.drop_first())
    }
}

/// Whether no box follows at `pos`: nothing stands there that could be a
/// header, or the size in it is less than that of a header, or the eight bytes
/// that should give it are missing or give less than that of a header with them.
pub open spec fn no_box(image: Seq<u8>, pos: int) -> bool {
    ||| !is_box_header(image, pos)
    ||| 2 <= big(image, pos, 4) < 8
    ||| big(image, pos, 4) == 1 && (pos + 16 > image.len() || 1 <= big(image, pos + 8, 8) < 16)
}

/// The letters of media boxes make the numbers of their types.
proof fn media_types(image: Seq<u8>, pos: int)
    requires
        0 <= pos,
        pos + 8 <= image.len(),
    ensures
        is_media(image, pos) <==> big(image, pos + 4, 4) == TAG_MDAT || big(image, pos + 4, 4)
            == TAG_MOOV,
{
    reveal_strlit("mdat");
    reveal_strlit("moov");
    brand_stands(image, pos + 4, "mdat"@);
    brand_stands(image, pos + 4, "moov"@);
    assert(brand_number("mdat"@) == TAG_MDAT);
    assert(brand_number("moov"@) == TAG_MOOV);
}

/// What is read where a box header may stand.
proof fn header_read<R: ReadAt + ?Sized>(
    reader: &R,
    image: Seq<u8>,
    pos: int,
    got: Option<Seq<u8>>,
)
    requires
        reads_image(reader, image),
        image.len() <= u64::MAX,
        0 <= pos,
        may_fetch(reader, pos, 8, got),
    ensures
        got is Some <==> pos + 8 <= image.len(),
        got matches Some(h) ==> {
            &&& be32_at(h, 0) == big(image, pos, 4)
            &&& be32_at(h, 4) == big(image, pos + 4, 4)
            &&& printable_tag(h, 4) <==> is_box_header(image, pos)
        },
{
    read_here(reader, image, pos, 8, got);
    if let Some(h) = got {
        number_here(image, pos, h, 0, 4);
        number_here(image, pos, h, 4, 4);
        if printable_tag(h, 4) {
            assert forall|k: int| 4 <= k < 8 implies 32 <= #[trigger] image[pos + k] <= 126 by {
                assert(h[k] == image[pos + k]);
            }
        }
        if is_box_header(image, pos) {
            assert forall|k: int| 4 <= k < 8 implies 0x20 <= #[trigger] h[k] <= 0x7E by {
                assert(h[k] == image[pos + k]);
            }
        }
    }
}

/// The step of the walk at a box whose size stands after its header.
proof fn at_a_wide_box<R: ReadAt + ?Sized>(
    reader: &R,
    image: Seq<u8>,
    start: int,
    cap: int,
    pos: int,
    mdat: bool,
    moov: bool,
    count: int,
    result: Option<int>,
)
    requires
        reads_image(reader, image),
        image.len() <= u64::MAX,
        count < MP4_MAX_BOXES,
        is_box_header(image, pos),
        big(image, pos, 4) == 1,
        mp4_walk_may(reader, start, cap, pos, mdat, moov, count, result),
    ensures
        pos + 16 > image.len() ==> result == mp4_total(start, pos, mdat, moov),
        pos + 16 <= image.len() ==> mp4_box_may(
            reader,
            start,
            cap,
            pos,
            mdat,
            moov,
            count,
            big(image, pos + 8, 8),
            16,
            big(image, pos + 4, 4),
            result,
        ),
{
    let got = mp4_header(reader, start, cap, pos, mdat, moov, count, result);
    header_read(reader, image, pos, got);
    let h = got->0;
    assert(mp4_header_may(reader, start, cap, pos, mdat, moov, count, h, result));
    let wide = choose|wide: Option<Seq<u8>>| #[trigger]
        may_fetch(reader, pos + 8, 8, wide) && (match wide {
            None => result == mp4_total(start, pos, mdat, moov),
            Some(w) => mp4_box_may(
                reader,
                start,
                cap,
                pos,
                mdat,
                moov,
                count,
                be64_at(w, 0),
                16,
                be32_at(h, 4),
                result,
            ),
        });
    read_here(reader, image, pos + 8, 8, wide);
    if let Some(w) = wide {
        number_here(image, pos + 8, w, 0, 8);
    }
}

/// The step of the walk at a box of `size` bytes.
proof fn at_a_box<R: ReadAt + ?Sized>(
    reader: &R,
    image: Seq<u8>,
    start: int,
    cap: int,
    pos: int,
    mdat: bool,
    moov: bool,
    count: int,
    size: int,
    result: Option<int>,
) -> (header_len: int)
    requires
        reads_image(reader, image),
        image.len() <= u64::MAX,
        count < MP4_MAX_BOXES,
        is_box(image, pos, size),
        mp4_walk_may(reader, start, cap, pos, mdat, moov, count, result),
    ensures
        0 < header_len <= size,
        mp4_box_may(
            reader,
            start,
            cap,
            pos,
            mdat,
            moov,
            count,
            size,
            header_len,
            big(image, pos + 4, 4),
            result,
        ),
{
    let got = mp4_header(reader, start, cap, pos, mdat, moov, count, result);
    header_read(reader, image, pos, got);
    let h = got->0;
    assert(mp4_header_may(reader, start, cap, pos, mdat, moov, count, h, result));
    if big(image, pos, 4) == 1 {
        at_a_wide_box(reader, image, start, cap, pos, mdat, moov, count, result);
        16
    } else {
        8
    }
}

/// The walk over a chain of boxes that ends before the cap.
proof fn chain_is_walked<R: ReadAt + ?Sized>(
    reader: &R,
    image: Seq<u8>,
    start: int,
    cap: int,
    pos: int,
    sizes: Seq<int>,
    mdat: bool,
    moov: bool,
    count: int,
    result: Option<int>,
)
    requires
        reads_image(reader, image),
        image.len() <= u64::MAX,
        0 <= start <= pos,
        0 <= count,
        count + sizes.len() <= MP4_MAX_BOXES,
        is_chain(image, pos, sizes),
        pos + sum(sizes) < start + cap,
        count + sizes.len() == MP4_MAX_BOXES || no_box(image, pos + sum(sizes)),
        mp4_walk_may(reader, start, cap, pos, mdat, moov, count, result),
    ensures
        result == (if pos + sum(sizes) - start >= 8 && (mdat || moov || has_media(
            image,
            pos,
            sizes,
        )) {
            Some(pos + sum(sizes) - start)
        } else {
            None
        }),
    decreases sizes.len(),
{
    if sizes.len() > 0 {
        let n = sizes[0];
        let rest = sizes.drop_first();
        sums_are_not_negative(image, pos + n, rest);
        let len = at_a_box(reader, image, start, cap, pos, mdat, moov, count, n, result);
        media_types(image, pos);
        let tag = big(image, pos + 4, 4);
        chain_is_walked(
            reader,
            image,
            start,
            cap,
            pos + n,
            rest,
            mdat || tag == TAG_MDAT,
            moov || tag == TAG_MOOV,
            count + 1,
            result,
        );
    } else if count < MP4_MAX_BOXES && is_box_header(image, pos) && big(image, pos, 4) == 1 {
        at_a_wide_box(reader, image, start, cap, pos, mdat, moov, count, result);
    } else if count < MP4_MAX_BOXES {
        let got = mp4_header(reader, start, cap, pos, mdat, moov, count, result);
        header_read(reader, image, pos, got);
        if let Some(h) = got {
            assert(mp4_header_may(reader, start, cap, pos, mdat, moov, count, h, result));
        }
    }
}

/// Boxes are not smaller than nothing.
proof fn sums_are_not_negative(image: Seq<u8>, pos: int, sizes: Seq<int>)
    requires
        is_chain(image, pos, sizes),
    ensures
        sum(sizes) >= 8 * sizes.len(),
    decreases sizes.len(),
{
    if sizes.len() > 0 {
        sums_are_not_negative(image, pos + sizes[0], sizes.drop_first());
    }
}

/// A file that is a chain of boxes, of which at least one holds media data or
/// describes a movie, has the size of its boxes together. Without such a box it
/// has none. The chain ends where no box follows, or after 4096 boxes, and does
/// not reach the cap.
pub proof fn mp4_size_is_of_its_boxes<R: ReadAt + ?Sized>(
    reader: &R,
    image: Seq<u8>,
    start: int,
    cap: int,
    sizes: Seq<int>,
    result: Option<int>,
)
    requires
        reads_image(reader, image),
        image.len() <= u64::MAX,
        0 <= start,
        start + cap <= u64::MAX,
        is_chain(image, start, sizes),
        sum(sizes) < cap,
        sizes.len() == 4096 || (sizes.len() < 4096 && no_box(image, start + sum(sizes))),
        mp4_may(reader, start, cap, result),
    ensures
        result == (if has_media(image, start, sizes) {
            Some(sum(sizes))
        } else {
            None
        }),
{
    sums_are_not_negative(image, start, sizes);
    chain_is_walked(reader, image, start, cap, start, sizes, false, false, 0, result);
}

/// The walk over a chain of boxes whose last one runs up to the cap.
proof fn open_chain_is_walked<R: ReadAt + ?Sized>(
    reader: &R,
    image: Seq<u8>,
    start: int,
    cap: int,
    pos: int,
    sizes: Seq<int>,
    mdat: bool,
    moov: bool,
    count: int,
    result: Option<int>,
)
    requires
        reads_image(reader, image),
        image.len() <= u64::MAX,
        0 <= start <= pos,
        0 <= count,
        count + sizes.len() < MP4_MAX_BOXES,
        is_chain(image, pos, sizes),
        pos + sum(sizes) < start + cap,
        runs_on(image, pos + sum(sizes), start + cap),
        mp4_walk_may(reader, start, cap, pos, mdat, moov, count, result),
    ensures
        result == (if mdat || moov || has_media(image, pos, sizes) || is_media(
            image,
            pos + sum(sizes),
        ) {
            Some(cap)
        } else {
            None
        }),
    decreases sizes.len(),
{
    if sizes.len() > 0 {
        let n = sizes[0];
        let rest = sizes.drop_first();
        sums_are_not_negative(image, pos + n, rest);
        let len = at_a_box(reader, image, start, cap, pos, mdat, moov, count, n, result);
        media_types(image, pos);
        let tag = big(image, pos + 4, 4);
        open_chain_is_walked(
            reader,
            image,
            start,
            cap,
            pos + n,
            rest,
            mdat || tag == TAG_MDAT,
            moov || tag == TAG_MOOV,
            count + 1,
            result,
        );
    } else {
        media_types(image, pos);
        if big(image, pos, 4) == 0 {
            let got = mp4_header(reader, start, cap, pos, mdat, moov, count, result);
            header_read(reader, image, pos, got);
            assert(mp4_header_may(reader, start, cap, pos, mdat, moov, count, got->0, result));
        } else if big(image, pos, 4) == 1 && pos + 16 <= image.len() && big(image, pos + 8, 8)
            == 0 {
            at_a_wide_box(reader, image, start, cap, pos, mdat, moov, count, result);
        } else {
            let n = choose|n: int| #[trigger] is_box(image, pos, n) && pos + n >= start + cap;
            let len = at_a_box(reader, image, start, cap, pos, mdat, moov, count, n, result);
        }
    }
}

/// Whether a box stands at `pos` that runs up to `end` or beyond: by its size,
/// or because its size is given as 0, which stands for the rest of the file.
pub open spec fn runs_on(image: Seq<u8>, pos: int, end: int) -> bool {
    ||| is_box_header(image, pos) && big(image, pos, 4) == 0
    ||| is_box_header(image, pos) && big(image, pos, 4) == 1 && pos + 16 <= image.len() && big(
        image,
        pos + 8,
        8,
    ) == 0
    ||| exists|n: int| #[trigger] is_box(image, pos, n) && pos + n >= end
}

/// A file that is a chain of boxes of which the last runs up to the cap or
/// beyond is as large as the cap, if one of the boxes, that one included, holds
/// media data or describes a movie; else it has no size.
pub proof fn mp4_that_reaches_the_cap<R: ReadAt + ?Sized>(
    reader: &R,
    image: Seq<u8>,
    start: int,
    cap: int,
    sizes: Seq<int>,
    result: Option<int>,
)
    requires
        reads_image(reader, image),
        image.len() <= u64::MAX,
        0 <= start,
        start + cap <= u64::MAX,
        sizes.len() < 4096,
        is_chain(image, start, sizes),
        sum(sizes) < cap,
        runs_on(image, start + sum(sizes), start + cap),
        mp4_may(reader, start, cap, result),
    ensures
        result == (if has_media(image, start, sizes) || is_media(image, start + sum(sizes)) {
            Some(cap)
        } else {
            None
        }),
{
    open_chain_is_walked(reader, image, start, cap, start, sizes, false, false, 0, result);
}

/// From every place on, a chain of boxes goes up to where no box follows, to one
/// that runs up to `end` or beyond, or to the last box that is walked.
proof fn chain_from(image: Seq<u8>, pos: int, end: int, left: nat) -> (sizes: Seq<int>)
    requires
        0 <= pos < end,
    ensures
        is_chain(image, pos, sizes),
        sizes.len() <= left,
        pos + sum(sizes) < end,
        sizes.len() == left || no_box(image, pos + sum(sizes)) || runs_on(
            image,
            pos + sum(sizes),
            end,
        ),
    decreases left,
{
    let none = Seq::<int>::empty();
    if left == 0 || no_box(image, pos) || runs_on(image, pos, end) {
        none
    } else {
        let n = if big(image, pos, 4) == 1 {
            big(image, pos + 8, 8)
        } else {
            big(image, pos, 4)
        };
        numbers_are_not_negative(image, pos, 4);
        numbers_are_not_negative(image, pos + 8, 8);
        assert(is_box(image, pos, n));
        let rest = chain_from(image, pos + n, end, (left - 1) as nat);
        let sizes = seq![n] + rest;
        assert(sizes.drop_first() =~= rest);
        sizes
    }
}

/// Numbers are not negative.
proof fn numbers_are_not_negative(b: Seq<u8>, at: int, n: nat)
    ensures
        big(b, at, n) >= 0,
    decreases n,
{
    if n > 0 {
        numbers_are_not_negative(b, at, (n - 1) as nat);
    }
}

/// Whatever stands in an image, the size of a movie there comes of a chain of
/// boxes, of which there are 4096 at most: it is that of the boxes together, where
/// no box follows, or the cap, where the next box runs up to the cap or beyond. In
/// either case one of the boxes holds media data or describes a movie; else there
/// is no size.
pub proof fn mp4_sizes_come_of_chains<R: ReadAt + ?Sized>(
    reader: &R,
    image: Seq<u8>,
    start: int,
    cap: int,
    result: Option<int>,
) -> (sizes: Seq<int>)
    requires
        reads_image(reader, image),
        image.len() <= u64::MAX,
        0 <= start,
        0 < cap,
        start + cap <= u64::MAX,
        mp4_may(reader, start, cap, result),
    ensures
        is_chain(image, start, sizes),
        sizes.len() <= 4096,
        sum(sizes) < cap,
        ({
            let end = start + sum(sizes);
            if sizes.len() < 4096 && runs_on(image, end, start + cap) {
                result == (if has_media(image, start, sizes) || is_media(image, end) {
                    Some(cap)
                } else {
                    None
                })
            } else {
                &&& sizes.len() == 4096 || no_box(image, end)
                &&& result == (if has_media(image, start, sizes) {
                    Some(sum(sizes))
                } else {
                    None
                })
            }
        }),
{
    let sizes = chain_from(image, start, start + cap, 4096);
    let end = start + sum(sizes);
    if sizes.len() < 4096 && runs_on(image, end, start + cap) {
        mp4_that_reaches_the_cap(reader, image, start, cap, sizes, result);
    } else {
        mp4_size_is_of_its_boxes(reader, image, start, cap, sizes, result);
    }
    sizes
}

} // verus!
