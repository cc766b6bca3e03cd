//! A GIF file in an image has the size that it has: files are put together here
//! from their parts, and the walk over them comes out at their length.

use vstd::arithmetic::power2::{lemma2_to64, pow2};
use vstd::prelude::*;

use crate::disk::{may_fetch, reads_image, ReadAt};
use crate::format_laws::{holds, read_here};
use crate::size_laws::{gif_block, gif_head, gif_image, gif_next};
use crate::sizes::{color_table_len, gif_may, gif_walk_may, sub_blocks_may, GIF_MAX_STEPS};

verus! {

/// How many colours a table has whose size is given as `n`: two, and twice as
/// many for each step.
pub open spec fn colors(n: nat) -> nat
    decreases n,
{
    if n == 0 {
        2
    } else {
        2 * colors((n - 1) as nat)
    }
}

/// Whether `table` is the colour table that the packed field `packed`
/// announces: if its highest bit is set, three bytes for each colour of a table
/// whose size its lowest three bits give; else nothing.
pub open spec fn is_table(table: Seq<u8>, packed: u8) -> bool {
    table.len() == (if packed >= 128 {
        3 * colors((packed % 8) as nat)
    } else {
        0
    })
}

/// Data in sub-blocks: each is its length and its bytes, and an empty one ends
/// them.
pub open spec fn in_sub_blocks(data: Seq<Seq<u8>>) -> Seq<u8>
    decreases data.len(),
{
    if data.len() == 0 {
        seq![0u8]
    } else {
        seq![data[0].len() as u8] + data[0] + in_sub_blocks(data.drop_first())
    }
}

/// Whether each of `data` fits in a sub-block and is not empty.
pub open spec fn fit_in_sub_blocks(data: Seq<Seq<u8>>) -> bool {
    forall|k: int| 0 <= k < data.len() ==> 1 <= (#[trigger] data[k]).len() <= 255
}

/// A block of a GIF file.
pub enum GifBlock {
    /// An extension with a label and data.
    Extension { label: u8, data: Seq<Seq<u8>> },
    /// An image: its place and size, its packed field, next its colour table and
    /// the code size of its data, and the data.
    Picture { shape: Seq<u8>, packed: u8, next: Seq<u8>, data: Seq<Seq<u8>> },
}

/// Whether a block is well formed.
pub open spec fn is_block(block: GifBlock) -> bool {
    match block {
        GifBlock::Extension { label, data } => fit_in_sub_blocks(data),
        GifBlock::Picture { shape, packed, next, data } => {
            &&& shape.len() == 8
            &&& next.len() >= 1
            &&& is_table(next.drop_last(), packed)
            &&& fit_in_sub_blocks(data)
        },
    }
}

/// The bytes of a block. An extension begins with an exclamation mark, an image
/// with a comma.
pub open spec fn block_bytes(block: GifBlock) -> Seq<u8> {
    match block {
        GifBlock::Extension { label, data } => seq![0x21u8, label] + in_sub_blocks(data),
        GifBlock::Picture { shape, packed, next, data } => seq![0x2Cu8] + shape + seq![packed]
            + next
            + in_sub_blocks(data),
    }
}

/// The bytes of blocks and of the semicolon that ends the file.
pub open spec fn blocks_bytes(blocks: Seq<GifBlock>) -> Seq<u8>
    decreases blocks.len(),
{
    if blocks.len() == 0 {
        seq![0x3Bu8]
    } else {
        block_bytes(blocks[0]) + blocks_bytes(blocks.drop_first())
    }
}

/// The bytes of a GIF file: a header, a screen with a packed field, a colour
/// table, blocks, and the end.
pub open spec fn gif_bytes(
    header: Seq<u8>,
    packed: u8,
    screen: Seq<u8>,
    table: Seq<u8>,
    blocks: Seq<GifBlock>,
) -> Seq<u8> {
    header + seq![packed] + screen + table + blocks_bytes(blocks)
}

/// A table has three bytes for each of its colours.
proof fn tables_have_their_length(table: Seq<u8>, packed: u8)
    requires
        is_table(table, packed),
    ensures
        color_table_len(packed) == table.len(),
{
    lemma2_to64();
    reveal_with_fuel(colors, 9);
    if packed >= 128 {
        let n = packed % 8;
        assert(n == 0 || n == 1 || n == 2 || n == 3 || n == 4 || n == 5 || n == 6 || n == 7);
        assert(pow2((n + 1) as nat) == colors(n as nat));
    }
}

/// What stands in an image stands there in parts.
proof fn parts_are_held(image: Seq<u8>, pos: int, a: Seq<u8>, b: Seq<u8>)
    requires
        holds(image, pos, a + b),
    ensures
        holds(image, pos, a),
        holds(image, pos + a.len(), b),
{
    let all = a + b;
    assert forall|k: int| 0 <= k < a.len() implies image[pos + k] == #[trigger] a[k] by {
        assert(all[k] == a[k]);
    }
    assert forall|k: int| 0 <= k < b.len() implies image[pos + a.len() + k] == #[trigger] b[k] by {
        assert(all[a.len() + k] == b[k]);
    }
}

/// Sub-blocks end where they end.
proof fn sub_blocks_are_walked<R: ReadAt + ?Sized>(
    reader: &R,
    image: Seq<u8>,
    pos: int,
    limit: int,
    data: Seq<Seq<u8>>,
    end: Option<int>,
)
    requires
        reads_image(reader, image),
        image.len() <= u64::MAX,
        fit_in_sub_blocks(data),
        holds(image, pos, in_sub_blocks(data)),
        pos + in_sub_blocks(data).len() <= limit,
        sub_blocks_may(reader, pos, limit, end),
    ensures
        end == Some(pos + in_sub_blocks(data).len()),
    decreases data.len(),
{
    let all = in_sub_blocks(data);
    sub_blocks_are_not_empty(data);
    let got = choose|got: Option<Seq<u8>>| #[trigger]
        may_fetch(reader, pos, 1, got) && (match got {
            None => end is None,
            Some(b) => if b[0] == 0 {
                end == Some(pos + 1)
            } else {
                sub_blocks_may(reader, pos + 1 + b[0], limit, end)
            },
        });
    read_here(reader, image, pos, 1, got);
    let b = got->0;
    assert(b[0] == image[pos + 0]);
    assert(all[0] == image[pos + 0]);
    if data.len() > 0 {
        let n = data[0].len() as u8;
        assert(data[0].len() <= 255);
        let rest = data.drop_first();
        assert(all =~= (seq![n] + data[0]) + in_sub_blocks(rest));
        parts_are_held(image, pos, seq![n] + data[0], in_sub_blocks(rest));
        assert forall|k: int| 0 <= k < rest.len()
            implies 1 <= (#[trigger] rest[k]).len() <= 255 by {
            assert(rest[k] == data[k + 1]);
        }
        sub_blocks_are_walked(reader, image, pos + 1 + n, limit, rest, end);
    }
}

/// There is at least the end.
proof fn sub_blocks_are_not_empty(data: Seq<Seq<u8>>)
    ensures
        in_sub_blocks(data).len() >= 1,
    decreases data.len(),
{
    if data.len() > 0 {
        sub_blocks_are_not_empty(data.drop_first());
    }
}

/// There is at least the end.
proof fn blocks_are_not_empty(blocks: Seq<GifBlock>)
    ensures
        blocks_bytes(blocks).len() >= 1,
    decreases blocks.len(),
{
    if blocks.len() > 0 {
        blocks_are_not_empty(blocks.drop_first());
    }
}

/// A block is passed over.
proof fn block_is_passed<R: ReadAt + ?Sized>(
    reader: &R,
    image: Seq<u8>,
    start: int,
    pos: int,
    limit: int,
    steps: int,
    block: GifBlock,
    size: Option<int>,
)
    requires
        reads_image(reader, image),
        image.len() <= u64::MAX,
        is_block(block),
        holds(image, pos, block_bytes(block)),
        pos + block_bytes(block).len() <= limit,
        steps <= GIF_MAX_STEPS,
        gif_walk_may(reader, start, pos, limit, steps, size),
    ensures
        gif_walk_may(reader, start, pos + block_bytes(block).len(), limit, steps + 1, size),
{
    let all = block_bytes(block);
    match block {
        GifBlock::Extension { label, data } => {
            sub_blocks_are_not_empty(data);
            let got = gif_block(reader, start, pos, limit, steps, size);
            read_here(reader, image, pos, 1, got);
            assert(all[0] == 0x21 && image[pos + 0] == all[0]);
            assert((got->0)[0] == 0x21);
            parts_are_held(image, pos, seq![0x21u8, label], in_sub_blocks(data));
            let next = gif_next(reader, start, pos + 2, limit, steps, size);
            sub_blocks_are_walked(reader, image, pos + 2, limit, data, next);
        },
        GifBlock::Picture { shape, packed, next: table, data } => {
            let tail = in_sub_blocks(data);
            let front = seq![0x2Cu8] + shape + seq![packed] + table;
            sub_blocks_are_not_empty(data);
            let got = gif_block(reader, start, pos, limit, steps, size);
            read_here(reader, image, pos, 1, got);
            assert(all[0] == 0x2C && image[pos + 0] == all[0]);
            assert((got->0)[0] == 0x2C);
            let seen = gif_image(reader, start, pos, limit, steps, size);
            assert(all =~= front + tail);
            parts_are_held(image, pos, front, tail);
            read_here(reader, image, pos + 1, 10, seen);
            assert(front[9] == packed && image[pos + 9] == front[9]);
            let d = seen->0;
            assert(d[8] == image[pos + 1 + 8]);
            tables_have_their_length(table.drop_last(), packed);
            let blocks = pos + 11 + color_table_len(d[8]);
            assert(blocks == pos + front.len());
            let next = gif_next(reader, start, blocks, limit, steps, size);
            sub_blocks_are_walked(reader, image, blocks, limit, data, next);
        },
    }
}

/// The walk over well-formed blocks comes out at the end.
proof fn blocks_are_walked<R: ReadAt + ?Sized>(
    reader: &R,
    image: Seq<u8>,
    start: int,
    pos: int,
    limit: int,
    steps: int,
    blocks: Seq<GifBlock>,
    size: Option<int>,
)
    requires
        reads_image(reader, image),
        image.len() <= u64::MAX,
        forall|k: int| 0 <= k < blocks.len() ==> is_block(#[trigger] blocks[k]),
        holds(image, pos, blocks_bytes(blocks)),
        pos + blocks_bytes(blocks).len() <= limit,
        steps + blocks.len() <= GIF_MAX_STEPS,
        gif_walk_may(reader, start, pos, limit, steps, size),
    ensures
        size == Some(pos + blocks_bytes(blocks).len() - start),
    decreases blocks.len(),
{
    let all = blocks_bytes(blocks);
    if blocks.len() > 0 {
        let first = block_bytes(blocks[0]);
        let rest = blocks.drop_first();
        blocks_are_not_empty(rest);
        parts_are_held(image, pos, first, blocks_bytes(rest));
        assert(is_block(blocks[0]));
        block_is_passed(reader, image, start, pos, limit, steps, blocks[0], size);
        assert forall|k: int| 0 <= k < rest.len() implies is_block(#[trigger] rest[k]) by {
            assert(rest[k] == blocks[k + 1]);
        }
        blocks_are_walked(
            reader,
            image,
            start,
            pos + first.len(),
            limit,
            steps + 1,
            rest,
            size,
        );
    } else {
        let got = gif_block(reader, start, pos, limit, steps, size);
        read_here(reader, image, pos, 1, got);
        assert(all[0] == 0x3B && image[pos + 0] == all[0]);
        assert((got->0)[0] == 0x3B);
    }
}

/// A GIF file that is put together from a header, a screen descriptor, the
/// colour table that this announces, well-formed blocks, at most a million of
/// them, and the end has as its size its own length, within any cap that is not
/// less.
pub proof fn gif_size_is_its_length<R: ReadAt + ?Sized>(
    reader: &R,
    image: Seq<u8>,
    start: int,
    cap: int,
    header: Seq<u8>,
    packed: u8,
    screen: Seq<u8>,
    table: Seq<u8>,
    blocks: Seq<GifBlock>,
    size: Option<int>,
)
    requires
        reads_image(reader, image),
        image.len() <= u64::MAX,
        start + cap <= u64::MAX,
        header.len() == 10,
        screen.len() == 2,
        is_table(table, packed),
        forall|k: int| 0 <= k < blocks.len() ==> is_block(#[trigger] blocks[k]),
        blocks.len() <= 1000000,
        holds(image, start, gif_bytes(header, packed, screen, table, blocks)),
        gif_bytes(header, packed, screen, table, blocks).len() <= cap,
        gif_may(reader, start, cap, size),
    ensures
        size == Some(gif_bytes(header, packed, screen, table, blocks).len() as int),
{
    let front = header + seq![packed] + screen + table;
    let tail = blocks_bytes(blocks);
    blocks_are_not_empty(blocks);
    parts_are_held(image, start, front, tail);
    let got = gif_head(reader, start, cap, size);
    read_here(reader, image, start, 13, got);
    let h = got->0;
    assert(front[10] == packed && image[start + 10] == front[10]);
    assert(h[10] == image[start + 10]);
    tables_have_their_length(table, packed);
    blocks_are_walked(
        reader,
        image,
        start,
        start + front.len(),
        start + cap,
        0,
        blocks,
        size,
    );
}

/// Where a GIF file would have its first block stands none, nor the end, it has
/// no size.
pub proof fn gif_without_blocks_has_no_size<R: ReadAt + ?Sized>(
    reader: &R,
    image: Seq<u8>,
    start: int,
    cap: int,
    header: Seq<u8>,
    packed: u8,
    screen: Seq<u8>,
    table: Seq<u8>,
    size: Option<int>,
)
    requires
        reads_image(reader, image),
        image.len() <= u64::MAX,
        header.len() == 10,
        screen.len() == 2,
        is_table(table, packed),
        holds(image, start, header + seq![packed] + screen + table),
        ({
            let first = start + 13 + table.len();
            first < image.len() ==> image[first] != 0x21 && image[first] != 0x2C && image[first]
                != 0x3B
        }),
        gif_may(reader, start, cap, size),
    ensures
        size is None,
{
    let front = header + seq![packed] + screen + table;
    if start + cap <= u64::MAX {
        let got = gif_head(reader, start, cap, size);
        read_here(reader, image, start, 13, got);
        let h = got->0;
        assert(front[10] == packed && image[start + 10] == front[10]);
        assert(h[10] == image[start + 10]);
        tables_have_their_length(table, packed);
        let pos = start + front.len();
        if pos < start + cap {
            let first = gif_block(reader, start, pos, start + cap, 0, size);
            read_here(reader, image, pos, 1, first);
        }
    }
}

/// A table of the length that a packed field announces is its table.
proof fn tables_are_announced(table: Seq<u8>, packed: u8)
    requires
        color_table_len(packed) == table.len(),
    ensures
        is_table(table, packed),
{
    lemma2_to64();
    reveal_with_fuel(colors, 9);
    if packed >= 128 {
        let n = packed % 8;
        assert(n == 0 || n == 1 || n == 2 || n == 3 || n == 4 || n == 5 || n == 6 || n == 7);
        assert(pow2((n + 1) as nat) == colors(n as nat));
    }
}

/// What sub-blocks hold that end somewhere.
proof fn sub_blocks_hold<R: ReadAt + ?Sized>(
    reader: &R,
    image: Seq<u8>,
    pos: int,
    limit: int,
    end: int,
) -> (data: Seq<Seq<u8>>)
    requires
        reads_image(reader, image),
        image.len() <= u64::MAX,
        0 <= pos,
        sub_blocks_may(reader, pos, limit, Some(end)),
    ensures
        fit_in_sub_blocks(data),
        pos < end <= image.len(),
        end <= limit,
        image.subrange(pos, end) == in_sub_blocks(data),
    decreases limit - pos,
{
    let got = choose|got: Option<Seq<u8>>| #[trigger]
        may_fetch(reader, pos, 1, got) && (match got {
            None => false,
            Some(b) => if b[0] == 0 {
                end == pos + 1
            } else {
                sub_blocks_may(reader, pos + 1 + b[0], limit, Some(end))
            },
        });
    read_here(reader, image, pos, 1, got);
    let n = got->0[0];
    assert(n == image[pos]);
    if n == 0 {
        let data = Seq::<Seq<u8>>::empty();
        assert(image.subrange(pos, end) =~= in_sub_blocks(data));
        data
    } else {
        let rest = sub_blocks_hold(reader, image, pos + 1 + n, limit, end);
        let first = image.subrange(pos + 1, pos + 1 + n);
        let data = seq![first] + rest;
        assert(data.drop_first() =~= rest);
        assert(data[0] == first);
        assert(first.len() as u8 == n);
        assert forall|k: int| 0 <= k < data.len()
            implies 1 <= (#[trigger] data[k]).len() <= 255 by {
            if k > 0 {
                assert(data[k] == rest[k - 1]);
            }
        }
        assert(image.subrange(pos, end) =~= seq![n] + first + in_sub_blocks(rest));
        data
    }
}

/// What blocks a walk has passed over that ends with a trailer.
proof fn walked_blocks<R: ReadAt + ?Sized>(
    reader: &R,
    image: Seq<u8>,
    start: int,
    pos: int,
    limit: int,
    steps: int,
    n: int,
) -> (blocks: Seq<GifBlock>)
    requires
        reads_image(reader, image),
        image.len() <= u64::MAX,
        0 <= pos,
        0 <= steps,
        gif_walk_may(reader, start, pos, limit, steps, Some(n)),
    ensures
        forall|k: int| 0 <= k < blocks.len() ==> is_block(#[trigger] blocks[k]),
        steps + blocks.len() <= GIF_MAX_STEPS,
        pos < start + n <= image.len(),
        start + n <= limit,
        image.subrange(pos, start + n) == blocks_bytes(blocks),
    decreases GIF_MAX_STEPS + 1 - steps,
{
    let got = gif_block(reader, start, pos, limit, steps, Some(n));
    read_here(reader, image, pos, 1, got);
    assert(got->0[0] == image[pos]);
    if image[pos] == 0x3B {
        let blocks = Seq::<GifBlock>::empty();
        assert(image.subrange(pos, start + n) =~= blocks_bytes(blocks));
        blocks
    } else {
        let (from, block, end) = if image[pos] == 0x21 {
            let next = gif_next(reader, start, pos + 2, limit, steps, Some(n));
            let end = next->0;
            let data = sub_blocks_hold(reader, image, pos + 2, limit, end);
            let block = GifBlock::Extension { label: image[pos + 1], data };
            assert(image.subrange(pos, end) =~= block_bytes(block)) by {
                assert(image.subrange(pos, end) =~= seq![0x21u8, image[pos + 1]]
                    + image.subrange(pos + 2, end));
            }
            (pos + 2, block, end)
        } else {
            let descriptor = gif_image(reader, start, pos, limit, steps, Some(n));
            read_here(reader, image, pos + 1, 10, descriptor);
            let packed = descriptor->0[8];
            assert(packed == image[pos + 9]);
            let from = pos + 11 + color_table_len(packed);
            let next = gif_next(reader, start, from, limit, steps, Some(n));
            let end = next->0;
            let data = sub_blocks_hold(reader, image, from, limit, end);
            let shape = image.subrange(pos + 1, pos + 9);
            let after = image.subrange(pos + 10, from);
            tables_are_announced(after.drop_last(), packed);
            let block = GifBlock::Picture { shape, packed, next: after, data };
            assert(image.subrange(pos, end) =~= block_bytes(block)) by {
                assert(image.subrange(pos, end) =~= seq![0x2Cu8] + shape + seq![packed] + after
                    + image.subrange(from, end));
            }
            (from, block, end)
        };
        let rest = walked_blocks(reader, image, start, end, limit, steps + 1, n);
        let blocks = seq![block] + rest;
        assert(blocks.drop_first() =~= rest);
        assert(image.subrange(pos, start + n) =~= image.subrange(pos, end) + image.subrange(
            end,
            start + n,
        ));
        assert forall|k: int| 0 <= k < blocks.len() implies is_block(#[trigger] blocks[k]) by {
            if k > 0 {
                assert(blocks[k] == rest[k - 1]);
            }
        }
        blocks
    }
}

/// What a GIF file is put together from.
pub struct GifParts {
    pub header: Seq<u8>,
    pub packed: u8,
    pub screen: Seq<u8>,
    pub table: Seq<u8>,
    pub blocks: Seq<GifBlock>,
}

/// What has a size as a GIF file is put together like one: nothing else has.
pub proof fn sized_gifs_are_put_together<R: ReadAt + ?Sized>(
    reader: &R,
    image: Seq<u8>,
    start: int,
    cap: int,
    n: int,
) -> (parts: GifParts)
    requires
        reads_image(reader, image),
        image.len() <= u64::MAX,
        0 <= start,
        start + cap <= u64::MAX,
        gif_may(reader, start, cap, Some(n)),
    ensures
        parts.header.len() == 10,
        parts.screen.len() == 2,
        is_table(parts.table, parts.packed),
        forall|k: int| 0 <= k < parts.blocks.len() ==> is_block(#[trigger] parts.blocks[k]),
        parts.blocks.len() <= 1000000,
        n <= cap,
        start + n <= image.len(),
        image.subrange(start, start + n) == gif_bytes(
            parts.header,
            parts.packed,
            parts.screen,
            parts.table,
            parts.blocks,
        ),
{
    let got = gif_head(reader, start, cap, Some(n));
    read_here(reader, image, start, 13, got);
    let packed = got->0[10];
    assert(packed == image[start + 10]);
    let first = start + 13 + color_table_len(packed);
    let blocks = walked_blocks(reader, image, start, first, start + cap, 0, n);
    let header = image.subrange(start, start + 10);
    let screen = image.subrange(start + 11, start + 13);
    let table = image.subrange(start + 13, first);
    tables_are_announced(table, packed);
    assert(image.subrange(start, start + n) =~= header + seq![packed] + screen + table
        + image.subrange(first, start + n));
    GifParts { header, packed, screen, table, blocks }
}

} // verus!
