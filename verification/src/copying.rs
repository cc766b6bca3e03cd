//! Copying planned byte ranges out of the source.

use vstd::prelude::*;
use vstd::slice::slice_subrange;

use crate::carver::CarvePlan;
use crate::disk::{reads_image, ReadAt};
use crate::error::{IoError, IoErrorView};
use crate::sizes::least;

verus! {

/// How many bytes are copied at once.
pub const COPY_BUF: usize = 1048576;

/// What bytes can be written to, one piece after the other.
pub trait Sink: Sized {
    /// Whether taking `piece` may turn the sink `before` into this one. Of a
    /// sink that says nothing about itself, anything is to be expected.
    open spec fn has_taken(&self, before: Self, piece: Seq<u8>) -> bool {
        true
    }

    /// Whether the sink may refuse `piece` with the error `e`.
    open spec fn may_refuse(&self, piece: Seq<u8>, e: IoErrorView) -> bool {
        true
    }

    /// Writes `piece` to the end.
    fn take_piece(&mut self, piece: &[u8]) -> (r: Result<(), IoError>)
        ensures
            match r {
                Ok(()) => final(self).has_taken(*old(self), piece@),
                Err(e) => old(self).may_refuse(piece@, e@),
            },
    ;
}

/// A buffer takes every piece and holds them one after the other.
impl Sink for Vec<u8> {
    open spec fn has_taken(&self, before: Self, piece: Seq<u8>) -> bool {
        self@ == before@ + piece
    }

    open spec fn may_refuse(&self, piece: Seq<u8>, e: IoErrorView) -> bool {
        false
    }

    fn take_piece(&mut self, piece: &[u8]) -> (r: Result<(), IoError>) {
        self.extend_from_slice(piece);
        assert(self@ =~= old(self)@ + piece@);
        Ok(())
    }
}

/// Whether a read of `n` bytes at `offset` may give `piece`.
pub open spec fn piece_may<R: ReadAt + ?Sized>(
    reader: &R,
    offset: int,
    n: int,
    piece: Seq<u8>,
) -> bool {
    piece.len() == n && reader.may_read(offset as u64, n as nat, Ok(piece))
}

/// Whether copying `len` bytes from `offset` on to the sink `before` may leave
/// the sink `after`, with the error that ended it early if there is one. The
/// range is read once and in order, in pieces of [`COPY_BUF`] bytes and a last
/// one for the rest, and each piece is handed to the sink once, before the next
/// is read. The first read that fails, or the first piece that the sink refuses,
/// ends it; a read that fails leaves the sink as it is.
pub open spec fn copy_may<R: ReadAt + ?Sized, W: Sink>(
    reader: &R,
    before: W,
    offset: int,
    len: int,
    after: W,
    failed: Option<IoError>,
) -> bool
    decreases len,
{
    if len <= 0 {
        after == before && failed is None
    } else {
        let n = least(len, COPY_BUF as int);
        ||| read_failed(reader, before, offset, n, after, failed)
        ||| exists|piece: Seq<u8>| #[trigger]
            piece_may(reader, offset, n, piece) && is_refused(before, piece, failed)
        ||| exists|piece: Seq<u8>, next: W| #[trigger]
            piece_may(reader, offset, n, piece) && #[trigger] next.has_taken(before, piece)
                && copy_may(reader, next, offset + n, len - n, after, failed)
    }
}

/// Whether a read of `n` bytes at `offset` may be what `failed`.
pub open spec fn read_failed<R: ReadAt + ?Sized, W: Sink>(
    reader: &R,
    before: W,
    offset: int,
    n: int,
    after: W,
    failed: Option<IoError>,
) -> bool {
    after == before && (failed matches Some(e) && reader.may_read(
        offset as u64,
        n as nat,
        Err(e@),
    ))
}

/// Whether the sink `before` may have refused `piece` with the error `failed`.
pub open spec fn is_refused<W: Sink>(before: W, piece: Seq<u8>, failed: Option<IoError>) -> bool {
    failed matches Some(e) && before.may_refuse(piece, e@)
}

/// Copies the range of `plan` out of the source to `out`, piece by piece.
/// Returns how many bytes were copied.
pub fn copy_range<R: ReadAt + ?Sized, W: Sink>(reader: &R, plan: &CarvePlan, out: &mut W) -> (r:
    Result<u64, IoError>)
    requires
        plan.offset + plan.size <= u64::MAX,
    ensures
        r matches Ok(n) ==> n == plan.size,
        copy_may(
            reader,
            *old(out),
            plan.offset as int,
            plan.size as int,
            *final(out),
            (match r {
                Ok(_) => None,
                Err(e) => Some(e),
            }),
        ),
{
    let mut buf: Vec<u8> = vec![0u8; COPY_BUF];
    let mut offset: u64 = plan.offset;
    let mut remaining: u64 = plan.size;
    let ghost first: W = *out;
    while remaining > 0
        invariant
            buf@.len() == COPY_BUF,
            offset + remaining == plan.offset + plan.size,
            plan.offset + plan.size <= u64::MAX,
            first == *old(out),
            forall|after: W, failed: Option<IoError>| #[trigger]
                copy_may(reader, *out, offset as int, remaining as int, after, failed) ==> copy_may(
                    reader,
                    first,
                    plan.offset as int,
                    plan.size as int,
                    after,
                    failed,
                ),
        decreases remaining,
    {
        let ghost here: W = *out;
        let n: usize = if remaining < COPY_BUF as u64 {
            remaining as usize
        } else {
            COPY_BUF
        };
        let (fresh, _) = buf.as_mut_slice().split_at_mut(n);
        let read: Result<(), IoError> = reader.read_exact_at(offset, fresh);
        let ghost bytes: Seq<u8> = fresh@;
        if let Err(e) = read {
            assert(reader.may_read(offset, n as nat, Err(e@)));
            assert(copy_may(
                reader,
                here,
                offset as int,
                remaining as int,
                here,
                Some(e),
            ));
            return Err(e);
        }
        let piece: &[u8] = slice_subrange(buf.as_slice(), 0, n);
        assert(piece@ =~= bytes);
        assert(piece_may(reader, offset as int, n as int, piece@));
        let written: Result<(), IoError> = out.take_piece(piece);
        if let Err(e) = written {
            assert(is_refused(here, piece@, Some(e)));
            assert(copy_may(
                reader,
                here,
                offset as int,
                remaining as int,
                *out,
                Some(e),
            ));
            return Err(e);
        }
        assert(out.has_taken(here, piece@));
        assert forall|after: W, failed: Option<IoError>| #[trigger]
            copy_may(
                reader,
                *out,
                offset + n,
                remaining - n,
                after,
                failed,
            ) implies copy_may(
            reader,
            first,
            plan.offset as int,
            plan.size as int,
            after,
            failed,
        ) by {
            assert(copy_may(reader, here, offset as int, remaining as int, after, failed));
        }
        offset = offset + n as u64;
        remaining = remaining - n as u64;
    }
    assert(copy_may(reader, *out, offset as int, remaining as int, *out, None));
    Ok(plan.size)
}

/// What is copied to a buffer out of a source that reads as an image is exactly
/// the range of the image that was asked for, and that never fails.
pub proof fn copies_are_exact<R: ReadAt + ?Sized>(
    reader: &R,
    image: Seq<u8>,
    before: Vec<u8>,
    offset: int,
    len: int,
    after: Vec<u8>,
    failed: Option<IoError>,
)
    requires
        reads_image(reader, image),
        0 <= offset,
        0 <= len,
        offset + len <= image.len(),
        offset + len <= u64::MAX,
        copy_may(reader, before, offset, len, after, failed),
    ensures
        failed is None,
        after@ == before@ + image.subrange(offset, offset + len),
    decreases len,
{
    if len > 0 {
        let n = least(len, COPY_BUF as int);
        let (piece, next) = choose|piece: Seq<u8>, next: Vec<u8>| #[trigger]
            piece_may(reader, offset, n, piece) && #[trigger] next.has_taken(before, piece)
                && copy_may(reader, next, offset + n, len - n, after, failed);
        copies_are_exact(reader, image, next, offset + n, len - n, after, failed);
        assert(image.subrange(offset, offset + len) =~= image.subrange(offset, offset + n)
            + image.subrange(offset + n, offset + len));
        assert(after@ =~= before@ + image.subrange(offset, offset + len));
    } else {
        assert(after@ =~= before@ + image.subrange(offset, offset + len));
    }
}

} // verus!
