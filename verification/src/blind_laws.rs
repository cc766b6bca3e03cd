//! What becomes of places that cannot be read: no file is made up of them.

use vstd::prelude::*;

use crate::carver::{footer_end_may, stated_size_may, validation_may};
use crate::disk::{may_fetch, ReadAt};
use crate::error::IoErrorView;
use crate::signatures::{SignatureView, SizeParser, Validator};
use crate::size_laws::{gif_head, mp4_header};
use crate::sizes::{zip_type, zip_type_may};

verus! {

/// Whether no read from `from` on up to `to` succeeds.
pub open spec fn reads_nothing<R: ReadAt + ?Sized>(reader: &R, from: int, to: int) -> bool {
    forall|offset: u64, len: nat, outcome: Result<Seq<u8>, IoErrorView>| #[trigger]
        reader.may_read(offset, len, outcome) && len > 0 && from <= offset < to ==> outcome is Err
}

/// Nothing is fetched where nothing can be read.
proof fn nothing_is_fetched<R: ReadAt + ?Sized>(
    reader: &R,
    from: int,
    to: int,
    offset: int,
    len: nat,
    got: Option<Seq<u8>>,
)
    requires
        reads_nothing(reader, from, to),
        from <= offset < to,
        0 < len,
        may_fetch(reader, offset, len, got),
    ensures
        got is None,
{
}

/// A header is taken for a false positive if what follows it cannot be read; where
/// nothing is to be checked, it stands for itself.
pub proof fn unreadable_hits_are_false<R: ReadAt + ?Sized>(
    reader: &R,
    sig: SignatureView,
    off: int,
    verdict: Option<(Seq<char>, Seq<char>)>,
)
    requires
        reads_nothing(reader, off, off + 1),
        validation_may(reader, sig, off, verdict),
    ensures
        verdict is Some <==> sig.validator == Validator::Absent,
        verdict matches Some(v) ==> v.0 == sig.name && v.1 == sig.extension,
{
}

/// Nothing that cannot be read states a size.
pub proof fn unreadable_files_state_no_size<R: ReadAt + ?Sized>(
    reader: &R,
    parser: SizeParser,
    off: int,
    cap: int,
    stated: Option<int>,
)
    requires
        reads_nothing(reader, off, off + 1),
        stated_size_may(reader, parser, off, cap, stated),
    ensures
        stated is None,
{
    if parser == SizeParser::Gif && off + cap <= u64::MAX {
        let got = gif_head(reader, off, cap, stated);
        nothing_is_fetched(reader, off, off + 1, off, 13, got);
    } else if parser == SizeParser::Mp4 && off + cap <= u64::MAX {
        let got = mp4_header(reader, off, cap, off, false, false, 0, stated);
        nothing_is_fetched(reader, off, off + 1, off, 8, got);
    }
}

/// A ZIP file of which nothing can be read is a plain archive, and an end record
/// whose last bytes cannot be read ends its file without a comment.
pub proof fn unreadable_zips_are_archives<R: ReadAt + ?Sized>(
    reader: &R,
    sig: SignatureView,
    off: int,
    size: int,
    kind: Seq<char>,
    footer: Seq<u8>,
    f: int,
    end: int,
)
    requires
        0 < size,
        reads_nothing(reader, off, off + size),
        zip_type_may(reader, off, size, kind),
        sig.name == "zip"@,
        reads_nothing(reader, f + 20, f + 22),
        footer_end_may(reader, sig, footer, f, end),
    ensures
        kind == "zip"@,
        end == f + 22,
{
    let none = Seq::<u8>::empty();
    assert(none + none =~= none);
    assert(zip_type(none) == "zip"@);
}

} // verus!
