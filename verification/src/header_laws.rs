//! What sizes the headers of files in an image give, and what types the
//! contents of ZIP files.

use vstd::arithmetic::power2::{lemma2_to64, pow2};
use vstd::prelude::*;

use crate::bytes::{big, little, occurs, occurs_at};
use crate::disk::{may_fetch, reads_image, ReadAt};
use crate::format_laws::{number_here, read_here, spells};
use crate::sizes::{
    bmp_may, bmp_size, bytes_or_none, content_types_name, is_page_size, least, ppt_prefix,
    seven_zip_may, seven_zip_size, sqlite_may, sqlite_size, wav_may, wav_size, word_prefix,
    xl_prefix, zip_type, zip_type_may,
};

verus! {

/// The page sizes that a SQLite database can have.
pub open spec fn page_sizes() -> Set<int> {
    set![512int, 1024, 2048, 4096, 8192, 16384, 32768, 65536]
}

/// A SQLite database has the size of a page times the number of its pages. A
/// page size that is given as 1 is 65536. There is no size if the page size, the
/// versions (1 or 2) or the number of pages (not 0) is none that can be.
pub proof fn sqlite_size_is_pages<R: ReadAt + ?Sized>(
    reader: &R,
    image: Seq<u8>,
    off: int,
    page: int,
    size: Option<int>,
)
    requires
        reads_image(reader, image),
        image.len() <= u64::MAX,
        0 <= off,
        off + 100 <= image.len() ==> (if big(image, off + 16, 2) == 1 {
            page == 65536
        } else {
            page == big(image, off + 16, 2)
        }),
        sqlite_may(reader, off, size),
    ensures
        off + 100 > image.len() ==> size is None,
        off + 100 <= image.len() ==> {
            let sound = page_sizes().contains(page) && (image[off + 18] == 1 || image[off + 18]
                == 2) && (image[off + 19] == 1 || image[off + 19] == 2) && big(image, off + 28, 4)
                > 0;
            &&& sound ==> size == Some(page * big(image, off + 28, 4))
            &&& !sound ==> size is None
        },
{
    let got = choose|got: Option<Seq<u8>>| #[trigger]
        may_fetch(reader, off, 100, got) && size == (match got {
            Some(h) => sqlite_size(h),
            None => None,
        });
    read_here(reader, image, off, 100, got);
    if let Some(h) = got {
        number_here(image, off, h, 16, 2);
        number_here(image, off, h, 28, 4);
        assert(h[18] == image[off + 18] && h[19] == image[off + 19]);
        page_sizes_are_powers(page);
        big_is_not_negative(image, off + 28, 4);
    }
}

/// Numbers are not negative.
proof fn big_is_not_negative(b: Seq<u8>, at: int, n: nat)
    ensures
        big(b, at, n) >= 0,
        little(b, at, n) >= 0,
    decreases n,
{
    if n > 0 {
        big_is_not_negative(b, at, (n - 1) as nat);
        big_is_not_negative(b, at + 1, (n - 1) as nat);
    }
}

/// Page sizes are the powers of two from 512 to 65536.
proof fn page_sizes_are_powers(page: int)
    ensures
        is_page_size(page) <==> page_sizes().contains(page),
{
    lemma2_to64();
    assert forall|k: nat| 9 <= k <= 16 implies page_sizes().contains(#[trigger] pow2(k) as int) by {
        assert(k == 9 || k == 10 || k == 11 || k == 12 || k == 13 || k == 14 || k == 15 || k
            == 16);
    }
    if page_sizes().contains(page) {
        assert(page == pow2(9) || page == pow2(10) || page == pow2(11) || page == pow2(12) || page
            == pow2(13) || page == pow2(14) || page == pow2(15) || page == pow2(16));
    }
}

/// A 7z archive has its 32 byte start header, then as many bytes as its last
/// header stands after that, then the last header. There is no size if the
/// offset of the last header is above 2^40 or its size above 2^34.
pub proof fn seven_zip_size_reaches_its_last_header<R: ReadAt + ?Sized>(
    reader: &R,
    image: Seq<u8>,
    off: int,
    size: Option<int>,
)
    requires
        reads_image(reader, image),
        image.len() <= u64::MAX,
        0 <= off,
        seven_zip_may(reader, off, size),
    ensures
        off + 32 > image.len() ==> size is None,
        off + 32 <= image.len() ==> {
            let sound = little(image, off + 12, 8) <= 1099511627776 && little(image, off + 20, 8)
                <= 17179869184;
            &&& sound ==> size == Some(
                32 + little(image, off + 12, 8) + little(image, off + 20, 8),
            )
            &&& !sound ==> size is None
        },
{
    let got = choose|got: Option<Seq<u8>>| #[trigger]
        may_fetch(reader, off, 32, got) && size == (match got {
            Some(h) => seven_zip_size(h),
            None => None,
        });
    read_here(reader, image, off, 32, got);
    if let Some(h) = got {
        number_here(image, off, h, 12, 8);
        number_here(image, off, h, 20, 8);
    }
}

/// A RIFF file of form "WAVE" has the size that its size field gives, and the
/// eight bytes before what that counts. Other forms, and sizes below that of a
/// header with a format chunk, are none.
pub proof fn wav_size_is_of_its_field<R: ReadAt + ?Sized>(
    reader: &R,
    image: Seq<u8>,
    off: int,
    size: Option<int>,
)
    requires
        reads_image(reader, image),
        image.len() <= u64::MAX,
        0 <= off,
        wav_may(reader, off, size),
    ensures
        off + 12 > image.len() ==> size is None,
        off + 12 <= image.len() ==> {
            let sound = spells(image, off + 8, "WAVE"@) && little(image, off + 4, 4) >= 28;
            &&& sound ==> size == Some(little(image, off + 4, 4) + 8)
            &&& !sound ==> size is None
        },
{
    reveal_strlit("WAVE");
    let got = choose|got: Option<Seq<u8>>| #[trigger]
        may_fetch(reader, off, 12, got) && size == (match got {
            Some(h) => wav_size(h),
            None => None,
        });
    read_here(reader, image, off, 12, got);
    if let Some(h) = got {
        let t = "WAVE"@;
        number_here(image, off, h, 4, 4);
        assert(h[8] == image[off + 8] && h[9] == image[off + 9] && h[10] == image[off + 10]
            && h[11] == image[off + 11]);
        if spells(image, off + 8, t) {
            assert(image[off + 8 + 0] as int == t[0] as int);
            assert(image[off + 8 + 1] as int == t[1] as int);
            assert(image[off + 8 + 2] as int == t[2] as int);
            assert(image[off + 8 + 3] as int == t[3] as int);
        }
        if size is Some {
            assert(h[8] == 0x57 && h[9] == 0x41 && h[10] == 0x56 && h[11] == 0x45);
            assert forall|k: int| 0 <= k < 4 implies image[off + 8 + k] as int
                == #[trigger] t[k] as int by {
                assert(k == 0 || k == 1 || k == 2 || k == 3);
            }
        }
    }
}

/// A BMP file has the size that its size field gives, if its reserved bytes are
/// zero, its DIB header is of a size that there is, and the size is at least
/// that of the headers.
pub proof fn bmp_size_is_of_its_field<R: ReadAt + ?Sized>(
    reader: &R,
    image: Seq<u8>,
    off: int,
    size: Option<int>,
)
    requires
        reads_image(reader, image),
        image.len() <= u64::MAX,
        0 <= off,
        bmp_may(reader, off, size),
    ensures
        off + 26 > image.len() ==> size is None,
        off + 26 <= image.len() ==> {
            let sound = little(image, off + 6, 4) == 0 && set![
                12int,
                40,
                52,
                56,
                108,
                124,
            ].contains(little(image, off + 14, 4)) && little(image, off + 2, 4) >= 54;
            &&& sound ==> size == Some(little(image, off + 2, 4))
            &&& !sound ==> size is None
        },
{
    let got = choose|got: Option<Seq<u8>>| #[trigger]
        may_fetch(reader, off, 26, got) && size == (match got {
            Some(h) => bmp_size(h),
            None => None,
        });
    read_here(reader, image, off, 26, got);
    if let Some(h) = got {
        number_here(image, off, h, 2, 4);
        number_here(image, off, h, 6, 4);
        number_here(image, off, h, 14, 4);
        reveal_with_fuel(little, 5);
        assert(h[6] == image[off + 6] && h[7] == image[off + 7] && h[8] == image[off + 8] && h[9]
            == image[off + 9]);
    }
}

// ---------------------------------------------------------------------------
// ZIP files
// ---------------------------------------------------------------------------

/// Whether the ASCII text `text` stands somewhere from `from` up to `to`.
pub open spec fn mentions(image: Seq<u8>, from: int, to: int, text: Seq<char>) -> bool {
    exists|p: int| from <= p && p + text.len() <= to && #[trigger] spells(image, p, text)
}

/// What bytes say.
spec fn is_text(bytes: Seq<u8>, text: Seq<char>) -> bool {
    bytes.len() == text.len() && forall|k: int|
        0 <= k < bytes.len() ==> (#[trigger] bytes[k]) as int == text[k] as int
}

/// What is found in a part of an image is mentioned there.
proof fn found_is_mentioned(
    image: Seq<u8>,
    from: int,
    to: int,
    bytes: Seq<u8>,
    text: Seq<char>,
)
    requires
        0 <= from <= to <= image.len(),
        bytes.len() > 0,
        is_text(bytes, text),
    ensures
        occurs(image.subrange(from, to), bytes) <==> mentions(image, from, to, text),
{
    let part = image.subrange(from, to);
    if occurs(part, bytes) {
        let at = choose|at: int| occurs_at(part, bytes, at);
        assert forall|k: int| 0 <= k < text.len() implies image[from + at + k] as int
            == #[trigger] text[k] as int by {
            assert(part.subrange(at, at + bytes.len())[k] == bytes[k]);
        }
        assert(spells(image, from + at, text));
    }
    if mentions(image, from, to, text) {
        let p = choose|p: int| from <= p && p + text.len() <= to
            && #[trigger] spells(image, p, text);
        assert forall|k: int| 0 <= k < bytes.len() implies part.subrange(
            p - from,
            p - from + bytes.len(),
        )[k] == bytes[k] by {
            assert(image[p + k] as int == text[k] as int);
        }
        assert(part.subrange(p - from, p - from + bytes.len()) =~= bytes);
        assert(occurs_at(part, bytes, p - from));
    }
}

/// What the names of members are.
proof fn member_names()
    ensures
        is_text(content_types_name(), "[Content_Types].xml"@),
        is_text(word_prefix(), "word/"@),
        is_text(xl_prefix(), "xl/"@),
        is_text(ppt_prefix(), "ppt/"@),
{
    reveal_strlit("[Content_Types].xml");
    reveal_strlit("word/");
    reveal_strlit("xl/");
    reveal_strlit("ppt/");
}

/// A ZIP file of at most 4096 bytes is an office document if it mentions the
/// list of content types and a part of such a document, and the first kind of
/// part counts that is mentioned of Word, Excel and PowerPoint; all others are
/// plain archives.
pub proof fn small_zips_are_told_apart<R: ReadAt + ?Sized>(
    reader: &R,
    image: Seq<u8>,
    off: int,
    size: int,
    kind: Seq<char>,
)
    requires
        reads_image(reader, image),
        image.len() <= u64::MAX,
        0 <= off,
        0 <= size <= 4096,
        off + size <= image.len(),
        zip_type_may(reader, off, size, kind),
    ensures
        ({
            let office = mentions(image, off, off + size, "[Content_Types].xml"@);
            let word = mentions(image, off, off + size, "word/"@);
            let excel = mentions(image, off, off + size, "xl/"@);
            let slides = mentions(image, off, off + size, "ppt/"@);
            &&& office && word ==> kind == "docx"@
            &&& office && !word && excel ==> kind == "xlsx"@
            &&& office && !word && !excel && slides ==> kind == "pptx"@
            &&& !office || (!word && !excel && !slides) ==> kind == "zip"@
        }),
{
    let head = choose|head: Option<Seq<u8>>| #[trigger]
        may_fetch(reader, off, least(size, 4096) as nat, head) && kind == zip_type(
            bytes_or_none(head),
        );
    read_here(reader, image, off, size as nat, head);
    member_names();
    found_is_mentioned(image, off, off + size, content_types_name(), "[Content_Types].xml"@);
    found_is_mentioned(image, off, off + size, word_prefix(), "word/"@);
    found_is_mentioned(image, off, off + size, xl_prefix(), "xl/"@);
    found_is_mentioned(image, off, off + size, ppt_prefix(), "ppt/"@);
}

/// A larger ZIP file is told apart in the same way by what its first 4096 bytes
/// and its last 65536, or all if it has fewer, mention: that is where the names
/// of members stand.
pub proof fn large_zips_are_told_apart<R: ReadAt + ?Sized>(
    reader: &R,
    image: Seq<u8>,
    off: int,
    size: int,
    window: Seq<u8>,
    kind: Seq<char>,
)
    requires
        reads_image(reader, image),
        image.len() <= u64::MAX,
        0 <= off,
        4096 < size,
        off + size <= image.len(),
        window == image.subrange(off, off + 4096) + image.subrange(
            (if size <= 65536 {
                off
            } else {
                off + size - 65536
            }),
            off + size,
        ),
        zip_type_may(reader, off, size, kind),
    ensures
        ({
            let end = window.len() as int;
            let office = mentions(window, 0, end, "[Content_Types].xml"@);
            let word = mentions(window, 0, end, "word/"@);
            let excel = mentions(window, 0, end, "xl/"@);
            let slides = mentions(window, 0, end, "ppt/"@);
            &&& office && word ==> kind == "docx"@
            &&& office && !word && excel ==> kind == "xlsx"@
            &&& office && !word && !excel && slides ==> kind == "pptx"@
            &&& !office || (!word && !excel && !slides) ==> kind == "zip"@
        }),
        forall|t: Seq<char>| #[trigger]
            mentions(image, off, off + 4096, t) ==> mentions(window, 0, window.len() as int, t),
        forall|t: Seq<char>| #[trigger]
            mentions(image, off + size - 4096, off + size, t) ==> mentions(
                window,
                0,
                window.len() as int,
                t,
            ),
{
    let head = choose|head: Option<Seq<u8>>| #[trigger]
        may_fetch(reader, off, least(size, 4096) as nat, head) && exists|tail: Option<Seq<u8>>|
            #[trigger]
            may_fetch(
                reader,
                off + size - least(size, 65536),
                least(size, 65536) as nat,
                tail,
            ) && kind == zip_type(bytes_or_none(head) + bytes_or_none(tail));
    let n = least(size, 65536);
    let at = off + size - n;
    let tail = choose|tail: Option<Seq<u8>>| #[trigger]
        may_fetch(reader, at, n as nat, tail) && kind == zip_type(
            bytes_or_none(head) + bytes_or_none(tail),
        );
    read_here(reader, image, off, 4096, head);
    read_here(reader, image, at, n as nat, tail);
    member_names();
    let end = window.len() as int;
    assert(window == bytes_or_none(head) + bytes_or_none(tail));
    assert(window.subrange(0, end) =~= window);
    found_is_mentioned(window, 0, end, content_types_name(), "[Content_Types].xml"@);
    found_is_mentioned(window, 0, end, word_prefix(), "word/"@);
    found_is_mentioned(window, 0, end, xl_prefix(), "xl/"@);
    found_is_mentioned(window, 0, end, ppt_prefix(), "ppt/"@);
    assert forall|t: Seq<char>| #[trigger] mentions(image, off, off + 4096, t) implies mentions(
        window,
        0,
        end,
        t,
    ) by {
        let p = choose|p: int| off <= p && p + t.len() <= off + 4096
            && #[trigger] spells(image, p, t);
        assert forall|k: int| 0 <= k < t.len() implies window[p - off + k] as int
            == #[trigger] t[k] as int by {
            assert(image[p + k] as int == t[k] as int);
        }
        assert(spells(window, p - off, t));
    }
    assert forall|t: Seq<char>| #[trigger]
        mentions(image, off + size - 4096, off + size, t) implies mentions(window, 0, end, t) by {
        let p = choose|p: int|
            off + size - 4096 <= p && p + t.len() <= off + size && #[trigger] spells(image, p, t);
        let q = 4096 + (p - at);
        assert forall|k: int| 0 <= k < t.len() implies window[q + k] as int
            == #[trigger] t[k] as int by {
            assert(image[p + k] as int == t[k] as int);
        }
        assert(spells(window, q, t));
    }
}

/// Whether a ZIP file of whose bytes `window` is looked at is of type `kind`: an
/// office document if the list of content types and a part of a document are
/// mentioned, and the first kind of part counts of Word, Excel and PowerPoint.
pub open spec fn is_zip_kind(window: Seq<u8>, kind: Seq<char>) -> bool {
    let end = window.len() as int;
    let office = mentions(window, 0, end, "[Content_Types].xml"@);
    let word = mentions(window, 0, end, "word/"@);
    let excel = mentions(window, 0, end, "xl/"@);
    let slides = mentions(window, 0, end, "ppt/"@);
    ||| office && word && kind == "docx"@
    ||| office && !word && excel && kind == "xlsx"@
    ||| office && !word && !excel && slides && kind == "pptx"@
    ||| (!office || (!word && !excel && !slides)) && kind == "zip"@
}

/// The type of a ZIP file follows from what is mentioned.
pub(crate) proof fn window_tells_the_kind(window: Seq<u8>, kind: Seq<char>)
    requires
        is_zip_kind(window, kind),
    ensures
        zip_type(window) == kind,
{
    let end = window.len() as int;
    member_names();
    assert(window.subrange(0, end) =~= window);
    found_is_mentioned(window, 0, end, content_types_name(), "[Content_Types].xml"@);
    found_is_mentioned(window, 0, end, word_prefix(), "word/"@);
    found_is_mentioned(window, 0, end, xl_prefix(), "xl/"@);
    found_is_mentioned(window, 0, end, ppt_prefix(), "ppt/"@);
}

/// The type of a ZIP file is that of the part of it that is read.
pub(crate) proof fn window_is_read<R: ReadAt + ?Sized>(
    reader: &R,
    image: Seq<u8>,
    off: int,
    size: int,
    window: Seq<u8>,
    kind: Seq<char>,
)
    requires
        reads_image(reader, image),
        image.len() <= u64::MAX,
        0 <= off,
        0 <= size,
        off + size <= image.len(),
        window == (if size <= 4096 {
            image.subrange(off, off + size)
        } else if size <= 65536 {
            image.subrange(off, off + 4096) + image.subrange(off, off + size)
        } else {
            image.subrange(off, off + 4096) + image.subrange(off + size - 65536, off + size)
        }),
        zip_type_may(reader, off, size, kind),
    ensures
        kind == zip_type(window),
{
    if size <= 4096 {
        let head = choose|head: Option<Seq<u8>>| #[trigger]
            may_fetch(reader, off, least(size, 4096) as nat, head) && kind == zip_type(
                bytes_or_none(head),
            );
        read_here(reader, image, off, size as nat, head);
    } else {
        let head = choose|head: Option<Seq<u8>>| #[trigger]
            may_fetch(reader, off, least(size, 4096) as nat, head) && exists|tail: Option<Seq<u8>>|
                #[trigger]
                may_fetch(
                    reader,
                    off + size - least(size, 65536),
                    least(size, 65536) as nat,
                    tail,
                ) && kind == zip_type(bytes_or_none(head) + bytes_or_none(tail));
        let n = least(size, 65536);
        let at = off + size - n;
        let tail = choose|tail: Option<Seq<u8>>| #[trigger]
            may_fetch(reader, at, n as nat, tail) && kind == zip_type(
                bytes_or_none(head) + bytes_or_none(tail),
            );
        read_here(reader, image, off, 4096, head);
        read_here(reader, image, at, n as nat, tail);
    }
}

} // verus!
