//! Files that do not end within their bounds: those without a footer that fits,
//! those that state a size beyond the bounds, and those whose headers state none.
//! They are given up to the least of the bounds, as cut off.

use vstd::prelude::*;

use crate::box_laws::{
    has_media, is_chain, is_media, mp4_that_reaches_the_cap, runs_on, sum,
};
use crate::bytes::{big, little, occurs_at};
use crate::carver::{
    covered, file_start, footers_of, size_cap, size_may, stated_size_may, validation_may,
    CarvePlan, PlanView,
};
use crate::choice_laws::{footer_of, stated_of};
use crate::disk::ReadAt;
use crate::filter::{is_active, passes};
use crate::format_laws::{
    brand_check_is_exact, holds, jpeg_check_is_exact, mp4_brands, number_here, spells,
    zip_check_is_exact,
};
use crate::header_laws::{
    bmp_size_is_of_its_field, is_zip_kind, page_sizes, seven_zip_size_reaches_its_last_header,
    sqlite_size_is_pages, wav_size_is_of_its_field, window_is_read, window_tells_the_kind,
};
use crate::recovery_laws::{certain_hits_are_in_plans, file_end, is_named, is_sized, validates};
use crate::scanner::ScanResult;
use crate::signatures::{signature_table, SizeParser};
use crate::sizes::zip_type_may;
use crate::sound_laws::{footers_are_those_of_the_image, search_in_image};
use crate::whole_laws::{
    begins_jpeg, entries_are_plain, header_is_recorded, is_given, is_least, is_run, plan_is_given,
    wants, zip_size, Choices,
};

verus! {

/// A hit that is certain to be cut off at the least of its bounds is given so.
proof fn cut_file_is_given<R: ReadAt + ?Sized, F: FnMut(u64, usize)>(
    reader: &R,
    image: Seq<u8>,
    c: Choices,
    progress: F,
    seen: Seq<u8>,
    found: ScanResult,
    plans: Seq<CarvePlan>,
    si: usize,
    h: u64,
    off: int,
    verdict: (Seq<char>, Seq<char>),
    t: Seq<char>,
    cap: int,
)
    requires
        is_run(reader, image, c, progress, seen, found, plans),
        si < signature_table().len(),
        is_active(c.filter, signature_table()[si as int].name),
        holds(image, h as int, signature_table()[si as int].header),
        file_start(signature_table()[si as int], h as int) == Some(off),
        passes(c.filter, t),
        passes(c.filter, signature_table()[si as int].name) || si == 5 || si == 6,
        validates(reader, signature_table()[si as int], off, verdict),
        is_named(reader, signature_table()[si as int], off, cap, verdict, (t, t)),
        0 <= off,
        is_least(cap, signature_table()[si as int].max_size as int, c.max_size, image.len() - off),
        signature_table()[si as int].min_size <= cap,
        is_sized(
            reader,
            signature_table()[si as int],
            footers_of(found.footers@, si as int),
            off,
            cap,
            (cap, true),
        ),
    ensures
        is_given(plans, off, cap, t, true),
{
    let sig = signature_table()[si as int];
    entries_are_plain(si as int);
    assert(cap == size_cap(sig, c.max_size, image.len() as int, off));
    header_is_recorded(reader, image, c, progress, seen, found, plans, si, h);
    certain_hits_are_in_plans(
        reader,
        image.len() as int,
        found.headers@,
        found.footers@,
        signature_table(),
        c.max_size,
        c.filter,
        plans,
        (h, si),
        verdict,
        (cap, true),
        (t, t),
    );
    let p = choose|p: CarvePlan|
        {
            &&& #[trigger] p@ == (PlanView {
                offset: off,
                size: cap,
                file_type: t,
                extension: t,
                truncated: true,
            })
            &&& plans.contains(p) || covered(plans, p)
        };
    plan_is_given(plans, p);
}

// ---------------------------------------------------------------------------
// Formats with a footer
// ---------------------------------------------------------------------------

/// The size of a file that no footer ends is certain.
proof fn endless_size<R: ReadAt + ?Sized, F: FnMut(u64, usize)>(
    reader: &R,
    image: Seq<u8>,
    c: Choices,
    progress: F,
    seen: Seq<u8>,
    found: ScanResult,
    plans: Seq<CarvePlan>,
    si: usize,
    h: int,
    cap: int,
)
    requires
        is_run(reader, image, c, progress, seen, found, plans),
        si < signature_table().len(),
        signature_table()[si as int].footer is Some,
        signature_table()[si as int].parser == SizeParser::Absent,
        is_active(c.filter, signature_table()[si as int].name),
        forall|g: int|
            h < g && #[trigger] occurs_at(image, signature_table()[si as int].footer->0, g) ==> !(
            signature_table()[si as int].min_size <= file_end(
                image,
                signature_table()[si as int],
                g,
            ) - h <= cap),
    ensures
        is_sized(
            reader,
            signature_table()[si as int],
            footers_of(found.footers@, si as int),
            h,
            cap,
            (cap, true),
        ),
{
    let sig = signature_table()[si as int];
    let footers = footers_of(found.footers@, si as int);
    footers_are_those_of_the_image(reader, image, c, progress, seen, found, plans, si);
    assert forall|z: Option<(int, bool)>| #[trigger]
        size_may(reader, sig, footers, h, cap, z) implies z == Some((cap, true)) by {
        let stated = stated_of(reader, sig, footers, h, cap, z);
        assert(stated is None);
        let end = footer_of(reader, sig, footers, h, cap, z->0);
        search_in_image(reader, image, sig, footers, 0, h, cap, end);
    }
}

/// A JPEG file without an "end of image" that fits is given up to the least of its
/// bounds.
pub proof fn endless_jpegs_are_given<R: ReadAt + ?Sized, F: FnMut(u64, usize)>(
    reader: &R,
    image: Seq<u8>,
    c: Choices,
    progress: F,
    seen: Seq<u8>,
    found: ScanResult,
    plans: Seq<CarvePlan>,
    h: u64,
    cap: int,
    footer: Seq<u8>,
)
    requires
        is_run(reader, image, c, progress, seen, found, plans),
        wants(c.filter, "jpg"@),
        holds(image, h as int, seq![0xFF, 0xD8, 0xFF]),
        begins_jpeg(image, h as int),
        is_least(cap, 134217728, c.max_size, image.len() - h),
        512 <= cap,
        footer == seq![0xFFu8, 0xD9],
        forall|g: int| h < g && #[trigger] holds(image, g, footer)
            ==> g + 2 - h < 512 || g + 2 - h > cap,
    ensures
        is_given(plans, h as int, cap, "jpg"@, true),
{
    let sig = signature_table()[0];
    entries_are_plain(0);
    let header: Seq<u8> = seq![0xFF, 0xD8, 0xFF];
    assert(sig.header =~= header);
    assert(sig.footer->0 =~= footer);
    assert(validates(reader, sig, h as int, ("jpg"@, "jpg"@))) by {
        assert forall|v: Option<(Seq<char>, Seq<char>)>| #[trigger]
            validation_may(reader, sig, h as int, v) implies v == Some(("jpg"@, "jpg"@)) by {
            if v is None {
                jpeg_check_is_exact(reader, image, h as int, false);
            }
        }
    }
    assert forall|g: int| h < g && #[trigger] occurs_at(image, footer, g) implies !(sig.min_size
        <= file_end(image, sig, g) - h <= cap) by {
        assert forall|k: int| 0 <= k < footer.len()
            implies image[g + k] == #[trigger] footer[k] by {
            assert(image.subrange(g, g + footer.len())[k] == footer[k]);
        }
        assert(holds(image, g, footer));
    }
    endless_size(reader, image, c, progress, seen, found, plans, 0, h as int, cap);
    cut_file_is_given(reader, image, c, progress, seen, found, plans, 0, h, h as int, ("jpg"@,
        "jpg"@), "jpg"@, cap);
}

/// A PNG file without an end chunk that fits is given up to the least of its bounds.
pub proof fn endless_pngs_are_given<R: ReadAt + ?Sized, F: FnMut(u64, usize)>(
    reader: &R,
    image: Seq<u8>,
    c: Choices,
    progress: F,
    seen: Seq<u8>,
    found: ScanResult,
    plans: Seq<CarvePlan>,
    h: u64,
    cap: int,
    footer: Seq<u8>,
)
    requires
        is_run(reader, image, c, progress, seen, found, plans),
        wants(c.filter, "png"@),
        holds(image, h as int, seq![0x89, 0x50, 0x4E, 0x47, 0x0D, 0x0A, 0x1A, 0x0A]),
        is_least(cap, 536870912, c.max_size, image.len() - h),
        64 <= cap,
        footer == seq![0x49u8, 0x45, 0x4E, 0x44, 0xAE, 0x42, 0x60, 0x82],
        forall|g: int| h < g && #[trigger] holds(image, g, footer)
            ==> g + 8 - h < 64 || g + 8 - h > cap,
    ensures
        is_given(plans, h as int, cap, "png"@, true),
{
    let sig = signature_table()[1];
    entries_are_plain(1);
    let header: Seq<u8> = seq![0x89, 0x50, 0x4E, 0x47, 0x0D, 0x0A, 0x1A, 0x0A];
    assert(sig.header =~= header);
    assert(sig.footer->0 =~= footer);
    assert forall|g: int| h < g && #[trigger] occurs_at(image, footer, g) implies !(sig.min_size
        <= file_end(image, sig, g) - h <= cap) by {
        assert forall|k: int| 0 <= k < footer.len()
            implies image[g + k] == #[trigger] footer[k] by {
            assert(image.subrange(g, g + footer.len())[k] == footer[k]);
        }
        assert(holds(image, g, footer));
    }
    endless_size(reader, image, c, progress, seen, found, plans, 1, h as int, cap);
    cut_file_is_given(reader, image, c, progress, seen, found, plans, 1, h, h as int, ("png"@,
        "png"@), "png"@, cap);
}

/// A PDF file without an end mark that fits is given up to the least of its bounds.
pub proof fn endless_pdfs_are_given<R: ReadAt + ?Sized, F: FnMut(u64, usize)>(
    reader: &R,
    image: Seq<u8>,
    c: Choices,
    progress: F,
    seen: Seq<u8>,
    found: ScanResult,
    plans: Seq<CarvePlan>,
    h: u64,
    cap: int,
    footer: Seq<u8>,
)
    requires
        is_run(reader, image, c, progress, seen, found, plans),
        wants(c.filter, "pdf"@),
        holds(image, h as int, seq![0x25, 0x50, 0x44, 0x46, 0x2D]),
        is_least(cap, 2147483648, c.max_size, image.len() - h),
        128 <= cap,
        footer == seq![0x25u8, 0x25, 0x45, 0x4F, 0x46],
        forall|g: int| h < g && #[trigger] holds(image, g, footer)
            ==> g + 5 - h < 128 || g + 5 - h > cap,
    ensures
        is_given(plans, h as int, cap, "pdf"@, true),
{
    let sig = signature_table()[2];
    entries_are_plain(2);
    let header: Seq<u8> = seq![0x25, 0x50, 0x44, 0x46, 0x2D];
    assert(sig.header =~= header);
    assert(sig.footer->0 =~= footer);
    assert forall|g: int| h < g && #[trigger] occurs_at(image, footer, g) implies !(sig.min_size
        <= file_end(image, sig, g) - h <= cap) by {
        assert forall|k: int| 0 <= k < footer.len()
            implies image[g + k] == #[trigger] footer[k] by {
            assert(image.subrange(g, g + footer.len())[k] == footer[k]);
        }
        assert(holds(image, g, footer));
    }
    endless_size(reader, image, c, progress, seen, found, plans, 2, h as int, cap);
    cut_file_is_given(reader, image, c, progress, seen, found, plans, 2, h, h as int, ("pdf"@,
        "pdf"@), "pdf"@, cap);
}

/// A ZIP file without an end record that fits is given up to the least of its
/// bounds, as an archive or as the kind of office document that its members make
/// it.
pub proof fn endless_zips_are_given<R: ReadAt + ?Sized, F: FnMut(u64, usize)>(
    reader: &R,
    image: Seq<u8>,
    c: Choices,
    progress: F,
    seen: Seq<u8>,
    found: ScanResult,
    plans: Seq<CarvePlan>,
    h: u64,
    cap: int,
    footer: Seq<u8>,
    window: Seq<u8>,
    t: Seq<char>,
)
    requires
        is_run(reader, image, c, progress, seen, found, plans),
        wants(c.filter, t),
        holds(image, h as int, seq![0x50, 0x4B, 0x03, 0x04]),
        h + 30 <= image.len(),
        little(image, h + 8, 2) <= 99,
        1 <= little(image, h + 26, 2) <= 1024,
        little(image, h + 28, 2) <= 8192,
        is_least(cap, 8589934592, c.max_size, image.len() - h),
        32 <= cap,
        footer == seq![0x50u8, 0x4B, 0x05, 0x06],
        forall|g: int| h < g && #[trigger] holds(image, g, footer)
            ==> zip_size(image, h as int, g) < 32 || zip_size(image, h as int, g) > cap,
        window == (if cap <= 4096 {
            image.subrange(h as int, h + cap)
        } else if cap <= 65536 {
            image.subrange(h as int, h + 4096) + image.subrange(h as int, h + cap)
        } else {
            image.subrange(h as int, h + 4096) + image.subrange(h + cap - 65536, h + cap)
        }),
        is_zip_kind(window, t),
    ensures
        is_given(plans, h as int, cap, t, true),
{
    let sig = signature_table()[6];
    entries_are_plain(6);
    let header: Seq<u8> = seq![0x50, 0x4B, 0x03, 0x04];
    assert(sig.header =~= header);
    assert(sig.footer->0 =~= footer);
    assert(is_active(c.filter, sig.name));
    assert(validates(reader, sig, h as int, ("zip"@, "zip"@))) by {
        assert forall|v: Option<(Seq<char>, Seq<char>)>| #[trigger]
            validation_may(reader, sig, h as int, v) implies v == Some(("zip"@, "zip"@)) by {
            if v is None {
                zip_check_is_exact(reader, image, h as int, false);
            }
        }
    }
    assert forall|g: int| h < g && #[trigger] occurs_at(image, footer, g) implies !(sig.min_size
        <= file_end(image, sig, g) - h <= cap) by {
        assert forall|k: int| 0 <= k < footer.len()
            implies image[g + k] == #[trigger] footer[k] by {
            assert(image.subrange(g, g + footer.len())[k] == footer[k]);
        }
        assert(holds(image, g, footer));
        if g + 22 <= image.len() {
            number_here(image, g + 20, image.subrange(g + 20, g + 22), 0, 2);
        }
    }
    endless_size(reader, image, c, progress, seen, found, plans, 6, h as int, cap);
    assert(is_named(reader, sig, h as int, cap, ("zip"@, "zip"@), (t, t))) by {
        assert forall|kind: Seq<char>| #[trigger]
            zip_type_may(reader, h as int, cap, kind) implies kind == t by {
            window_tells_the_kind(window, t);
            window_is_read(reader, image, h as int, cap, window, kind);
        }
    }
    cut_file_is_given(reader, image, c, progress, seen, found, plans, 6, h, h as int, ("zip"@,
        "zip"@), t, cap);
}

// ---------------------------------------------------------------------------
// Formats that state their size
// ---------------------------------------------------------------------------

/// The size of a file that states one beyond its bounds, or that states none but
/// does not need to, is certain.
proof fn unbounded_size<R: ReadAt + ?Sized>(
    reader: &R,
    found: ScanResult,
    si: usize,
    off: int,
    cap: int,
)
    requires
        si < signature_table().len(),
        signature_table()[si as int].footer is None,
        forall|s: Option<int>| #[trigger]
            stated_size_may(reader, signature_table()[si as int].parser, off, cap, s) ==> (match s {
                Some(n) => n > cap || n == cap && si == 5,
                None => si == 9 || si == 15,
            }),
    ensures
        is_sized(
            reader,
            signature_table()[si as int],
            footers_of(found.footers@, si as int),
            off,
            cap,
            (cap, true),
        ),
{
    let sig = signature_table()[si as int];
    let footers = footers_of(found.footers@, si as int);
    assert forall|z: Option<(int, bool)>| #[trigger]
        size_may(reader, sig, footers, off, cap, z) implies z == Some((cap, true)) by {
        stated_of(reader, sig, footers, off, cap, z);
    }
}

/// A WAV file whose size field passes its bounds is given up to the least of them.
pub proof fn large_wavs_are_given<R: ReadAt + ?Sized, F: FnMut(u64, usize)>(
    reader: &R,
    image: Seq<u8>,
    c: Choices,
    progress: F,
    seen: Seq<u8>,
    found: ScanResult,
    plans: Seq<CarvePlan>,
    h: u64,
    cap: int,
)
    requires
        is_run(reader, image, c, progress, seen, found, plans),
        wants(c.filter, "wav"@),
        holds(image, h as int, seq![0x52, 0x49, 0x46, 0x46]),
        is_least(cap, 8589934592, c.max_size, image.len() - h),
        64 <= cap,
        h + 12 <= image.len(),
        spells(image, h + 8, "WAVE"@),
        little(image, h + 4, 4) >= 28,
        little(image, h + 4, 4) + 8 > cap,
    ensures
        is_given(plans, h as int, cap, "wav"@, true),
{
    let sig = signature_table()[8];
    entries_are_plain(8);
    let header: Seq<u8> = seq![0x52, 0x49, 0x46, 0x46];
    assert(sig.header =~= header);
    assert forall|s: Option<int>| #[trigger]
        stated_size_may(reader, sig.parser, h as int, cap, s) implies (match s {
        Some(n) => n > cap,
        None => false,
    }) by {
        wav_size_is_of_its_field(reader, image, h as int, s);
    }
    unbounded_size(reader, found, 8, h as int, cap);
    cut_file_is_given(reader, image, c, progress, seen, found, plans, 8, h, h as int, ("wav"@,
        "wav"@), "wav"@, cap);
}

/// A BMP file whose size field passes its bounds is given up to the least of them.
pub proof fn large_bmps_are_given<R: ReadAt + ?Sized, F: FnMut(u64, usize)>(
    reader: &R,
    image: Seq<u8>,
    c: Choices,
    progress: F,
    seen: Seq<u8>,
    found: ScanResult,
    plans: Seq<CarvePlan>,
    h: u64,
    cap: int,
)
    requires
        is_run(reader, image, c, progress, seen, found, plans),
        wants(c.filter, "bmp"@),
        holds(image, h as int, seq![0x42, 0x4D]),
        is_least(cap, 268435456, c.max_size, image.len() - h),
        64 <= cap,
        h + 26 <= image.len(),
        little(image, h + 6, 4) == 0,
        set![12int, 40, 52, 56, 108, 124].contains(little(image, h + 14, 4)),
        little(image, h + 2, 4) > cap,
    ensures
        is_given(plans, h as int, cap, "bmp"@, true),
{
    let sig = signature_table()[10];
    entries_are_plain(10);
    let header: Seq<u8> = seq![0x42, 0x4D];
    assert(sig.header =~= header);
    assert forall|s: Option<int>| #[trigger]
        stated_size_may(reader, sig.parser, h as int, cap, s) implies (match s {
        Some(n) => n > cap,
        None => false,
    }) by {
        bmp_size_is_of_its_field(reader, image, h as int, s);
    }
    unbounded_size(reader, found, 10, h as int, cap);
    cut_file_is_given(reader, image, c, progress, seen, found, plans, 10, h, h as int, ("bmp"@,
        "bmp"@), "bmp"@, cap);
}

/// An SQLite database whose pages pass its bounds, or whose header is not sound, is
/// given up to the least of them.
pub proof fn unbounded_databases_are_given<R: ReadAt + ?Sized, F: FnMut(u64, usize)>(
    reader: &R,
    image: Seq<u8>,
    c: Choices,
    progress: F,
    seen: Seq<u8>,
    found: ScanResult,
    plans: Seq<CarvePlan>,
    h: u64,
    cap: int,
    page: int,
)
    requires
        is_run(reader, image, c, progress, seen, found, plans),
        wants(c.filter, "sqlite"@),
        spells(image, h as int, "SQLite format 3\0"@),
        is_least(cap, 17179869184, c.max_size, image.len() - h),
        512 <= cap,
        page == (if big(image, h + 16, 2) == 1 { 65536 } else { big(image, h + 16, 2) }),
        !(h + 100 <= image.len() && page_sizes().contains(page) && (image[h + 18] == 1 || image[h
            + 18] == 2) && (image[h + 19] == 1 || image[h + 19] == 2)
            && big(image, h + 28, 4) > 0) || page * big(image, h + 28, 4) > cap,
    ensures
        is_given(plans, h as int, cap, "sqlite"@, true),
{
    let sig = signature_table()[9];
    entries_are_plain(9);
    reveal_strlit("SQLite format 3\0");
    let name = "SQLite format 3\0"@;
    assert forall|k: int| 0 <= k < sig.header.len()
        implies image[h + k] == #[trigger] sig.header[k] by {
        assert(image[h + k] as int == name[k] as int);
    }
    assert forall|s: Option<int>| #[trigger]
        stated_size_may(reader, sig.parser, h as int, cap, s) implies (match s {
        Some(n) => n > cap,
        None => true,
    }) by {
        sqlite_size_is_pages(reader, image, h as int, page, s);
    }
    unbounded_size(reader, found, 9, h as int, cap);
    cut_file_is_given(reader, image, c, progress, seen, found, plans, 9, h, h as int, ("sqlite"@,
        "sqlite"@), "sqlite"@, cap);
}

/// A 7z archive whose last header passes its bounds, or whose start header is not
/// sound, is given up to the least of them.
pub proof fn unbounded_seven_zips_are_given<R: ReadAt + ?Sized, F: FnMut(u64, usize)>(
    reader: &R,
    image: Seq<u8>,
    c: Choices,
    progress: F,
    seen: Seq<u8>,
    found: ScanResult,
    plans: Seq<CarvePlan>,
    h: u64,
    cap: int,
)
    requires
        is_run(reader, image, c, progress, seen, found, plans),
        wants(c.filter, "7z"@),
        holds(image, h as int, seq![0x37, 0x7A, 0xBC, 0xAF, 0x27, 0x1C]),
        is_least(cap, 17179869184, c.max_size, image.len() - h),
        32 <= cap,
        !(h + 32 <= image.len() && little(image, h + 12, 8) <= 1099511627776
            && little(image, h + 20, 8) <= 17179869184) || 32 + little(image, h + 12, 8)
            + little(image, h + 20, 8) > cap,
    ensures
        is_given(plans, h as int, cap, "7z"@, true),
{
    let sig = signature_table()[15];
    entries_are_plain(15);
    let header: Seq<u8> = seq![0x37, 0x7A, 0xBC, 0xAF, 0x27, 0x1C];
    assert(sig.header =~= header);
    assert forall|s: Option<int>| #[trigger]
        stated_size_may(reader, sig.parser, h as int, cap, s) implies (match s {
        Some(n) => n > cap,
        None => true,
    }) by {
        seven_zip_size_reaches_its_last_header(reader, image, h as int, s);
    }
    unbounded_size(reader, found, 15, h as int, cap);
    cut_file_is_given(reader, image, c, progress, seen, found, plans, 15, h, h as int, ("7z"@,
        "7z"@), "7z"@, cap);
}

/// A movie whose last box runs on to the least of its bounds, or beyond, is given up
/// to there, as cut off even if it ends right there.
pub proof fn large_movies_are_given<R: ReadAt + ?Sized, F: FnMut(u64, usize)>(
    reader: &R,
    image: Seq<u8>,
    c: Choices,
    progress: F,
    seen: Seq<u8>,
    found: ScanResult,
    plans: Seq<CarvePlan>,
    start: u64,
    cap: int,
    sizes: Seq<int>,
    t: Seq<char>,
)
    requires
        is_run(reader, image, c, progress, seen, found, plans),
        wants(c.filter, t),
        start + 12 <= image.len(),
        spells(image, start + 4, "ftyp"@),
        8 <= big(image, start as int, 4) <= 1048576,
        t == "mov"@ && spells(image, start + 8, "qt  "@) || t == "mp4"@ && exists|m: int|
            #![trigger mp4_brands()[m]]
            0 <= m < mp4_brands().len() && spells(image, start + 8, mp4_brands()[m]),
        is_least(cap, 34359738368, c.max_size, image.len() - start),
        32 <= cap,
        is_chain(image, start as int, sizes),
        sizes.len() < 4096,
        sum(sizes) < cap,
        runs_on(image, start + sum(sizes), start + cap),
        has_media(image, start as int, sizes) || is_media(image, start + sum(sizes)),
    ensures
        is_given(plans, start as int, cap, t, true),
{
    reveal_strlit("ftyp");
    reveal_strlit("zip");
    let sig = signature_table()[5];
    let h = (start + 4) as u64;
    entries_are_plain(5);
    assert("ftyp"@.len() != "zip"@.len());
    assert forall|k: int| 0 <= k < sig.header.len()
        implies image[h + k] == #[trigger] sig.header[k] by {
        let name = "ftyp"@;
        assert(image[start + 4 + k] as int == name[k] as int);
    }
    assert(is_active(c.filter, sig.name));
    assert(validates(reader, sig, start as int, (t, t))) by {
        assert forall|v: Option<(Seq<char>, Seq<char>)>| #[trigger]
            validation_may(reader, sig, start as int, v) implies v == Some((t, t)) by {
            let kind = match v {
                Some(x) => Some(x.0),
                None => None,
            };
            brand_check_is_exact(reader, image, start as int, kind);
        }
    }
    assert forall|s: Option<int>| #[trigger]
        stated_size_may(reader, sig.parser, start as int, cap, s) implies s == Some(cap) by {
        mp4_that_reaches_the_cap(reader, image, start as int, cap, sizes, s);
    }
    unbounded_size(reader, found, 5, start as int, cap);
    cut_file_is_given(reader, image, c, progress, seen, found, plans, 5, h, start as int, (t, t),
        t, cap);
}

} // verus!
