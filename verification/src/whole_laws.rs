//! From the bytes of an image to the files that a run over it gives back, format
//! by format: what stands in the image in one piece is planned with its place,
//! its size and its type.

use vstd::prelude::*;

use crate::box_laws::{
    has_media, is_chain, mp4_size_is_of_its_boxes, no_box, sum,
};
use crate::bytes::{big, little, occurs_at};
use crate::carver::{
    capped, covered, file_start, footers_of, plans_may, resolved_late, size_cap, size_may,
    stated_size_may, unstated_size_may, validation_may, CarvePlan, PlanView,
};
use crate::disk::{reads_image, ReadAt};
use crate::filter::{active_among, is_active, passes};
use crate::format_laws::{
    brand_check_is_exact, bz2_check_is_exact, gz_check_is_exact, holds, jpeg_check_is_exact,
    mp3_check_is_exact, mp4_brands, number_here, spells, tiff_check_is_exact, zip_check_is_exact,
};
use crate::gif_laws::{gif_bytes, gif_size_is_its_length, is_block, is_table, GifBlock};
use crate::header_laws::{
    bmp_size_is_of_its_field, is_zip_kind, page_sizes, seven_zip_size_reaches_its_last_header,
    sqlite_size_is_pages, wav_size_is_of_its_field, window_tells_the_kind,
};
use crate::plan_laws::database_can_be_scanned;
use crate::recovery::wanted_patterns;
use crate::recovery_laws::{
    certain_hits_are_in_plans, embedded_files_are_planned, file_end, is_certain, is_embedded,
    stated_size_is_certain, validates, whole_file, zip_window,
};
use crate::scan_laws::{image_is_seen_as_it_is, scan_finds_every_match, stands_at};
use crate::scanner::{block_used, chunk_used, scan_may, ScanResult};
use crate::signatures::{signature_table, SizeParser, Validator};
use crate::text::texts;

verus! {

/// What is chosen for a run.
pub struct Choices {
    pub block_size: int,
    pub chunk_size: int,
    /// The largest size of a file.
    pub max_size: int,
    /// The types that are wanted, if not all are.
    pub filter: Option<Set<Seq<char>>>,
}

/// Whether a run over an image, with the choices `c`, has found `found` and
/// planned `plans`.
pub open spec fn is_run<R: ReadAt + ?Sized, F: FnMut(u64, usize)>(
    reader: &R,
    image: Seq<u8>,
    c: Choices,
    progress: F,
    seen: Seq<u8>,
    found: ScanResult,
    plans: Seq<CarvePlan>,
) -> bool {
    &&& reads_image(reader, image)
    &&& image.len() <= u64::MAX
    &&& scan_may(
        reader,
        image.len() as int,
        c.block_size,
        c.chunk_size,
        wanted_patterns(c.filter),
        progress,
        seen,
        found,
    )
    &&& plans_may(
        reader,
        image.len() as int,
        found.headers@,
        found.footers@,
        signature_table(),
        c.max_size,
        c.filter,
        plans,
    )
}

/// Whether files of type `t` are wanted.
pub open spec fn wants(filter: Option<Set<Seq<char>>>, t: Seq<char>) -> bool {
    match filter {
        Some(f) => f.contains(t),
        None => true,
    }
}

/// Whether the file at `offset` of `size` bytes is among the plans, with type
/// and extension `t` and the note whether it is cut off; or it starts inside
/// another planned file of its type.
pub open spec fn is_given(
    plans: Seq<CarvePlan>,
    offset: int,
    size: int,
    t: Seq<char>,
    truncated: bool,
) -> bool {
    exists|k: int|
        #![trigger plans[k]]
        {
            &&& 0 <= k < plans.len()
            &&& plans[k].file_type@ == t
            &&& {
                ||| plans[k].offset == offset && plans[k].size == size && plans[k].extension@ == t
                    && plans[k].truncated == truncated
                ||| plans[k].offset <= offset < plans[k].offset + plans[k].size
            }
        }
}

/// Whether `cap` is the least of three bounds.
pub open spec fn is_least(cap: int, a: int, b: int, c: int) -> bool {
    &&& cap <= a
    &&& cap <= b
    &&& cap <= c
    &&& cap == a || cap == b || cap == c
}

/// A plan that is in the list, or covered there, is given.
pub(crate) proof fn plan_is_given(plans: Seq<CarvePlan>, p: CarvePlan)
    requires
        plans.contains(p) || covered(plans, p),
        p@.extension == p@.file_type,
    ensures
        is_given(plans, p@.offset, p@.size, p@.file_type, p@.truncated),
{
    if plans.contains(p) {
        let k = plans.index_of(p);
        assert(plans[k] == p);
    } else {
        let k = choose|k: int|
            0 <= k < plans.len() && (#[trigger] plans[k]).file_type@ == p.file_type@
                && plans[k].offset <= p.offset < plans[k].offset + plans[k].size;
        assert(plans[k].file_type@ == p.file_type@);
    }
}

/// The header of an active entry of the database is recorded where it stands.
pub(crate) proof fn header_is_recorded<R: ReadAt + ?Sized, F: FnMut(u64, usize)>(
    reader: &R,
    image: Seq<u8>,
    c: Choices,
    progress: F,
    seen: Seq<u8>,
    found: ScanResult,
    plans: Seq<CarvePlan>,
    si: usize,
    h: u64,
)
    requires
        is_run(reader, image, c, progress, seen, found, plans),
        si < signature_table().len(),
        is_active(c.filter, signature_table()[si as int].name),
        holds(image, h as int, signature_table()[si as int].header),
    ensures
        found.headers@.contains((h, si)),
{
    let table = signature_table();
    let active = active_among(table, c.filter, table.len() as int);
    let chunk = chunk_used(c.block_size, c.chunk_size);
    let total = image.len() as int;
    let header = table[si as int].header;
    database_can_be_scanned(c.filter);
    assert(active.contains(si as int as usize));
    image_is_seen_as_it_is(
        reader,
        image,
        0,
        total,
        block_used(c.block_size),
        chunk,
        seen,
        texts(found.errors@),
    );
    assert(seen =~= image);
    assert(image.subrange(h as int, h + header.len()) =~= header);
    scan_finds_every_match(seen, table, active, false, chunk, (h, si));
    assert(stands_at(seen, table, active, false, h as int, si));
}

/// A hit of which all is certain is given.
proof fn hit_is_given<R: ReadAt + ?Sized, F: FnMut(u64, usize)>(
    reader: &R,
    image: Seq<u8>,
    c: Choices,
    progress: F,
    seen: Seq<u8>,
    found: ScanResult,
    plans: Seq<CarvePlan>,
    si: usize,
    h: u64,
    off: int,
    t: Seq<char>,
    sized: (int, bool),
)
    requires
        is_run(reader, image, c, progress, seen, found, plans),
        si < signature_table().len(),
        is_active(c.filter, signature_table()[si as int].name),
        holds(image, h as int, signature_table()[si as int].header),
        file_start(signature_table()[si as int], h as int) == Some(off),
        signature_table()[si as int].name != "zip"@,
        is_certain(
            reader,
            image.len() as int,
            h as int,
            signature_table()[si as int],
            footers_of(found.footers@, si as int),
            c.max_size,
            c.filter,
            (t, t),
            sized,
            (t, t),
        ),
    ensures
        is_given(plans, off, sized.0, t, sized.1),
{
    header_is_recorded(reader, image, c, progress, seen, found, plans, si, h);
    certain_hits_are_in_plans(
        reader,
        image.len() as int,
        found.headers@,
        found.footers@,
        signature_table(),
        c.max_size,
        c.filter,
        plans,
        (h, si),
        (t, t),
        sized,
        (t, t),
    );
    let p = choose|p: CarvePlan|
        {
            &&& #[trigger] p@ == (PlanView {
                offset: off,
                size: sized.0,
                file_type: t,
                extension: t,
                truncated: sized.1,
            })
            &&& plans.contains(p) || covered(plans, p)
        };
    plan_is_given(plans, p);
}

/// A file that is certain to state a size within the bounds is given with it.
proof fn sized_file_is_given<R: ReadAt + ?Sized, F: FnMut(u64, usize)>(
    reader: &R,
    image: Seq<u8>,
    c: Choices,
    progress: F,
    seen: Seq<u8>,
    found: ScanResult,
    plans: Seq<CarvePlan>,
    si: usize,
    h: u64,
    off: int,
    t: Seq<char>,
    cap: int,
    size: int,
)
    requires
        is_run(reader, image, c, progress, seen, found, plans),
        si < signature_table().len(),
        is_active(c.filter, signature_table()[si as int].name),
        holds(image, h as int, signature_table()[si as int].header),
        file_start(signature_table()[si as int], h as int) == Some(off),
        signature_table()[si as int].name != "zip"@,
        passes(c.filter, t),
        passes(c.filter, signature_table()[si as int].name) || resolved_late(
            signature_table()[si as int],
        ),
        validates(reader, signature_table()[si as int], off, (t, t)),
        is_least(
            cap,
            signature_table()[si as int].max_size as int,
            c.max_size,
            image.len() - off,
        ),
        signature_table()[si as int].min_size <= size,
        size < cap || (size == cap && signature_table()[si as int].parser != SizeParser::Mp4),
        forall|s: Option<int>| #[trigger]
            stated_size_may(reader, signature_table()[si as int].parser, off, cap, s) ==> s == Some(
                size,
            ),
    ensures
        is_given(plans, off, size, t, false),
{
    let sig = signature_table()[si as int];
    let footers = footers_of(found.footers@, si as int);
    assert(cap == size_cap(sig, c.max_size, image.len() as int, off));
    stated_size_is_certain(reader, sig, footers, off, cap, size);
    hit_is_given(
        reader,
        image,
        c,
        progress,
        seen,
        found,
        plans,
        si,
        h,
        off,
        t,
        (size, false),
    );
}

/// A file without a size and without a footer is given with the largest size
/// that it may have, as cut off.
proof fn sizeless_file_is_given<R: ReadAt + ?Sized, F: FnMut(u64, usize)>(
    reader: &R,
    image: Seq<u8>,
    c: Choices,
    progress: F,
    seen: Seq<u8>,
    found: ScanResult,
    plans: Seq<CarvePlan>,
    si: usize,
    h: u64,
    t: Seq<char>,
    cap: int,
)
    requires
        is_run(reader, image, c, progress, seen, found, plans),
        si < signature_table().len(),
        holds(image, h as int, signature_table()[si as int].header),
        signature_table()[si as int].name == t,
        !resolved_late(signature_table()[si as int]),
        wants(c.filter, t),
        validates(reader, signature_table()[si as int], h as int, (t, t)),
        signature_table()[si as int].parser == SizeParser::Absent,
        signature_table()[si as int].footer is None,
        signature_table()[si as int].validator != Validator::Ftyp,
        is_least(cap, signature_table()[si as int].max_size as int, c.max_size, image.len() - h),
        signature_table()[si as int].min_size <= cap,
    ensures
        is_given(plans, h as int, cap, t, true),
{
    let sig = signature_table()[si as int];
    let footers = footers_of(found.footers@, si as int);
    assert(cap == size_cap(sig, c.max_size, image.len() as int, h as int));
    assert forall|z: Option<(int, bool)>| #[trigger]
        size_may(reader, sig, footers, h as int, cap, z) implies z == Some((cap, true)) by {
        let stated = choose|s: Option<int>| #[trigger]
            stated_size_may(reader, sig.parser, h as int, cap, s) && (match s {
                Some(n) => z == Some(capped(sig.parser, n, cap)),
                None => z matches Some(w) && unstated_size_may(
                    reader,
                    sig,
                    footers,
                    h as int,
                    cap,
                    w,
                ),
            });
        assert(stated is None);
    }
    hit_is_given(
        reader,
        image,
        c,
        progress,
        seen,
        found,
        plans,
        si,
        h,
        h as int,
        t,
        (cap, true),
    );
}

/// A file from a header to a footer is given.
proof fn footed_file_is_given<R: ReadAt + ?Sized, F: FnMut(u64, usize)>(
    reader: &R,
    image: Seq<u8>,
    c: Choices,
    progress: F,
    seen: Seq<u8>,
    found: ScanResult,
    plans: Seq<CarvePlan>,
    si: usize,
    h: u64,
    f: u64,
    t: Seq<char>,
    footer: Seq<u8>,
)
    requires
        is_run(reader, image, c, progress, seen, found, plans),
        si < signature_table().len(),
        holds(image, h as int, signature_table()[si as int].header),
        signature_table()[si as int].name == t,
        signature_table()[si as int].extension == t,
        !resolved_late(signature_table()[si as int]),
        wants(c.filter, t),
        validates(reader, signature_table()[si as int], h as int, (t, t)),
        signature_table()[si as int].parser == SizeParser::Absent,
        signature_table()[si as int].footer == Some(footer),
        signature_table()[si as int].validator != Validator::Ftyp,
        h < f,
        footer.len() > 0,
        holds(image, f as int, footer),
        f + footer.len() - h <= signature_table()[si as int].max_size,
        f + footer.len() - h <= c.max_size,
        f + footer.len() - h >= signature_table()[si as int].min_size,
        forall|g: int|
            h < g < f && #[trigger] holds(image, g, footer) ==> g + footer.len() - h
                < signature_table()[si as int].min_size,
    ensures
        is_given(plans, h as int, f + footer.len() - h, t, false),
{
    let table = signature_table();
    let sig = table[si as int];
    let active = active_among(table, c.filter, table.len() as int);
    database_can_be_scanned(c.filter);
    assert(active.contains(si as int as usize));
    let size = f + footer.len() - h;
    let cap = size_cap(sig, c.max_size, image.len() as int, h as int);
    assert(image.subrange(h as int, h + sig.header.len()) =~= sig.header);
    assert(image.subrange(f as int, f + footer.len()) =~= footer);
    assert forall|g: int| h < g < f && #[trigger] occurs_at(image, footer, g) implies !(sig.min_size
        <= file_end(image, sig, g) - h <= cap) by {
        assert forall|k: int| 0 <= k < footer.len()
            implies image[g + k] == #[trigger] footer[k] by {
            assert(image.subrange(g, g + footer.len())[k] == footer[k]);
        }
        assert(holds(image, g, footer));
    }
    assert(is_embedded(image, sig, c.max_size, h as int, f as int));
    embedded_files_are_planned(
        reader,
        image,
        c.block_size,
        c.chunk_size,
        table,
        active,
        progress,
        seen,
        found,
        c.max_size,
        c.filter,
        plans,
        si,
        h,
        f,
    );
    let whole = whole_file(image, sig, h as int, f as int);
    let p = choose|p: CarvePlan|
        {
            &&& #[trigger] p@ == whole
            &&& plans.contains(p) || covered(plans, p)
        };
    plan_is_given(plans, p);
}

// ---------------------------------------------------------------------------
// The database
// ---------------------------------------------------------------------------

/// Only two entries of the database stand for several types.
pub(crate) proof fn entries_are_plain(k: int)
    requires
        0 <= k < signature_table().len(),
    ensures
        resolved_late(signature_table()[k]) <==> k == 5 || k == 6,
{
    reveal_strlit("jpg");
    reveal_strlit("png");
    reveal_strlit("pdf");
    reveal_strlit("gif");
    reveal_strlit("ftyp");
    reveal_strlit("zip");
    reveal_strlit("mp3");
    reveal_strlit("wav");
    reveal_strlit("sqlite");
    reveal_strlit("bmp");
    reveal_strlit("tiff");
    reveal_strlit("rar");
    reveal_strlit("7z");
    reveal_strlit("gz");
    reveal_strlit("bz2");
    reveal_strlit("plist");
    assert("jpg"@[0] != "zip"@[0] || "jpg"@[1] != "zip"@[1]);
    assert("png"@[0] != "zip"@[0] || "png"@[1] != "zip"@[1]);
    assert("pdf"@[0] != "zip"@[0] || "pdf"@[1] != "zip"@[1]);
    assert("gif"@[0] != "zip"@[0] || "gif"@[1] != "zip"@[1]);
    assert("mp3"@[0] != "zip"@[0] || "mp3"@[1] != "zip"@[1]);
    assert("wav"@[0] != "zip"@[0] || "wav"@[1] != "zip"@[1]);
    assert("bmp"@[0] != "zip"@[0] || "bmp"@[1] != "zip"@[1]);
    assert("rar"@[0] != "zip"@[0] || "rar"@[1] != "zip"@[1]);
    assert("bz2"@[0] != "zip"@[0] || "bz2"@[1] != "zip"@[1]);
    assert("tiff"@[0] != "ftyp"@[0]);
    assert("zip"@.len() == 3 && "ftyp"@.len() == 4);
    let name = signature_table()[k].name;
    if k != 5 && k != 6 {
        assert(name.len() == 3 ==> name[0] != "zip"@[0] || name[1] != "zip"@[1]);
        assert(name.len() == 4 ==> name[0] != "ftyp"@[0]);
    }
}

/// Whether the marker after a JPEG header is one that a JPEG file begins with.
pub open spec fn begins_jpeg(image: Seq<u8>, h: int) -> bool {
    &&& h + 12 <= image.len()
    &&& {
        ||| image[h + 3] == 0xE0 && spells(image, h + 6, "JFIF"@) && image[h + 10] == 0
        ||| image[h + 3] == 0xE1 && spells(image, h + 6, "Exif"@) && image[h + 10] == 0 && image[h
            + 11] == 0
        ||| 0xE2 <= image[h + 3] <= 0xEF
        ||| image[h + 3] == 0xDB
        ||| image[h + 3] == 0xC4
        ||| 0xC0 <= image[h + 3] <= 0xC2
    }
}

// ---------------------------------------------------------------------------
// Formats with a footer
// ---------------------------------------------------------------------------

/// A JPEG file is given: from its header, which a marker of such a file follows,
/// to the first "end of image" that leaves it at least 512 bytes.
pub proof fn jpegs_are_given<R: ReadAt + ?Sized, F: FnMut(u64, usize)>(
    reader: &R,
    image: Seq<u8>,
    c: Choices,
    progress: F,
    seen: Seq<u8>,
    found: ScanResult,
    plans: Seq<CarvePlan>,
    h: u64,
    f: u64,
    footer: Seq<u8>,
)
    requires
        is_run(reader, image, c, progress, seen, found, plans),
        wants(c.filter, "jpg"@),
        holds(image, h as int, seq![0xFF, 0xD8, 0xFF]),
        begins_jpeg(image, h as int),
        h < f,
        footer == seq![0xFFu8, 0xD9],
        holds(image, f as int, footer),
        512 <= f + 2 - h <= 134217728,
        f + 2 - h <= c.max_size,
        forall|g: int|
            h < g < f && #[trigger] holds(image, g, footer) ==> g + 2 - h < 512,
    ensures
        is_given(plans, h as int, f + 2 - h, "jpg"@, false),
{
    let sig = signature_table()[0];
    entries_are_plain(0);
    let header: Seq<u8> = seq![0xFF, 0xD8, 0xFF];
    assert(sig.footer->0 =~= footer);
    assert(sig.header =~= header);
    assert(validates(reader, sig, h as int, ("jpg"@, "jpg"@))) by {
        assert forall|v: Option<(Seq<char>, Seq<char>)>| #[trigger]
            validation_may(reader, sig, h as int, v) implies v == Some(
            ("jpg"@, "jpg"@),
        ) by {
            if v is None {
                jpeg_check_is_exact(reader, image, h as int, false);
            }
        }
    }
    footed_file_is_given(reader, image, c, progress, seen, found, plans, 0, h, f, "jpg"@, footer);
}

/// A PNG file is given: from its header to the first end chunk that leaves it at
/// least 64 bytes.
pub proof fn pngs_are_given<R: ReadAt + ?Sized, F: FnMut(u64, usize)>(
    reader: &R,
    image: Seq<u8>,
    c: Choices,
    progress: F,
    seen: Seq<u8>,
    found: ScanResult,
    plans: Seq<CarvePlan>,
    h: u64,
    f: u64,
    footer: Seq<u8>,
)
    requires
        is_run(reader, image, c, progress, seen, found, plans),
        wants(c.filter, "png"@),
        holds(image, h as int, seq![0x89, 0x50, 0x4E, 0x47, 0x0D, 0x0A, 0x1A, 0x0A]),
        h < f,
        footer == seq![0x49u8, 0x45, 0x4E, 0x44, 0xAE, 0x42, 0x60, 0x82],
        holds(image, f as int, footer),
        64 <= f + 8 - h <= 536870912,
        f + 8 - h <= c.max_size,
        forall|g: int|
            h < g < f && #[trigger] holds(image, g, footer) ==> g + 8 - h < 64,
    ensures
        is_given(plans, h as int, f + 8 - h, "png"@, false),
{
    let sig = signature_table()[1];
    entries_are_plain(1);
    let header: Seq<u8> = seq![0x89, 0x50, 0x4E, 0x47, 0x0D, 0x0A, 0x1A, 0x0A];
    assert(sig.footer->0 =~= footer);
    assert(sig.header =~= header);
    footed_file_is_given(reader, image, c, progress, seen, found, plans, 1, h, f, "png"@, footer);
}

/// A PDF file is given: from "%PDF-" to the first "%%EOF" that leaves it at least
/// 128 bytes.
pub proof fn pdfs_are_given<R: ReadAt + ?Sized, F: FnMut(u64, usize)>(
    reader: &R,
    image: Seq<u8>,
    c: Choices,
    progress: F,
    seen: Seq<u8>,
    found: ScanResult,
    plans: Seq<CarvePlan>,
    h: u64,
    f: u64,
    footer: Seq<u8>,
)
    requires
        is_run(reader, image, c, progress, seen, found, plans),
        wants(c.filter, "pdf"@),
        holds(image, h as int, seq![0x25, 0x50, 0x44, 0x46, 0x2D]),
        h < f,
        footer == seq![0x25u8, 0x25, 0x45, 0x4F, 0x46],
        holds(image, f as int, footer),
        128 <= f + 5 - h <= 2147483648,
        f + 5 - h <= c.max_size,
        forall|g: int|
            h < g < f && #[trigger] holds(image, g, footer) ==> g + 5 - h < 128,
    ensures
        is_given(plans, h as int, f + 5 - h, "pdf"@, false),
{
    let sig = signature_table()[2];
    entries_are_plain(2);
    let header: Seq<u8> = seq![0x25, 0x50, 0x44, 0x46, 0x2D];
    assert(sig.footer->0 =~= footer);
    assert(sig.header =~= header);
    footed_file_is_given(reader, image, c, progress, seen, found, plans, 2, h, f, "pdf"@, footer);
}

/// How large a ZIP file at `h` is that the end record at `f` ends: up to the end
/// of the comment whose length the record gives.
pub open spec fn zip_size(image: Seq<u8>, h: int, f: int) -> int {
    f + 22 + (if f + 22 <= image.len() {
        little(image, f + 20, 2)
    } else {
        0
    }) - h
}

/// A ZIP file is given: from its header to the first end record, with its
/// comment, that leaves it within the bounds, as an archive or as the kind of
/// office document that its members make it.
pub proof fn zips_are_given<R: ReadAt + ?Sized, F: FnMut(u64, usize)>(
    reader: &R,
    image: Seq<u8>,
    c: Choices,
    progress: F,
    seen: Seq<u8>,
    found: ScanResult,
    plans: Seq<CarvePlan>,
    h: u64,
    f: u64,
    footer: Seq<u8>,
    size: int,
    window: Seq<u8>,
    t: Seq<char>,
)
    requires
        is_run(reader, image, c, progress, seen, found, plans),
        wants(c.filter, t),
        holds(image, h as int, seq![0x50, 0x4B, 0x03, 0x04]),
        h + 30 <= image.len(),
        little(image, h + 8, 2) <= 99,
        1 <= little(image, h + 26, 2) <= 1024,
        little(image, h + 28, 2) <= 8192,
        h < f,
        footer == seq![0x50u8, 0x4B, 0x05, 0x06],
        holds(image, f as int, footer),
        size == zip_size(image, h as int, f as int),
        32 <= size <= 8589934592,
        size <= c.max_size,
        h + size <= image.len(),
        forall|g: int|
            h < g < f && #[trigger] holds(image, g, footer) ==> {
                let other = zip_size(image, h as int, g);
                other < 32 || other > 8589934592 || other > c.max_size || h + other > image.len()
            },
        window == (if size <= 4096 {
            image.subrange(h as int, h + size)
        } else if size <= 65536 {
            image.subrange(h as int, h + 4096) + image.subrange(h as int, h + size)
        } else {
            image.subrange(h as int, h + 4096) + image.subrange(h + size - 65536, h + size)
        }),
        is_zip_kind(window, t),
    ensures
        is_given(plans, h as int, size, t, false),
{
    let table = signature_table();
    let si: usize = 6;
    let sig = table[6];
    entries_are_plain(6);
    let active = active_among(table, c.filter, table.len() as int);
    database_can_be_scanned(c.filter);
    assert(is_active(c.filter, sig.name));
    assert(active.contains(6int as usize));
    let header: Seq<u8> = seq![0x50, 0x4B, 0x03, 0x04];
    assert(sig.header =~= header);
    assert(sig.footer->0 =~= footer);
    let cap = size_cap(sig, c.max_size, image.len() as int, h as int);
    assert(image.subrange(h as int, h + 4) =~= sig.header);
    assert(image.subrange(f as int, f + 4) =~= footer);
    assert forall|g: int| 0 <= g implies file_end(image, sig, g) == zip_size(
        image,
        h as int,
        g,
    ) + h by {
        if g + 22 <= image.len() {
            let part = image.subrange(g + 20, g + 22);
            number_here(image, g + 20, part, 0, 2);
        }
    }
    assert forall|g: int| h < g < f && #[trigger] occurs_at(image, footer, g) implies !(sig.min_size
        <= file_end(image, sig, g) - h <= cap) by {
        assert forall|k: int| 0 <= k < footer.len()
            implies image[g + k] == #[trigger] footer[k] by {
            assert(image.subrange(g, g + footer.len())[k] == footer[k]);
        }
        assert(holds(image, g, footer));
    }
    assert(is_embedded(image, sig, c.max_size, h as int, f as int));
    let whole = whole_file(image, sig, h as int, f as int);
    window_tells_the_kind(window, t);
    assert(zip_window(image, h as int, size) == window);
    assert(validates(reader, sig, h as int, ("zip"@, "zip"@))) by {
        assert forall|v: Option<(Seq<char>, Seq<char>)>| #[trigger]
            validation_may(reader, sig, h as int, v) implies v == Some(("zip"@, "zip"@)) by {
            if v is None {
                zip_check_is_exact(reader, image, h as int, false);
            }
        }
    }
    embedded_files_are_planned(
        reader,
        image,
        c.block_size,
        c.chunk_size,
        table,
        active,
        progress,
        seen,
        found,
        c.max_size,
        c.filter,
        plans,
        si,
        h,
        f,
    );
    let p = choose|p: CarvePlan|
        {
            &&& #[trigger] p@ == whole
            &&& plans.contains(p) || covered(plans, p)
        };
    plan_is_given(plans, p);
}

// ---------------------------------------------------------------------------
// Formats with a size
// ---------------------------------------------------------------------------

/// A WAV file is given with the size that its RIFF header states.
pub proof fn wavs_are_given<R: ReadAt + ?Sized, F: FnMut(u64, usize)>(
    reader: &R,
    image: Seq<u8>,
    c: Choices,
    progress: F,
    seen: Seq<u8>,
    found: ScanResult,
    plans: Seq<CarvePlan>,
    h: u64,
)
    requires
        is_run(reader, image, c, progress, seen, found, plans),
        wants(c.filter, "wav"@),
        spells(image, h as int, "RIFF"@),
        h + 12 <= image.len(),
        spells(image, h + 8, "WAVE"@),
        64 <= little(image, h + 4, 4) + 8 <= 8589934592,
        little(image, h + 4, 4) + 8 <= c.max_size,
        h + little(image, h + 4, 4) + 8 <= image.len(),
    ensures
        is_given(plans, h as int, little(image, h + 4, 4) + 8, "wav"@, false),
{
    let sig = signature_table()[8];
    let size = little(image, h + 4, 4) + 8;
    entries_are_plain(8);
    assert forall|k: int| 0 <= k < sig.header.len()
        implies image[h + k] == #[trigger] sig.header[k] by {
        reveal_strlit("RIFF");
        let t = "RIFF"@;
        assert(image[h + k] as int == t[k] as int);
    }
    let cap = size_cap(sig, c.max_size, image.len() as int, h as int);
    assert forall|s: Option<int>| #[trigger]
        stated_size_may(reader, sig.parser, h as int, cap, s) implies s == Some(size) by {
        wav_size_is_of_its_field(reader, image, h as int, s);
    }
    sized_file_is_given(reader, image, c, progress, seen, found, plans, 8, h, h as int, "wav"@,
        cap, size);
}

/// A BMP file with a known kind of header is given with the size that it states.
pub proof fn bmps_are_given<R: ReadAt + ?Sized, F: FnMut(u64, usize)>(
    reader: &R,
    image: Seq<u8>,
    c: Choices,
    progress: F,
    seen: Seq<u8>,
    found: ScanResult,
    plans: Seq<CarvePlan>,
    h: u64,
)
    requires
        is_run(reader, image, c, progress, seen, found, plans),
        wants(c.filter, "bmp"@),
        spells(image, h as int, "BM"@),
        h + 26 <= image.len(),
        little(image, h + 6, 4) == 0,
        set![12int, 40, 52, 56, 108, 124].contains(little(image, h + 14, 4)),
        64 <= little(image, h + 2, 4) <= 268435456,
        little(image, h + 2, 4) <= c.max_size,
        h + little(image, h + 2, 4) <= image.len(),
    ensures
        is_given(plans, h as int, little(image, h + 2, 4), "bmp"@, false),
{
    let sig = signature_table()[10];
    let size = little(image, h + 2, 4);
    entries_are_plain(10);
    assert forall|k: int| 0 <= k < sig.header.len()
        implies image[h + k] == #[trigger] sig.header[k] by {
        reveal_strlit("BM");
        let t = "BM"@;
        assert(image[h + k] as int == t[k] as int);
    }
    let cap = size_cap(sig, c.max_size, image.len() as int, h as int);
    assert forall|s: Option<int>| #[trigger]
        stated_size_may(reader, sig.parser, h as int, cap, s) implies s == Some(size) by {
        bmp_size_is_of_its_field(reader, image, h as int, s);
    }
    sized_file_is_given(reader, image, c, progress, seen, found, plans, 10, h, h as int, "bmp"@,
        cap, size);
}

/// A 7z archive is given up to the end of its last header.
pub proof fn seven_zips_are_given<R: ReadAt + ?Sized, F: FnMut(u64, usize)>(
    reader: &R,
    image: Seq<u8>,
    c: Choices,
    progress: F,
    seen: Seq<u8>,
    found: ScanResult,
    plans: Seq<CarvePlan>,
    h: u64,
)
    requires
        is_run(reader, image, c, progress, seen, found, plans),
        wants(c.filter, "7z"@),
        holds(image, h as int, seq![0x37, 0x7A, 0xBC, 0xAF, 0x27, 0x1C]),
        h + 32 <= image.len(),
        little(image, h + 12, 8) <= 1099511627776,
        little(image, h + 20, 8) <= 17179869184,
        32 <= 32 + little(image, h + 12, 8) + little(image, h + 20, 8) <= 17179869184,
        32 + little(image, h + 12, 8) + little(image, h + 20, 8) <= c.max_size,
        h + 32 + little(image, h + 12, 8) + little(image, h + 20, 8) <= image.len(),
    ensures
        is_given(plans, h as int, 32 + little(image, h + 12, 8) + little(image, h + 20, 8),
            "7z"@, false),
{
    let sig = signature_table()[15];
    let size = 32 + little(image, h + 12, 8) + little(image, h + 20, 8);
    entries_are_plain(15);
    let header: Seq<u8> = seq![0x37, 0x7A, 0xBC, 0xAF, 0x27, 0x1C];
    assert(sig.header =~= header);
    let cap = size_cap(sig, c.max_size, image.len() as int, h as int);
    assert forall|s: Option<int>| #[trigger]
        stated_size_may(reader, sig.parser, h as int, cap, s) implies s == Some(size) by {
        seven_zip_size_reaches_its_last_header(reader, image, h as int, s);
    }
    sized_file_is_given(reader, image, c, progress, seen, found, plans, 15, h, h as int, "7z"@,
        cap, size);
}

/// A SQLite database is given with all of its pages.
pub proof fn sqlite_databases_are_given<R: ReadAt + ?Sized, F: FnMut(u64, usize)>(
    reader: &R,
    image: Seq<u8>,
    c: Choices,
    progress: F,
    seen: Seq<u8>,
    found: ScanResult,
    plans: Seq<CarvePlan>,
    h: u64,
    page: int,
)
    requires
        is_run(reader, image, c, progress, seen, found, plans),
        wants(c.filter, "sqlite"@),
        spells(image, h as int, "SQLite format 3"@),
        image[h + 15] == 0,
        h + 100 <= image.len(),
        page_sizes().contains(page),
        big(image, h + 16, 2) == (if page == 65536 {
            1
        } else {
            page
        }),
        image[h + 18] == 1 || image[h + 18] == 2,
        image[h + 19] == 1 || image[h + 19] == 2,
        big(image, h + 28, 4) > 0,
        512 <= page * big(image, h + 28, 4) <= 17179869184,
        page * big(image, h + 28, 4) <= c.max_size,
        h + page * big(image, h + 28, 4) <= image.len(),
    ensures
        is_given(plans, h as int, page * big(image, h + 28, 4), "sqlite"@, false),
{
    let sig = signature_table()[9];
    let size = page * big(image, h + 28, 4);
    entries_are_plain(9);
    assert forall|k: int| 0 <= k < sig.header.len()
        implies image[h + k] == #[trigger] sig.header[k] by {
        reveal_strlit("SQLite format 3");
        let t = "SQLite format 3"@;
        if k < 15 {
            assert(image[h + k] as int == t[k] as int);
        }
    }
    let cap = size_cap(sig, c.max_size, image.len() as int, h as int);
    assert forall|s: Option<int>| #[trigger]
        stated_size_may(reader, sig.parser, h as int, cap, s) implies s == Some(size) by {
        assert(big(image, h + 16, 2) == 1 <==> page == 65536);
        sqlite_size_is_pages(reader, image, h as int, page, s);
    }
    sized_file_is_given(reader, image, c, progress, seen, found, plans, 9, h, h as int,
        "sqlite"@, cap, size);
}

/// A GIF file that is put together from a header, a screen, a colour table,
/// blocks and the end is given with its length.
pub proof fn gifs_are_given<R: ReadAt + ?Sized, F: FnMut(u64, usize)>(
    reader: &R,
    image: Seq<u8>,
    c: Choices,
    progress: F,
    seen: Seq<u8>,
    found: ScanResult,
    plans: Seq<CarvePlan>,
    h: u64,
    header: Seq<u8>,
    packed: u8,
    screen: Seq<u8>,
    table: Seq<u8>,
    blocks: Seq<GifBlock>,
)
    requires
        is_run(reader, image, c, progress, seen, found, plans),
        wants(c.filter, "gif"@),
        spells(image, h as int, "GIF87a"@) || spells(image, h as int, "GIF89a"@),
        header.len() == 10,
        screen.len() == 2,
        is_table(table, packed),
        forall|k: int| 0 <= k < blocks.len() ==> is_block(#[trigger] blocks[k]),
        blocks.len() <= 1000000,
        holds(image, h as int, gif_bytes(header, packed, screen, table, blocks)),
        14 <= gif_bytes(header, packed, screen, table, blocks).len() <= 67108864,
        gif_bytes(header, packed, screen, table, blocks).len() <= c.max_size,
    ensures
        is_given(plans, h as int, gif_bytes(header, packed, screen, table, blocks).len() as int,
            "gif"@, false),
{
    reveal_strlit("GIF87a");
    reveal_strlit("GIF89a");
    let si: usize = if spells(image, h as int, "GIF87a"@) {
        3
    } else {
        4
    };
    let sig = signature_table()[si as int];
    let size = gif_bytes(header, packed, screen, table, blocks).len() as int;
    let t = if si == 3 {
        "GIF87a"@
    } else {
        "GIF89a"@
    };
    entries_are_plain(si as int);
    assert forall|k: int| 0 <= k < sig.header.len()
        implies image[h + k] == #[trigger] sig.header[k] by {
        assert(image[h + k] as int == t[k] as int);
    }
    let cap = size_cap(sig, c.max_size, image.len() as int, h as int);
    assert forall|s: Option<int>| #[trigger]
        stated_size_may(reader, sig.parser, h as int, cap, s) implies s == Some(size) by {
        gif_size_is_its_length(
            reader,
            image,
            h as int,
            cap,
            header,
            packed,
            screen,
            table,
            blocks,
            s,
        );
    }
    sized_file_is_given(reader, image, c, progress, seen, found, plans, si, h, h as int, "gif"@,
        cap, size);
}

/// An MP4 or MOV file that is a chain of boxes, the first of which names a brand
/// of its type and one of which holds media, is given with the size of its
/// boxes. Its start is that of the first box, four bytes before the name "ftyp".
pub proof fn movies_are_given<R: ReadAt + ?Sized, F: FnMut(u64, usize)>(
    reader: &R,
    image: Seq<u8>,
    c: Choices,
    progress: F,
    seen: Seq<u8>,
    found: ScanResult,
    plans: Seq<CarvePlan>,
    start: u64,
    sizes: Seq<int>,
    t: Seq<char>,
)
    requires
        is_run(reader, image, c, progress, seen, found, plans),
        wants(c.filter, t),
        start + 12 <= image.len(),
        spells(image, start + 4, "ftyp"@),
        8 <= big(image, start as int, 4) <= 1048576,
        t == "mov"@ && spells(image, start + 8, "qt  "@) || t == "mp4"@ && exists|m: int|
            #![trigger mp4_brands()[m]]
            0 <= m < mp4_brands().len() && spells(image, start + 8, mp4_brands()[m]),
        is_chain(image, start as int, sizes),
        0 < sizes.len() < 4096,
        has_media(image, start as int, sizes),
        no_box(image, start + sum(sizes)),
        32 <= sum(sizes) < 34359738368,
        sum(sizes) < c.max_size,
        start + sum(sizes) < image.len(),
    ensures
        is_given(plans, start as int, sum(sizes), t, false),
{
    reveal_strlit("ftyp");
    reveal_strlit("zip");
    let sig = signature_table()[5];
    let size = sum(sizes);
    let h = (start + 4) as u64;
    entries_are_plain(5);
    assert("ftyp"@.len() != "zip"@.len());
    assert forall|k: int| 0 <= k < sig.header.len()
        implies image[h + k] == #[trigger] sig.header[k] by {
        let name = "ftyp"@;
        assert(image[start + 4 + k] as int == name[k] as int);
    }
    assert(validates(reader, sig, start as int, (t, t))) by {
        assert forall|v: Option<(Seq<char>, Seq<char>)>| #[trigger]
            validation_may(reader, sig, start as int, v) implies v == Some((t, t)) by {
            let kind = match v {
                Some(x) => Some(x.0),
                None => None,
            };
            brand_check_is_exact(reader, image, start as int, kind);
        }
    }
    let cap = size_cap(sig, c.max_size, image.len() as int, start as int);
    assert forall|s: Option<int>| #[trigger]
        stated_size_may(reader, sig.parser, start as int, cap, s) implies s == Some(size) by {
        mp4_size_is_of_its_boxes(reader, image, start as int, cap, sizes, s);
    }
    sized_file_is_given(reader, image, c, progress, seen, found, plans, 5, h, start as int, t,
        cap, size);
}

// ---------------------------------------------------------------------------
// Formats with neither
// ---------------------------------------------------------------------------

/// An MP3 file with an ID3 tag is given up to the first bound, as cut off.
pub proof fn mp3s_are_given<R: ReadAt + ?Sized, F: FnMut(u64, usize)>(
    reader: &R,
    image: Seq<u8>,
    c: Choices,
    progress: F,
    seen: Seq<u8>,
    found: ScanResult,
    plans: Seq<CarvePlan>,
    h: u64,
    cap: int,
)
    requires
        is_run(reader, image, c, progress, seen, found, plans),
        wants(c.filter, "mp3"@),
        holds(image, h as int, seq![0x49, 0x44, 0x33]),
        h + 10 <= image.len(),
        2 <= image[h + 3] <= 4,
        forall|k: int| 6 <= k < 10 ==> #[trigger] image[h + k] < 128,
        is_least(cap, 67108864, c.max_size, image.len() - h),
        128 <= cap,
    ensures
        is_given(plans, h as int, cap, "mp3"@, true),
{
    let sig = signature_table()[7];
    entries_are_plain(7);
    let header: Seq<u8> = seq![0x49, 0x44, 0x33];
    assert(sig.header =~= header);
    assert(validates(reader, sig, h as int, ("mp3"@, "mp3"@))) by {
        assert forall|v: Option<(Seq<char>, Seq<char>)>| #[trigger]
            validation_may(reader, sig, h as int, v) implies v == Some(
            ("mp3"@, "mp3"@),
        ) by {
            if v is None {
                mp3_check_is_exact(reader, image, h as int, false);
            }
        }
    }
    sizeless_file_is_given(reader, image, c, progress, seen, found, plans, 7, h, "mp3"@, cap);
}

/// A TIFF file of either byte order is given up to the first bound, as cut off.
pub proof fn little_endian_tiffs_are_given<R: ReadAt + ?Sized, F: FnMut(u64, usize)>(
    reader: &R,
    image: Seq<u8>,
    c: Choices,
    progress: F,
    seen: Seq<u8>,
    found: ScanResult,
    plans: Seq<CarvePlan>,
    h: u64,
    cap: int,
)
    requires
        is_run(reader, image, c, progress, seen, found, plans),
        wants(c.filter, "tiff"@),
        holds(image, h as int, seq![0x49, 0x49, 0x2A, 0x00]),
        h + 8 <= image.len(),
        8 <= little(image, h + 4, 4) <= 268435456,
        is_least(cap, 1073741824, c.max_size, image.len() - h),
        32 <= cap,
    ensures
        is_given(plans, h as int, cap, "tiff"@, true),
{
    let sig = signature_table()[11];
    entries_are_plain(11);
    let header: Seq<u8> = seq![0x49, 0x49, 0x2A, 0x00];
    assert(sig.header =~= header);
    assert(validates(reader, sig, h as int, ("tiff"@, "tiff"@))) by {
        assert forall|v: Option<(Seq<char>, Seq<char>)>| #[trigger]
            validation_may(reader, sig, h as int, v) implies v == Some(
            ("tiff"@, "tiff"@),
        ) by {
            if v is None {
                tiff_check_is_exact(reader, image, h as int, sig.header, false);
            }
        }
    }
    sizeless_file_is_given(reader, image, c, progress, seen, found, plans, 11, h, "tiff"@, cap);
}

/// A TIFF file of either byte order is given up to the first bound, as cut off.
pub proof fn big_endian_tiffs_are_given<R: ReadAt + ?Sized, F: FnMut(u64, usize)>(
    reader: &R,
    image: Seq<u8>,
    c: Choices,
    progress: F,
    seen: Seq<u8>,
    found: ScanResult,
    plans: Seq<CarvePlan>,
    h: u64,
    cap: int,
)
    requires
        is_run(reader, image, c, progress, seen, found, plans),
        wants(c.filter, "tiff"@),
        holds(image, h as int, seq![0x4D, 0x4D, 0x00, 0x2A]),
        h + 8 <= image.len(),
        8 <= big(image, h + 4, 4) <= 268435456,
        is_least(cap, 1073741824, c.max_size, image.len() - h),
        32 <= cap,
    ensures
        is_given(plans, h as int, cap, "tiff"@, true),
{
    let sig = signature_table()[12];
    entries_are_plain(12);
    let header: Seq<u8> = seq![0x4D, 0x4D, 0x00, 0x2A];
    assert(sig.header =~= header);
    assert(validates(reader, sig, h as int, ("tiff"@, "tiff"@))) by {
        assert forall|v: Option<(Seq<char>, Seq<char>)>| #[trigger]
            validation_may(reader, sig, h as int, v) implies v == Some(
            ("tiff"@, "tiff"@),
        ) by {
            if v is None {
                tiff_check_is_exact(reader, image, h as int, sig.header, false);
            }
        }
    }
    sizeless_file_is_given(reader, image, c, progress, seen, found, plans, 12, h, "tiff"@, cap);
}

/// A RAR archive of version 4 is given up to the first bound, as cut off.
pub proof fn old_rars_are_given<R: ReadAt + ?Sized, F: FnMut(u64, usize)>(
    reader: &R,
    image: Seq<u8>,
    c: Choices,
    progress: F,
    seen: Seq<u8>,
    found: ScanResult,
    plans: Seq<CarvePlan>,
    h: u64,
    cap: int,
)
    requires
        is_run(reader, image, c, progress, seen, found, plans),
        wants(c.filter, "rar"@),
        holds(image, h as int, seq![0x52, 0x61, 0x72, 0x21, 0x1A, 0x07, 0x00]),
        is_least(cap, 8589934592, c.max_size, image.len() - h),
        32 <= cap,
    ensures
        is_given(plans, h as int, cap, "rar"@, true),
{
    let sig = signature_table()[13];
    entries_are_plain(13);
    let header: Seq<u8> = seq![0x52, 0x61, 0x72, 0x21, 0x1A, 0x07, 0x00];
    assert(sig.header =~= header);
    sizeless_file_is_given(reader, image, c, progress, seen, found, plans, 13, h, "rar"@, cap);
}

/// A RAR archive of version 5 is given up to the first bound, as cut off.
pub proof fn rars_are_given<R: ReadAt + ?Sized, F: FnMut(u64, usize)>(
    reader: &R,
    image: Seq<u8>,
    c: Choices,
    progress: F,
    seen: Seq<u8>,
    found: ScanResult,
    plans: Seq<CarvePlan>,
    h: u64,
    cap: int,
)
    requires
        is_run(reader, image, c, progress, seen, found, plans),
        wants(c.filter, "rar"@),
        holds(image, h as int, seq![0x52, 0x61, 0x72, 0x21, 0x1A, 0x07, 0x01, 0x00]),
        is_least(cap, 8589934592, c.max_size, image.len() - h),
        32 <= cap,
    ensures
        is_given(plans, h as int, cap, "rar"@, true),
{
    let sig = signature_table()[14];
    entries_are_plain(14);
    let header: Seq<u8> = seq![0x52, 0x61, 0x72, 0x21, 0x1A, 0x07, 0x01, 0x00];
    assert(sig.header =~= header);
    sizeless_file_is_given(reader, image, c, progress, seen, found, plans, 14, h, "rar"@, cap);
}

/// A GZIP file is given up to the first bound, as cut off.
pub proof fn gzips_are_given<R: ReadAt + ?Sized, F: FnMut(u64, usize)>(
    reader: &R,
    image: Seq<u8>,
    c: Choices,
    progress: F,
    seen: Seq<u8>,
    found: ScanResult,
    plans: Seq<CarvePlan>,
    h: u64,
    cap: int,
)
    requires
        is_run(reader, image, c, progress, seen, found, plans),
        wants(c.filter, "gz"@),
        holds(image, h as int, seq![0x1F, 0x8B]),
        h + 10 <= image.len(),
        image[h + 2] == 8,
        set![0u8, 2, 4].contains(image[h + 8]),
        set![0u8, 1, 2, 3, 6, 7, 11, 13, 255].contains(image[h + 9]),
        is_least(cap, 4294967296, c.max_size, image.len() - h),
        24 <= cap,
    ensures
        is_given(plans, h as int, cap, "gz"@, true),
{
    let sig = signature_table()[16];
    entries_are_plain(16);
    let header: Seq<u8> = seq![0x1F, 0x8B];
    assert(sig.header =~= header);
    assert(validates(reader, sig, h as int, ("gz"@, "gz"@))) by {
        assert forall|v: Option<(Seq<char>, Seq<char>)>| #[trigger]
            validation_may(reader, sig, h as int, v) implies v == Some(
            ("gz"@, "gz"@),
        ) by {
            if v is None {
                gz_check_is_exact(reader, image, h as int, false);
            }
        }
    }
    sizeless_file_is_given(reader, image, c, progress, seen, found, plans, 16, h, "gz"@, cap);
}

/// A BZIP2 file is given up to the first bound, as cut off.
pub proof fn bzip2s_are_given<R: ReadAt + ?Sized, F: FnMut(u64, usize)>(
    reader: &R,
    image: Seq<u8>,
    c: Choices,
    progress: F,
    seen: Seq<u8>,
    found: ScanResult,
    plans: Seq<CarvePlan>,
    h: u64,
    cap: int,
)
    requires
        is_run(reader, image, c, progress, seen, found, plans),
        wants(c.filter, "bz2"@),
        holds(image, h as int, seq![0x42, 0x5A, 0x68]),
        h + 10 <= image.len(),
        '1' as int <= image[h + 3] <= '9' as int,
        holds(image, h + 4, seq![0x31, 0x41, 0x59, 0x26, 0x53, 0x59]),
        is_least(cap, 4294967296, c.max_size, image.len() - h),
        24 <= cap,
    ensures
        is_given(plans, h as int, cap, "bz2"@, true),
{
    let sig = signature_table()[17];
    entries_are_plain(17);
    let header: Seq<u8> = seq![0x42, 0x5A, 0x68];
    assert(sig.header =~= header);
    assert(validates(reader, sig, h as int, ("bz2"@, "bz2"@))) by {
        assert forall|v: Option<(Seq<char>, Seq<char>)>| #[trigger]
            validation_may(reader, sig, h as int, v) implies v == Some(
            ("bz2"@, "bz2"@),
        ) by {
            if v is None {
                bz2_check_is_exact(reader, image, h as int, false);
            }
        }
    }
    sizeless_file_is_given(reader, image, c, progress, seen, found, plans, 17, h, "bz2"@, cap);
}

/// A binary property list is given up to the first bound, as cut off.
pub proof fn plists_are_given<R: ReadAt + ?Sized, F: FnMut(u64, usize)>(
    reader: &R,
    image: Seq<u8>,
    c: Choices,
    progress: F,
    seen: Seq<u8>,
    found: ScanResult,
    plans: Seq<CarvePlan>,
    h: u64,
    cap: int,
)
    requires
        is_run(reader, image, c, progress, seen, found, plans),
        wants(c.filter, "plist"@),
        holds(image, h as int, seq![0x62, 0x70, 0x6C, 0x69, 0x73, 0x74, 0x30, 0x30]),
        is_least(cap, 67108864, c.max_size, image.len() - h),
        16 <= cap,
    ensures
        is_given(plans, h as int, cap, "plist"@, true),
{
    let sig = signature_table()[18];
    entries_are_plain(18);
    let header: Seq<u8> = seq![0x62, 0x70, 0x6C, 0x69, 0x73, 0x74, 0x30, 0x30];
    assert(sig.header =~= header);
    sizeless_file_is_given(reader, image, c, progress, seen, found, plans, 18, h, "plist"@, cap);
}

} // verus!
