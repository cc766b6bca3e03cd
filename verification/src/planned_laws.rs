//! What the files that a run plans are: they begin as files of their type begin,
//! have the size that their bytes state or end with the footer of their format,
//! and are cut off only where a bound is.

use vstd::prelude::*;

use crate::box_laws::{
    has_media, is_chain, is_media, mp4_sizes_come_of_chains, no_box, runs_on, sum,
};
use crate::bytes::{big, little, occurs_at};
use crate::carver::{
    footers_of, plan_is_sound, plan_may, size_within_cap, stated_size_may, CarvePlan, PlanView,
};
use crate::choice_laws::{footer_of, stated_of};
use crate::disk::ReadAt;
use crate::format_laws::{
    brand_check_is_exact, bz2_check_is_exact, gz_check_is_exact, holds, jpeg_check_is_exact,
    mp3_check_is_exact, mp4_brands, number_here, spells, tiff_check_is_exact, zip_check_is_exact,
};
use crate::gif_laws::{
    gif_bytes, is_block, is_table, sized_gifs_are_put_together, GifParts,
};
use crate::header_laws::{
    bmp_size_is_of_its_field, page_sizes, seven_zip_size_reaches_its_last_header,
    sqlite_size_is_pages, wav_size_is_of_its_field,
};
use crate::plan_laws::truncated_files_reach_the_cap;
use crate::recovery_laws::file_end;
use crate::scanner::ScanResult;
use crate::signatures::{signature_table, SignatureView};
use crate::size_laws::gif_ends_with_its_trailer;
use crate::sound_laws::{footed_size, plan_has_an_origin, rests_on, type_tells_the_entry, Origin};
use crate::whole_laws::{begins_jpeg, entries_are_plain, is_least, is_run, wants, zip_size, Choices};

verus! {

// ---------------------------------------------------------------------------
// Bounds
// ---------------------------------------------------------------------------

/// Whether `size` keeps within the bounds of a file at `offset` of a source of
/// `end` bytes, and is a bound if the file is cut off there: the sizes that files
/// of its format have, the maximum that the user sets, and what is left of the
/// source.
pub open spec fn keeps_bounds(
    offset: int,
    size: int,
    truncated: bool,
    min: int,
    max: int,
    max_size: int,
    end: int,
) -> bool {
    &&& 0 <= offset
    &&& min <= size
    &&& size <= max
    &&& size <= max_size
    &&& offset + size <= end
    &&& truncated ==> size == max || size == max_size || offset + size == end
}

/// Whatever a source reads as, a planned file keeps within the three bounds, and
/// one that is cut off is cut off at one of them.
pub proof fn planned_sizes_keep_the_bounds<R: ReadAt + ?Sized>(
    reader: &R,
    disk_size: int,
    hit: int,
    sig: SignatureView,
    footers: Seq<u64>,
    max_size: int,
    filter: Option<Set<Seq<char>>>,
    plan: PlanView,
)
    requires
        0 <= hit,
        plan_may(reader, disk_size, hit, sig, footers, max_size, filter, Some(plan)),
    ensures
        keeps_bounds(
            plan.offset,
            plan.size,
            plan.truncated,
            sig.min_size as int,
            sig.max_size as int,
            max_size,
            disk_size,
        ),
{
    plan_is_sound(reader, disk_size, hit, sig, footers, max_size, filter, plan);
    truncated_files_reach_the_cap(
        reader,
        disk_size,
        hit,
        sig,
        footers,
        max_size,
        filter,
        plan,
    );
}

/// A planned file of a run keeps within its bounds.
proof fn bounds_of_plan<R: ReadAt + ?Sized>(
    reader: &R,
    image: Seq<u8>,
    c: Choices,
    found: ScanResult,
    p: PlanView,
    o: Origin,
)
    requires
        rests_on(reader, image, c, found, p, o),
    ensures
        keeps_bounds(
            p.offset,
            p.size,
            p.truncated,
            signature_table()[o.si as int].min_size as int,
            signature_table()[o.si as int].max_size as int,
            c.max_size,
            image.len() as int,
        ),
        p.truncated ==> p.size == o.cap,
{
    let sig = signature_table()[o.si as int];
    let footers = footers_of(found.footers@, o.si as int);
    let sized = Some((p.size, p.truncated));
    size_within_cap(reader, sig, footers, p.offset, o.cap, sized);
    let stated = stated_of(reader, sig, footers, p.offset, o.cap, sized);
    if stated is None && sig.footer is Some {
        footer_of(reader, sig, footers, p.offset, o.cap, (p.size, p.truncated));
    }
}

/// Whether a planned file has all that its type asks for but its end: its
/// extension is its type, the type is wanted, it starts with `header`, and it
/// keeps within its bounds.
pub open spec fn is_rightly_planned(
    image: Seq<u8>,
    c: Choices,
    plan: CarvePlan,
    header: Seq<u8>,
    min: int,
    max: int,
) -> bool {
    &&& plan.extension@ == plan.file_type@
    &&& wants(c.filter, plan.file_type@)
    &&& holds(image, plan.offset as int, header)
    &&& keeps_bounds(
        plan.offset as int,
        plan.size as int,
        plan.truncated,
        min,
        max,
        c.max_size,
        image.len() as int,
    )
}

/// Whether a planned file ends with the first footer that leaves it at least
/// `min` bytes; if it is cut off, no footer leaves it between `min` and the size
/// that it has been given.
pub open spec fn ends_with_footer(
    image: Seq<u8>,
    plan: CarvePlan,
    footer: Seq<u8>,
    min: int,
) -> bool {
    let start = plan.offset as int;
    let last = plan.offset + plan.size - footer.len();
    if plan.truncated {
        forall|g: int|
            start < g && #[trigger] holds(image, g, footer) ==> g + footer.len() - start < min || g
                + footer.len() - start > plan.size
    } else {
        &&& start < last
        &&& holds(image, last, footer)
        &&& forall|g: int|
            start < g < last && #[trigger] holds(image, g, footer) ==> g + footer.len() - start
                < min
    }
}

/// Whether a planned file has the size that its bytes state, or, if that passes
/// its bounds, is cut off at the least of them.
pub open spec fn has_size(
    image: Seq<u8>,
    c: Choices,
    plan: CarvePlan,
    max: int,
    stated: int,
) -> bool {
    if plan.truncated {
        plan.size < stated && is_least(
            plan.size as int,
            max,
            c.max_size,
            image.len() - plan.offset,
        )
    } else {
        plan.size == stated
    }
}

/// Whether a planned file is cut off at the least of its bounds.
pub open spec fn is_cut_off(image: Seq<u8>, c: Choices, plan: CarvePlan, max: int) -> bool {
    plan.truncated && is_least(plan.size as int, max, c.max_size, image.len() - plan.offset)
}

// ---------------------------------------------------------------------------
// Formats with a footer
// ---------------------------------------------------------------------------

/// The end of a file of a format with a footer of fixed length.
proof fn footer_ends_plan<R: ReadAt + ?Sized, F: FnMut(u64, usize)>(
    reader: &R,
    image: Seq<u8>,
    c: Choices,
    progress: F,
    seen: Seq<u8>,
    found: ScanResult,
    plans: Seq<CarvePlan>,
    k: int,
    o: Origin,
    footer: Seq<u8>,
)
    requires
        is_run(reader, image, c, progress, seen, found, plans),
        0 <= k < plans.len(),
        rests_on(reader, image, c, found, plans[k]@, o),
        o.si < 3,
        footer == signature_table()[o.si as int].footer->0,
        plans[k].file_type@ == signature_table()[o.si as int].name,
    ensures
        ends_with_footer(
            image,
            plans[k],
            footer,
            signature_table()[o.si as int].min_size as int,
        ),
{
    let sig = signature_table()[o.si as int];
    let p = plans[k]@;
    entries_are_plain(o.si as int);
    let f = footed_size(reader, image, c, progress, seen, found, plans, o, p);
    assert forall|g: int| #[trigger] holds(image, g, footer) implies occurs_at(
        image,
        footer,
        g,
    ) && file_end(image, sig, g) == g + footer.len() by {
        assert(image.subrange(g, g + footer.len()) =~= footer);
    }
    if !p.truncated {
        assert forall|j: int| 0 <= j < footer.len()
            implies image[f + j] == #[trigger] footer[j] by {
            assert(image.subrange(f, f + footer.len())[j] == footer[j]);
        }
    }
}

/// Every planned JPEG file starts with the header of one and a marker that begins
/// one, and ends with the first "end of image" that leaves it at least 512 bytes.
pub proof fn planned_jpegs_are_jpegs<R: ReadAt + ?Sized, F: FnMut(u64, usize)>(
    reader: &R,
    image: Seq<u8>,
    c: Choices,
    progress: F,
    seen: Seq<u8>,
    found: ScanResult,
    plans: Seq<CarvePlan>,
    k: int,
)
    requires
        is_run(reader, image, c, progress, seen, found, plans),
        0 <= k < plans.len(),
        plans[k].file_type@ == "jpg"@,
    ensures
        is_rightly_planned(image, c, plans[k], seq![0xFF, 0xD8, 0xFF], 512, 134217728),
        begins_jpeg(image, plans[k].offset as int),
        ends_with_footer(image, plans[k], seq![0xFF, 0xD9], 512),
{
    let o = plan_has_an_origin(reader, image, c, progress, seen, found, plans, k);
    let p = plans[k]@;
    type_tells_the_entry(reader, image, c, found, p, o, p.file_type);
    bounds_of_plan(reader, image, c, found, p, o);
    entries_are_plain(o.si as int);
    let sig = signature_table()[o.si as int];
    let header: Seq<u8> = seq![0xFF, 0xD8, 0xFF];
    assert(sig.header =~= header);
    let footer: Seq<u8> = seq![0xFF, 0xD9];
    assert(sig.footer->0 =~= footer);
    jpeg_check_is_exact(reader, image, p.offset, true);
    footer_ends_plan(reader, image, c, progress, seen, found, plans, k, o, footer);
}

/// Every planned PNG file starts with the header of one and ends with the first end
/// chunk that leaves it at least 64 bytes.
pub proof fn planned_pngs_are_pngs<R: ReadAt + ?Sized, F: FnMut(u64, usize)>(
    reader: &R,
    image: Seq<u8>,
    c: Choices,
    progress: F,
    seen: Seq<u8>,
    found: ScanResult,
    plans: Seq<CarvePlan>,
    k: int,
)
    requires
        is_run(reader, image, c, progress, seen, found, plans),
        0 <= k < plans.len(),
        plans[k].file_type@ == "png"@,
    ensures
        is_rightly_planned(image, c, plans[k], seq![0x89, 0x50, 0x4E, 0x47, 0x0D, 0x0A, 0x1A,
            0x0A], 64, 536870912),
        ends_with_footer(image, plans[k], seq![0x49, 0x45, 0x4E, 0x44, 0xAE, 0x42, 0x60, 0x82], 64),
{
    let o = plan_has_an_origin(reader, image, c, progress, seen, found, plans, k);
    let p = plans[k]@;
    type_tells_the_entry(reader, image, c, found, p, o, p.file_type);
    bounds_of_plan(reader, image, c, found, p, o);
    entries_are_plain(o.si as int);
    let sig = signature_table()[o.si as int];
    let header: Seq<u8> = seq![0x89, 0x50, 0x4E, 0x47, 0x0D, 0x0A, 0x1A, 0x0A];
    assert(sig.header =~= header);
    let footer: Seq<u8> = seq![0x49, 0x45, 0x4E, 0x44, 0xAE, 0x42, 0x60, 0x82];
    assert(sig.footer->0 =~= footer);
    footer_ends_plan(reader, image, c, progress, seen, found, plans, k, o, footer);
}

/// Every planned PDF file starts with the header of one and ends with the first end
/// mark that leaves it at least 128 bytes.
pub proof fn planned_pdfs_are_pdfs<R: ReadAt + ?Sized, F: FnMut(u64, usize)>(
    reader: &R,
    image: Seq<u8>,
    c: Choices,
    progress: F,
    seen: Seq<u8>,
    found: ScanResult,
    plans: Seq<CarvePlan>,
    k: int,
)
    requires
        is_run(reader, image, c, progress, seen, found, plans),
        0 <= k < plans.len(),
        plans[k].file_type@ == "pdf"@,
    ensures
        is_rightly_planned(image, c, plans[k], seq![0x25, 0x50, 0x44, 0x46, 0x2D], 128, 2147483648),
        ends_with_footer(image, plans[k], seq![0x25, 0x25, 0x45, 0x4F, 0x46], 128),
{
    let o = plan_has_an_origin(reader, image, c, progress, seen, found, plans, k);
    let p = plans[k]@;
    type_tells_the_entry(reader, image, c, found, p, o, p.file_type);
    bounds_of_plan(reader, image, c, found, p, o);
    entries_are_plain(o.si as int);
    let sig = signature_table()[o.si as int];
    let header: Seq<u8> = seq![0x25, 0x50, 0x44, 0x46, 0x2D];
    assert(sig.header =~= header);
    let footer: Seq<u8> = seq![0x25, 0x25, 0x45, 0x4F, 0x46];
    assert(sig.footer->0 =~= footer);
    footer_ends_plan(reader, image, c, progress, seen, found, plans, k, o, footer);
}

/// Every planned ZIP file, of whatever kind, starts with the header of a member and
/// ends with the comment of the first end record that leaves it within its bounds;
/// if it is cut off, no end record does.
pub proof fn planned_zips_are_zips<R: ReadAt + ?Sized, F: FnMut(u64, usize)>(
    reader: &R,
    image: Seq<u8>,
    c: Choices,
    progress: F,
    seen: Seq<u8>,
    found: ScanResult,
    plans: Seq<CarvePlan>,
    k: int,
    footer: Seq<u8>,
)
    requires
        is_run(reader, image, c, progress, seen, found, plans),
        0 <= k < plans.len(),
        plans[k].file_type@ == "zip"@ || plans[k].file_type@ == "docx"@
            || plans[k].file_type@ == "xlsx"@ || plans[k].file_type@ == "pptx"@,
        footer == seq![0x50u8, 0x4B, 0x05, 0x06],
    ensures
        is_rightly_planned(image, c, plans[k], seq![0x50, 0x4B, 0x03, 0x04], 32, 8589934592),
        plans[k].offset + 30 <= image.len(),
        little(image, plans[k].offset + 8, 2) <= 99,
        1 <= little(image, plans[k].offset + 26, 2) <= 1024,
        little(image, plans[k].offset + 28, 2) <= 8192,
        !plans[k].truncated ==> exists|f: int| plans[k].offset < f
            && #[trigger] holds(image, f, footer) && plans[k].size == zip_size(image,
            plans[k].offset as int, f),
        plans[k].truncated ==> is_cut_off(image, c, plans[k], 8589934592)
            && forall|g: int| plans[k].offset < g && #[trigger] holds(image, g, footer)
            ==> zip_size(image, plans[k].offset as int, g) < 32
            || zip_size(image, plans[k].offset as int, g) > plans[k].size,
{
    let o = plan_has_an_origin(reader, image, c, progress, seen, found, plans, k);
    let p = plans[k]@;
    type_tells_the_entry(reader, image, c, found, p, o, p.file_type);
    bounds_of_plan(reader, image, c, found, p, o);
    entries_are_plain(o.si as int);
    let sig = signature_table()[o.si as int];
    let header: Seq<u8> = seq![0x50, 0x4B, 0x03, 0x04];
    assert(sig.header =~= header);
    assert(sig.footer->0 =~= footer);
    zip_check_is_exact(reader, image, p.offset, true);
    let f = footed_size(reader, image, c, progress, seen, found, plans, o, p);
    assert forall|g: int| #[trigger] holds(image, g, footer) implies occurs_at(
        image,
        footer,
        g,
    ) && file_end(image, sig, g) == p.offset + zip_size(image, p.offset, g) by {
        assert(image.subrange(g, g + 4) =~= footer);
        if g + 22 <= image.len() {
            number_here(image, g + 20, image.subrange(g + 20, g + 22), 0, 2);
        }
    }
    if !p.truncated {
        assert forall|j: int| 0 <= j < 4 implies image[f + j] == #[trigger] footer[j] by {
            assert(image.subrange(f, f + 4)[j] == footer[j]);
        }
        assert(holds(image, f, footer));
    }
}

// ---------------------------------------------------------------------------
// Formats that state their size
// ---------------------------------------------------------------------------

/// What a file of a format that states its size has been given.
proof fn stated_for<R: ReadAt + ?Sized>(
    reader: &R,
    image: Seq<u8>,
    c: Choices,
    found: ScanResult,
    p: PlanView,
    o: Origin,
) -> (stated: Option<int>)
    requires
        rests_on(reader, image, c, found, p, o),
        signature_table()[o.si as int].footer is None,
    ensures
        stated_size_may(reader, signature_table()[o.si as int].parser, p.offset, o.cap, stated),
        match stated {
            Some(s) => if s > o.cap || (s == o.cap && o.si == 5) {
                p.size == o.cap && p.truncated
            } else {
                p.size == s && !p.truncated
            },
            None => p.size == o.cap && p.truncated && o.si != 3 && o.si != 4 && o.si != 5 && o.si
                != 8 && o.si != 10,
        },
{
    let sig = signature_table()[o.si as int];
    stated_of(
        reader,
        sig,
        footers_of(found.footers@, o.si as int),
        p.offset,
        o.cap,
        Some((p.size, p.truncated)),
    )
}

/// Every planned WAV file is a RIFF file of form "WAVE" and has the size that its
/// size field gives.
pub proof fn planned_wavs_are_wavs<R: ReadAt + ?Sized, F: FnMut(u64, usize)>(
    reader: &R,
    image: Seq<u8>,
    c: Choices,
    progress: F,
    seen: Seq<u8>,
    found: ScanResult,
    plans: Seq<CarvePlan>,
    k: int,
)
    requires
        is_run(reader, image, c, progress, seen, found, plans),
        0 <= k < plans.len(),
        plans[k].file_type@ == "wav"@,
    ensures
        is_rightly_planned(image, c, plans[k], seq![0x52, 0x49, 0x46, 0x46], 64, 8589934592),
        plans[k].offset + 12 <= image.len(),
        spells(image, plans[k].offset + 8, "WAVE"@),
        has_size(image, c, plans[k], 8589934592, little(image, plans[k].offset + 4, 4) + 8),
{
    let o = plan_has_an_origin(reader, image, c, progress, seen, found, plans, k);
    let p = plans[k]@;
    type_tells_the_entry(reader, image, c, found, p, o, p.file_type);
    bounds_of_plan(reader, image, c, found, p, o);
    entries_are_plain(o.si as int);
    let sig = signature_table()[o.si as int];
    let header: Seq<u8> = seq![0x52, 0x49, 0x46, 0x46];
    assert(sig.header =~= header);
    let stated = stated_for(reader, image, c, found, p, o);
    wav_size_is_of_its_field(reader, image, p.offset, stated);
}

/// Every planned BMP file has the size that its header gives, and a header of one of
/// the known lengths.
pub proof fn planned_bmps_are_bmps<R: ReadAt + ?Sized, F: FnMut(u64, usize)>(
    reader: &R,
    image: Seq<u8>,
    c: Choices,
    progress: F,
    seen: Seq<u8>,
    found: ScanResult,
    plans: Seq<CarvePlan>,
    k: int,
)
    requires
        is_run(reader, image, c, progress, seen, found, plans),
        0 <= k < plans.len(),
        plans[k].file_type@ == "bmp"@,
    ensures
        is_rightly_planned(image, c, plans[k], seq![0x42, 0x4D], 64, 268435456),
        plans[k].offset + 26 <= image.len(),
        little(image, plans[k].offset + 6, 4) == 0,
        set![12int, 40, 52, 56, 108, 124].contains(little(image, plans[k].offset + 14, 4)),
        has_size(image, c, plans[k], 268435456, little(image, plans[k].offset + 2, 4)),
{
    let o = plan_has_an_origin(reader, image, c, progress, seen, found, plans, k);
    let p = plans[k]@;
    type_tells_the_entry(reader, image, c, found, p, o, p.file_type);
    bounds_of_plan(reader, image, c, found, p, o);
    entries_are_plain(o.si as int);
    let sig = signature_table()[o.si as int];
    let header: Seq<u8> = seq![0x42, 0x4D];
    assert(sig.header =~= header);
    let stated = stated_for(reader, image, c, found, p, o);
    bmp_size_is_of_its_field(reader, image, p.offset, stated);
}

/// Every planned SQLite database has as many bytes as its pages, if its header is
/// sound; else it is cut off at the least of its bounds.
pub proof fn planned_databases_are_databases<R: ReadAt + ?Sized, F: FnMut(u64, usize)>(
    reader: &R,
    image: Seq<u8>,
    c: Choices,
    progress: F,
    seen: Seq<u8>,
    found: ScanResult,
    plans: Seq<CarvePlan>,
    k: int,
    page: int,
)
    requires
        is_run(reader, image, c, progress, seen, found, plans),
        0 <= k < plans.len(),
        plans[k].file_type@ == "sqlite"@,
    ensures
        plans[k].extension@ == "sqlite"@,
        wants(c.filter, "sqlite"@),
        spells(image, plans[k].offset as int, "SQLite format 3\0"@),
        keeps_bounds(plans[k].offset as int, plans[k].size as int, plans[k].truncated, 512,
            17179869184, c.max_size, image.len() as int),
        page == (if big(image, plans[k].offset + 16, 2) == 1 { 65536 } else { big(image,
            plans[k].offset + 16, 2) }) ==> if plans[k].offset + 100 <= image.len()
            && page_sizes().contains(page) && (image[plans[k].offset + 18] == 1
            || image[plans[k].offset + 18] == 2) && (image[plans[k].offset + 19] == 1
            || image[plans[k].offset + 19] == 2) && big(image, plans[k].offset + 28,
            4) > 0 { has_size(image, c, plans[k], 17179869184, page * big(image,
            plans[k].offset + 28, 4)) } else { is_cut_off(image, c, plans[k], 17179869184) },
{
    let o = plan_has_an_origin(reader, image, c, progress, seen, found, plans, k);
    let p = plans[k]@;
    type_tells_the_entry(reader, image, c, found, p, o, p.file_type);
    bounds_of_plan(reader, image, c, found, p, o);
    entries_are_plain(o.si as int);
    let sig = signature_table()[o.si as int];
    reveal_strlit("SQLite format 3\0");
    let name = "SQLite format 3\0"@;
    assert forall|j: int| 0 <= j < name.len() implies image[p.offset + j] as int
        == #[trigger] name[j] as int by {
        assert(image[o.h + j] == sig.header[j]);
    }
    let stated = stated_for(reader, image, c, found, p, o);
    if page == (if big(image, p.offset + 16, 2) == 1 {
        65536
    } else {
        big(image, p.offset + 16, 2)
    }) {
        sqlite_size_is_pages(reader, image, p.offset, page, stated);
    }
}

/// Every planned 7z archive reaches to the end of its last header, if its start
/// header is sound; else it is cut off at the least of its bounds.
pub proof fn planned_seven_zips_are_seven_zips<R: ReadAt + ?Sized, F: FnMut(u64, usize)>(
    reader: &R,
    image: Seq<u8>,
    c: Choices,
    progress: F,
    seen: Seq<u8>,
    found: ScanResult,
    plans: Seq<CarvePlan>,
    k: int,
)
    requires
        is_run(reader, image, c, progress, seen, found, plans),
        0 <= k < plans.len(),
        plans[k].file_type@ == "7z"@,
    ensures
        is_rightly_planned(image, c, plans[k], seq![0x37, 0x7A, 0xBC, 0xAF, 0x27, 0x1C], 32,
            17179869184),
        if plans[k].offset + 32 <= image.len() && little(image, plans[k].offset + 12,
            8) <= 1099511627776 && little(image, plans[k].offset + 20,
            8) <= 17179869184 { has_size(image, c, plans[k], 17179869184, 32 + little(image,
            plans[k].offset + 12, 8) + little(image, plans[k].offset + 20,
            8)) } else { is_cut_off(image, c, plans[k], 17179869184) },
{
    let o = plan_has_an_origin(reader, image, c, progress, seen, found, plans, k);
    let p = plans[k]@;
    type_tells_the_entry(reader, image, c, found, p, o, p.file_type);
    bounds_of_plan(reader, image, c, found, p, o);
    entries_are_plain(o.si as int);
    let sig = signature_table()[o.si as int];
    let header: Seq<u8> = seq![0x37, 0x7A, 0xBC, 0xAF, 0x27, 0x1C];
    assert(sig.header =~= header);
    let stated = stated_for(reader, image, c, found, p, o);
    seven_zip_size_reaches_its_last_header(reader, image, p.offset, stated);
}

/// Every planned GIF file starts with one of the two headers, ends with the trailer
/// and is whole.
pub proof fn planned_gifs_are_gifs<R: ReadAt + ?Sized, F: FnMut(u64, usize)>(
    reader: &R,
    image: Seq<u8>,
    c: Choices,
    progress: F,
    seen: Seq<u8>,
    found: ScanResult,
    plans: Seq<CarvePlan>,
    k: int,
)
    requires
        is_run(reader, image, c, progress, seen, found, plans),
        0 <= k < plans.len(),
        plans[k].file_type@ == "gif"@,
    ensures
        plans[k].extension@ == "gif"@,
        wants(c.filter, "gif"@),
        spells(image, plans[k].offset as int, "GIF87a"@) || spells(image, plans[k].offset as int,
            "GIF89a"@),
        keeps_bounds(plans[k].offset as int, plans[k].size as int, false, 14, 67108864,
            c.max_size, image.len() as int),
        !plans[k].truncated,
        image[plans[k].offset + plans[k].size - 1] == 0x3B,
{
    let o = plan_has_an_origin(reader, image, c, progress, seen, found, plans, k);
    let p = plans[k]@;
    type_tells_the_entry(reader, image, c, found, p, o, p.file_type);
    bounds_of_plan(reader, image, c, found, p, o);
    entries_are_plain(o.si as int);
    let sig = signature_table()[o.si as int];
    reveal_strlit("GIF87a");
    reveal_strlit("GIF89a");
    let name = if o.si == 3 {
        "GIF87a"@
    } else {
        "GIF89a"@
    };
    assert forall|j: int| 0 <= j < name.len() implies image[p.offset + j] as int
        == #[trigger] name[j] as int by {
        assert(image[o.h + j] == sig.header[j]);
    }
    assert(spells(image, p.offset, name));
    let stated = stated_for(reader, image, c, found, p, o);
    gif_ends_with_its_trailer(reader, image, p.offset, o.cap, stated->0);
}

/// Every planned MP4 or QuickTime movie starts with a file type box whose brand tells
/// its type.
pub proof fn planned_movies_are_movies<R: ReadAt + ?Sized, F: FnMut(u64, usize)>(
    reader: &R,
    image: Seq<u8>,
    c: Choices,
    progress: F,
    seen: Seq<u8>,
    found: ScanResult,
    plans: Seq<CarvePlan>,
    k: int,
)
    requires
        is_run(reader, image, c, progress, seen, found, plans),
        0 <= k < plans.len(),
        plans[k].file_type@ == "mp4"@ || plans[k].file_type@ == "mov"@,
    ensures
        plans[k].extension@ == plans[k].file_type@,
        wants(c.filter, plans[k].file_type@),
        plans[k].offset + 12 <= image.len(),
        spells(image, plans[k].offset + 4, "ftyp"@),
        8 <= big(image, plans[k].offset as int, 4) <= 1048576,
        plans[k].file_type@ == "mov"@ ==> spells(image, plans[k].offset + 8, "qt  "@),
        plans[k].file_type@ == "mp4"@
            ==> exists|m: int| #![trigger mp4_brands()[m]] 0 <= m < mp4_brands().len()
            && spells(image, plans[k].offset + 8, mp4_brands()[m]),
        keeps_bounds(plans[k].offset as int, plans[k].size as int, plans[k].truncated, 32,
            34359738368, c.max_size, image.len() as int),
{
    let o = plan_has_an_origin(reader, image, c, progress, seen, found, plans, k);
    let p = plans[k]@;
    type_tells_the_entry(reader, image, c, found, p, o, p.file_type);
    bounds_of_plan(reader, image, c, found, p, o);
    entries_are_plain(o.si as int);
    let sig = signature_table()[o.si as int];
    reveal_strlit("ftyp");
    let name = "ftyp"@;
    assert forall|j: int| 0 <= j < name.len() implies image[p.offset + 4 + j] as int
        == #[trigger] name[j] as int by {
        assert(image[o.h + j] == sig.header[j]);
    }
    brand_check_is_exact(reader, image, p.offset, Some(o.verdict.0));
}

/// Every planned GIF file is put together like one, from its first byte to its last.
pub proof fn planned_gifs_are_put_together<R: ReadAt + ?Sized, F: FnMut(u64, usize)>(
    reader: &R,
    image: Seq<u8>,
    c: Choices,
    progress: F,
    seen: Seq<u8>,
    found: ScanResult,
    plans: Seq<CarvePlan>,
    k: int,
) -> (parts: GifParts)
    requires
        is_run(reader, image, c, progress, seen, found, plans),
        0 <= k < plans.len(),
        plans[k].file_type@ == "gif"@,
    ensures
        parts.header.len() == 10,
        parts.screen.len() == 2,
        is_table(parts.table, parts.packed),
        forall|j: int| 0 <= j < parts.blocks.len() ==> is_block(#[trigger] parts.blocks[j]),
        image.subrange(plans[k].offset as int, plans[k].offset + plans[k].size) == gif_bytes(
            parts.header,
            parts.packed,
            parts.screen,
            parts.table,
            parts.blocks,
        ),
{
    let o = plan_has_an_origin(reader, image, c, progress, seen, found, plans, k);
    let p = plans[k]@;
    type_tells_the_entry(reader, image, c, found, p, o, p.file_type);
    let stated = stated_for(reader, image, c, found, p, o);
    gif_ends_with_its_trailer(reader, image, p.offset, o.cap, stated->0);
    sized_gifs_are_put_together(reader, image, p.offset, o.cap, stated->0)
}

/// Every planned movie is a chain of boxes, of which one holds media data or
/// describes a movie. It has the size of its boxes together; if it is cut off, the
/// box after them runs up to the least of its bounds or beyond.
pub proof fn planned_movies_are_chains<R: ReadAt + ?Sized, F: FnMut(u64, usize)>(
    reader: &R,
    image: Seq<u8>,
    c: Choices,
    progress: F,
    seen: Seq<u8>,
    found: ScanResult,
    plans: Seq<CarvePlan>,
    k: int,
) -> (sizes: Seq<int>)
    requires
        is_run(reader, image, c, progress, seen, found, plans),
        0 <= k < plans.len(),
        plans[k].file_type@ == "mp4"@ || plans[k].file_type@ == "mov"@,
    ensures
        is_chain(image, plans[k].offset as int, sizes),
        sizes.len() <= 4096,
        !plans[k].truncated ==> {
            &&& plans[k].size == sum(sizes)
            &&& has_media(image, plans[k].offset as int, sizes)
            &&& sizes.len() == 4096 || no_box(image, plans[k].offset + plans[k].size)
        },
        plans[k].truncated ==> {
            &&& is_cut_off(image, c, plans[k], 34359738368)
            &&& sum(sizes) < plans[k].size
            &&& runs_on(
                image,
                plans[k].offset + sum(sizes),
                plans[k].offset + plans[k].size,
            )
            &&& has_media(image, plans[k].offset as int, sizes) || is_media(
                image,
                plans[k].offset + sum(sizes),
            )
        },
{
    let o = plan_has_an_origin(reader, image, c, progress, seen, found, plans, k);
    let p = plans[k]@;
    type_tells_the_entry(reader, image, c, found, p, o, p.file_type);
    bounds_of_plan(reader, image, c, found, p, o);
    let stated = stated_for(reader, image, c, found, p, o);
    mp4_sizes_come_of_chains(reader, image, p.offset, o.cap, stated)
}

// ---------------------------------------------------------------------------
// Formats without a size
// ---------------------------------------------------------------------------

/// Every planned MP3 file starts with an ID3 tag of a known version and is cut off at
/// the least of its bounds.
pub proof fn planned_mp3s_are_mp3s<R: ReadAt + ?Sized, F: FnMut(u64, usize)>(
    reader: &R,
    image: Seq<u8>,
    c: Choices,
    progress: F,
    seen: Seq<u8>,
    found: ScanResult,
    plans: Seq<CarvePlan>,
    k: int,
)
    requires
        is_run(reader, image, c, progress, seen, found, plans),
        0 <= k < plans.len(),
        plans[k].file_type@ == "mp3"@,
    ensures
        is_rightly_planned(image, c, plans[k], seq![0x49, 0x44, 0x33], 128, 67108864),
        image[plans[k].offset + 3] == 2 || image[plans[k].offset + 3] == 3
            || image[plans[k].offset + 3] == 4,
        forall|j: int| 6 <= j < 10 ==> #[trigger] image[plans[k].offset + j] < 128,
        is_cut_off(image, c, plans[k], 67108864),
{
    let o = plan_has_an_origin(reader, image, c, progress, seen, found, plans, k);
    let p = plans[k]@;
    type_tells_the_entry(reader, image, c, found, p, o, p.file_type);
    bounds_of_plan(reader, image, c, found, p, o);
    entries_are_plain(o.si as int);
    let sig = signature_table()[o.si as int];
    let header: Seq<u8> = seq![0x49, 0x44, 0x33];
    assert(sig.header =~= header);
    let stated = stated_for(reader, image, c, found, p, o);
    mp3_check_is_exact(reader, image, p.offset, true);
}

/// Every planned GZIP file is deflated and names a known system, and is cut off at
/// the least of its bounds.
pub proof fn planned_gzips_are_gzips<R: ReadAt + ?Sized, F: FnMut(u64, usize)>(
    reader: &R,
    image: Seq<u8>,
    c: Choices,
    progress: F,
    seen: Seq<u8>,
    found: ScanResult,
    plans: Seq<CarvePlan>,
    k: int,
)
    requires
        is_run(reader, image, c, progress, seen, found, plans),
        0 <= k < plans.len(),
        plans[k].file_type@ == "gz"@,
    ensures
        is_rightly_planned(image, c, plans[k], seq![0x1F, 0x8B], 24, 4294967296),
        image[plans[k].offset + 2] == 8,
        set![0u8, 2, 4].contains(image[plans[k].offset + 8]),
        set![0u8, 1, 2, 3, 6, 7, 11, 13, 255].contains(image[plans[k].offset + 9]),
        is_cut_off(image, c, plans[k], 4294967296),
{
    let o = plan_has_an_origin(reader, image, c, progress, seen, found, plans, k);
    let p = plans[k]@;
    type_tells_the_entry(reader, image, c, found, p, o, p.file_type);
    bounds_of_plan(reader, image, c, found, p, o);
    entries_are_plain(o.si as int);
    let sig = signature_table()[o.si as int];
    let header: Seq<u8> = seq![0x1F, 0x8B];
    assert(sig.header =~= header);
    let stated = stated_for(reader, image, c, found, p, o);
    gz_check_is_exact(reader, image, p.offset, true);
}

/// Every planned BZIP2 file has a level from 1 to 9 and then the magic number of a
/// block, and is cut off at the least of its bounds.
pub proof fn planned_bzip2s_are_bzip2s<R: ReadAt + ?Sized, F: FnMut(u64, usize)>(
    reader: &R,
    image: Seq<u8>,
    c: Choices,
    progress: F,
    seen: Seq<u8>,
    found: ScanResult,
    plans: Seq<CarvePlan>,
    k: int,
)
    requires
        is_run(reader, image, c, progress, seen, found, plans),
        0 <= k < plans.len(),
        plans[k].file_type@ == "bz2"@,
    ensures
        is_rightly_planned(image, c, plans[k], seq![0x42, 0x5A, 0x68], 24, 4294967296),
        '1' as int <= image[plans[k].offset + 3] <= '9' as int,
        holds(image, plans[k].offset + 4, seq![0x31, 0x41, 0x59, 0x26, 0x53, 0x59]),
        is_cut_off(image, c, plans[k], 4294967296),
{
    let o = plan_has_an_origin(reader, image, c, progress, seen, found, plans, k);
    let p = plans[k]@;
    type_tells_the_entry(reader, image, c, found, p, o, p.file_type);
    bounds_of_plan(reader, image, c, found, p, o);
    entries_are_plain(o.si as int);
    let sig = signature_table()[o.si as int];
    let header: Seq<u8> = seq![0x42, 0x5A, 0x68];
    assert(sig.header =~= header);
    let stated = stated_for(reader, image, c, found, p, o);
    bz2_check_is_exact(reader, image, p.offset, true);
}

/// Every planned property list starts as a binary one of version 0 does, and is cut
/// off at the least of its bounds.
pub proof fn planned_lists_are_lists<R: ReadAt + ?Sized, F: FnMut(u64, usize)>(
    reader: &R,
    image: Seq<u8>,
    c: Choices,
    progress: F,
    seen: Seq<u8>,
    found: ScanResult,
    plans: Seq<CarvePlan>,
    k: int,
)
    requires
        is_run(reader, image, c, progress, seen, found, plans),
        0 <= k < plans.len(),
        plans[k].file_type@ == "plist"@,
    ensures
        is_rightly_planned(image, c, plans[k], seq![0x62, 0x70, 0x6C, 0x69, 0x73, 0x74, 0x30,
            0x30], 16, 67108864),
        is_cut_off(image, c, plans[k], 67108864),
{
    let o = plan_has_an_origin(reader, image, c, progress, seen, found, plans, k);
    let p = plans[k]@;
    type_tells_the_entry(reader, image, c, found, p, o, p.file_type);
    bounds_of_plan(reader, image, c, found, p, o);
    entries_are_plain(o.si as int);
    let sig = signature_table()[o.si as int];
    let header: Seq<u8> = seq![0x62, 0x70, 0x6C, 0x69, 0x73, 0x74, 0x30, 0x30];
    assert(sig.header =~= header);
    let stated = stated_for(reader, image, c, found, p, o);
}

/// Every planned TIFF file starts with the header of one of the two byte orders, and
/// in that order with a credible offset of its first directory; it is cut off at the
/// least of its bounds.
pub proof fn planned_tiffs_are_tiffs<R: ReadAt + ?Sized, F: FnMut(u64, usize)>(
    reader: &R,
    image: Seq<u8>,
    c: Choices,
    progress: F,
    seen: Seq<u8>,
    found: ScanResult,
    plans: Seq<CarvePlan>,
    k: int,
)
    requires
        is_run(reader, image, c, progress, seen, found, plans),
        0 <= k < plans.len(),
        plans[k].file_type@ == "tiff"@,
    ensures
        is_rightly_planned(image, c, plans[k], seq![0x49, 0x49, 0x2A, 0x00], 32, 1073741824)
            && 8 <= little(image, plans[k].offset + 4, 4) <= 268435456
            || is_rightly_planned(image, c, plans[k], seq![0x4D, 0x4D, 0x00, 0x2A], 32,
            1073741824) && 8 <= big(image, plans[k].offset + 4, 4) <= 268435456,
        is_cut_off(image, c, plans[k], 1073741824),
{
    let o = plan_has_an_origin(reader, image, c, progress, seen, found, plans, k);
    let p = plans[k]@;
    type_tells_the_entry(reader, image, c, found, p, o, p.file_type);
    bounds_of_plan(reader, image, c, found, p, o);
    entries_are_plain(o.si as int);
    let sig = signature_table()[o.si as int];
    let intel: Seq<u8> = seq![0x49, 0x49, 0x2A, 0x00];
    let motorola: Seq<u8> = seq![0x4D, 0x4D, 0x00, 0x2A];
    assert(o.si == 11 ==> sig.header =~= intel);
    assert(o.si == 12 ==> sig.header =~= motorola);
    let stated = stated_for(reader, image, c, found, p, o);
    tiff_check_is_exact(reader, image, p.offset, sig.header, true);
}

/// Every planned RAR archive starts with the header of one of the two versions, and
/// is cut off at the least of its bounds.
pub proof fn planned_rars_are_rars<R: ReadAt + ?Sized, F: FnMut(u64, usize)>(
    reader: &R,
    image: Seq<u8>,
    c: Choices,
    progress: F,
    seen: Seq<u8>,
    found: ScanResult,
    plans: Seq<CarvePlan>,
    k: int,
)
    requires
        is_run(reader, image, c, progress, seen, found, plans),
        0 <= k < plans.len(),
        plans[k].file_type@ == "rar"@,
    ensures
        is_rightly_planned(image, c, plans[k], seq![0x52, 0x61, 0x72, 0x21, 0x1A, 0x07, 0x00],
            32, 8589934592) || is_rightly_planned(image, c, plans[k], seq![0x52, 0x61, 0x72,
            0x21, 0x1A, 0x07, 0x01, 0x00], 32, 8589934592),
        is_cut_off(image, c, plans[k], 8589934592),
{
    let o = plan_has_an_origin(reader, image, c, progress, seen, found, plans, k);
    let p = plans[k]@;
    type_tells_the_entry(reader, image, c, found, p, o, p.file_type);
    bounds_of_plan(reader, image, c, found, p, o);
    entries_are_plain(o.si as int);
    let sig = signature_table()[o.si as int];
    let old_one: Seq<u8> = seq![0x52, 0x61, 0x72, 0x21, 0x1A, 0x07, 0x00];
    let new_one: Seq<u8> = seq![0x52, 0x61, 0x72, 0x21, 0x1A, 0x07, 0x01, 0x00];
    assert(o.si == 13 ==> sig.header =~= old_one);
    assert(o.si == 14 ==> sig.header =~= new_one);
    let stated = stated_for(reader, image, c, found, p, o);
}

/// There are no other types.
pub proof fn planned_types_are_known<R: ReadAt + ?Sized, F: FnMut(u64, usize)>(
    reader: &R,
    image: Seq<u8>,
    c: Choices,
    progress: F,
    seen: Seq<u8>,
    found: ScanResult,
    plans: Seq<CarvePlan>,
    k: int,
)
    requires
        is_run(reader, image, c, progress, seen, found, plans),
        0 <= k < plans.len(),
    ensures
        set!["jpg"@, "png"@, "pdf"@, "gif"@, "mp4"@, "mov"@, "zip"@, "docx"@, "xlsx"@, "pptx"@,
            "mp3"@, "wav"@, "sqlite"@, "bmp"@, "tiff"@, "rar"@, "7z"@, "gz"@, "bz2"@,
            "plist"@].contains(plans[k].file_type@),
{
    let o = plan_has_an_origin(reader, image, c, progress, seen, found, plans, k);
    let p = plans[k]@;
    type_tells_the_entry(reader, image, c, found, p, o, p.file_type);
    bounds_of_plan(reader, image, c, found, p, o);
    entries_are_plain(o.si as int);
    let sig = signature_table()[o.si as int];
}

} // verus!
