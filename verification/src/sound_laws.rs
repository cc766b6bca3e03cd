//! What every planned file of a run over an image rests on: a header in the image,
//! a verdict, the least of its bounds and, where its format has one, a footer.

use vstd::prelude::*;
use vstd::relations::sorted_by;

use crate::bytes::occurs_at;
use crate::carver::{
    ascending_offsets, covered, file_start, footer_end_may, footer_search_may, footers_of,
    hits_planned, plan_view, size_cap, size_may, validation_may, CarvePlan, PlanView,
};
use crate::choice_laws::{accepted_size, footer_of, stated_of, verdict_of};
use crate::disk::{reads_image, ReadAt};
use crate::filter::{active_among, is_active};
use crate::format_laws::{brand_check_is_exact, holds};
use crate::plan_laws::{database_can_be_scanned, plans_are_those_of_hits};
use crate::recovery_laws::{file_end, footers_are_found, image_footer_ends};
use crate::scan_laws::{image_is_seen_as_it_is, scan_finds_every_match, stands_at};
use crate::scanner::{block_used, chunk_used, ScanResult};
use crate::signatures::{signature_table, SignatureView, SizeParser, Validator};
use crate::sizes::zip_type_may;
use crate::steady_laws::planned_by;
use crate::text::texts;
use crate::whole_laws::{entries_are_plain, is_least, is_run, wants, Choices};

verus! {

/// What a plan rests on: a hit, the outcome of validation, and the cap.
pub struct Origin {
    pub h: u64,
    pub si: usize,
    pub verdict: (Seq<char>, Seq<char>),
    pub cap: int,
}

/// Whether a plan rests on `o`.
pub open spec fn rests_on<R: ReadAt + ?Sized>(
    reader: &R,
    image: Seq<u8>,
    c: Choices,
    found: ScanResult,
    p: PlanView,
    o: Origin,
) -> bool {
    let sig = signature_table()[o.si as int];
    &&& o.si < signature_table().len()
    &&& holds(image, o.h as int, sig.header)
    &&& wants(c.filter, p.file_type)
    &&& file_start(sig, o.h as int) == Some(p.offset)
    &&& 0 <= p.offset
    &&& is_least(o.cap, sig.max_size as int, c.max_size, image.len() - p.offset)
    &&& validation_may(reader, sig, p.offset, Some(o.verdict))
    &&& size_may(
        reader,
        sig,
        footers_of(found.footers@, o.si as int),
        p.offset,
        o.cap,
        Some((p.size, p.truncated)),
    )
    &&& sig.min_size <= p.size
    &&& o.si != 6 ==> p.file_type == o.verdict.0 && p.extension == o.verdict.1
    &&& o.si == 6 ==> zip_type_may(reader, p.offset, p.size, p.file_type)
        && p.extension == p.file_type
}

/// Every plan rests on a hit in the image.
pub(crate) proof fn plan_has_an_origin<R: ReadAt + ?Sized, F: FnMut(u64, usize)>(
    reader: &R,
    image: Seq<u8>,
    c: Choices,
    progress: F,
    seen: Seq<u8>,
    found: ScanResult,
    plans: Seq<CarvePlan>,
    k: int,
) -> (o: Origin)
    requires
        is_run(reader, image, c, progress, seen, found, plans),
        0 <= k < plans.len(),
    ensures
        rests_on(reader, image, c, found, plans[k]@, o),
{
    let table = signature_table();
    let total = image.len() as int;
    plans_are_those_of_hits(
        reader,
        total,
        found.headers@,
        found.footers@,
        table,
        c.max_size,
        c.filter,
        plans,
    );
    let outcomes = choose|outcomes: Seq<Option<CarvePlan>>|
        {
            &&& #[trigger] hits_planned(
                reader,
                total,
                found.headers@,
                found.footers@,
                table,
                c.max_size,
                c.filter,
                outcomes,
            )
            &&& forall|n: int|
                0 <= n < plans.len() ==> outcomes.contains(Some(#[trigger] plans[n]))
            &&& forall|i: int|
                0 <= i < outcomes.len() && (#[trigger] outcomes[i]) is Some ==> plans.contains(
                    outcomes[i]->0,
                ) || covered(plans, outcomes[i]->0)
        };
    assert(outcomes.contains(Some(plans[k])));
    let i = outcomes.index_of(Some(plans[k]));
    assert(outcomes[i] == Some(plans[k]));
    let (h, si) = found.headers@[i];
    let p = plans[k]@;
    assert(plan_view(outcomes[i]) == Some(p));
    // The hit stands in the image.
    let active = active_among(table, c.filter, table.len() as int);
    let chunk = chunk_used(c.block_size, c.chunk_size);
    database_can_be_scanned(c.filter);
    image_is_seen_as_it_is(
        reader,
        image,
        0,
        total,
        block_used(c.block_size),
        chunk,
        seen,
        texts(found.errors@),
    );
    assert(seen =~= image);
    assert(found.headers@.contains((h, si)));
    scan_finds_every_match(seen, table, active, false, chunk, (h, si));
    assert(stands_at(seen, table, active, false, h as int, si));
    assert(active[active.index_of(si)] == si);
    let sig = table[si as int];
    let header = sig.header;
    assert forall|j: int| 0 <= j < header.len() implies image[h + j] == #[trigger] header[j] by {
        assert(image.subrange(h as int, h + header.len())[j] == header[j]);
    }
    // So does what follows from it.
    let footers = footers_of(found.footers@, si as int);
    let off = file_start(sig, h as int)->0;
    let cap = size_cap(sig, c.max_size, total, off);
    let v = verdict_of(
        reader,
        total,
        h as int,
        sig,
        footers,
        c.max_size,
        c.filter,
        Some(p),
        off,
    );
    let (name, extension) = v->0;
    let z = accepted_size(
        reader,
        sig,
        footers,
        c.filter,
        off,
        cap,
        name,
        extension,
        Some(p),
    );
    assert(planned_by(reader, sig, c.filter, off, name, extension, z, Some(p)));
    entries_are_plain(si as int);
    late_entries(si as int);
    if sig.validator != Validator::Ftyp {
        assert(name == sig.name);
    }
    Origin { h, si, verdict: (name, extension), cap }
}

/// The entries that stand for several types.
proof fn late_entries(k: int)
    requires
        0 <= k < signature_table().len(),
    ensures
        signature_table()[k].name == "zip"@ <==> k == 6,
        signature_table()[k].name == "ftyp"@ <==> k == 5,
        signature_table()[k].validator == Validator::Ftyp <==> k == 5,
{
    entries_are_plain(k);
    reveal_strlit("zip");
    reveal_strlit("ftyp");
    assert("zip"@.len() == 3 && "ftyp"@.len() == 4);
}

/// The type of a planned file tells the entry of the database that it comes of.
pub(crate) proof fn type_tells_the_entry<R: ReadAt + ?Sized>(
    reader: &R,
    image: Seq<u8>,
    c: Choices,
    found: ScanResult,
    p: PlanView,
    o: Origin,
    t: Seq<char>,
)
    requires
        is_run_image(reader, image),
        rests_on(reader, image, c, found, p, o),
        t == p.file_type,
    ensures
        t == "jpg"@ <==> o.si == 0,
        t == "png"@ <==> o.si == 1,
        t == "pdf"@ <==> o.si == 2,
        t == "gif"@ <==> o.si == 3 || o.si == 4,
        t == "mp3"@ <==> o.si == 7,
        t == "wav"@ <==> o.si == 8,
        t == "sqlite"@ <==> o.si == 9,
        t == "bmp"@ <==> o.si == 10,
        t == "tiff"@ <==> o.si == 11 || o.si == 12,
        t == "rar"@ <==> o.si == 13 || o.si == 14,
        t == "7z"@ <==> o.si == 15,
        t == "gz"@ <==> o.si == 16,
        t == "bz2"@ <==> o.si == 17,
        t == "plist"@ <==> o.si == 18,
        t == "mp4"@ || t == "mov"@ <==> o.si == 5,
        t == "zip"@ || t == "docx"@ || t == "xlsx"@ || t == "pptx"@ <==> o.si == 6,
        p.extension == t,
{
    reveal_strlit("jpg");
    reveal_strlit("png");
    reveal_strlit("pdf");
    reveal_strlit("gif");
    reveal_strlit("ftyp");
    reveal_strlit("zip");
    reveal_strlit("mp3");
    reveal_strlit("wav");
    reveal_strlit("sqlite");
    reveal_strlit("bmp");
    reveal_strlit("tiff");
    reveal_strlit("rar");
    reveal_strlit("7z");
    reveal_strlit("gz");
    reveal_strlit("bz2");
    reveal_strlit("plist");
    reveal_strlit("mp4");
    reveal_strlit("mov");
    reveal_strlit("docx");
    reveal_strlit("xlsx");
    reveal_strlit("pptx");
    assert("jpg"@.len() == 3);
    assert("png"@.len() == 3);
    assert("pdf"@.len() == 3);
    assert("gif"@.len() == 3);
    assert("ftyp"@.len() == 4);
    assert("zip"@.len() == 3);
    assert("mp3"@.len() == 3);
    assert("wav"@.len() == 3);
    assert("sqlite"@.len() == 6);
    assert("bmp"@.len() == 3);
    assert("tiff"@.len() == 4);
    assert("rar"@.len() == 3);
    assert("7z"@.len() == 2);
    assert("gz"@.len() == 2);
    assert("bz2"@.len() == 3);
    assert("plist"@.len() == 5);
    assert("mp4"@.len() == 3);
    assert("mov"@.len() == 3);
    assert("docx"@.len() == 4);
    assert("xlsx"@.len() == 4);
    assert("pptx"@.len() == 4);
    assert("jpg"@[0] != "png"@[0]);
    assert("jpg"@[0] != "pdf"@[0]);
    assert("jpg"@[0] != "gif"@[0]);
    assert("jpg"@[0] != "zip"@[0]);
    assert("jpg"@[0] != "mp3"@[0]);
    assert("jpg"@[0] != "wav"@[0]);
    assert("jpg"@[0] != "bmp"@[0]);
    assert("jpg"@[0] != "rar"@[0]);
    assert("jpg"@[0] != "bz2"@[0]);
    assert("jpg"@[0] != "mp4"@[0]);
    assert("jpg"@[0] != "mov"@[0]);
    assert("png"@[1] != "pdf"@[1]);
    assert("png"@[0] != "gif"@[0]);
    assert("png"@[0] != "zip"@[0]);
    assert("png"@[0] != "mp3"@[0]);
    assert("png"@[0] != "wav"@[0]);
    assert("png"@[0] != "bmp"@[0]);
    assert("png"@[0] != "rar"@[0]);
    assert("png"@[0] != "bz2"@[0]);
    assert("png"@[0] != "mp4"@[0]);
    assert("png"@[0] != "mov"@[0]);
    assert("pdf"@[0] != "gif"@[0]);
    assert("pdf"@[0] != "zip"@[0]);
    assert("pdf"@[0] != "mp3"@[0]);
    assert("pdf"@[0] != "wav"@[0]);
    assert("pdf"@[0] != "bmp"@[0]);
    assert("pdf"@[0] != "rar"@[0]);
    assert("pdf"@[0] != "bz2"@[0]);
    assert("pdf"@[0] != "mp4"@[0]);
    assert("pdf"@[0] != "mov"@[0]);
    assert("gif"@[0] != "zip"@[0]);
    assert("gif"@[0] != "mp3"@[0]);
    assert("gif"@[0] != "wav"@[0]);
    assert("gif"@[0] != "bmp"@[0]);
    assert("gif"@[0] != "rar"@[0]);
    assert("gif"@[0] != "bz2"@[0]);
    assert("gif"@[0] != "mp4"@[0]);
    assert("gif"@[0] != "mov"@[0]);
    assert("ftyp"@[0] != "tiff"@[0]);
    assert("ftyp"@[0] != "docx"@[0]);
    assert("ftyp"@[0] != "xlsx"@[0]);
    assert("ftyp"@[0] != "pptx"@[0]);
    assert("zip"@[0] != "mp3"@[0]);
    assert("zip"@[0] != "wav"@[0]);
    assert("zip"@[0] != "bmp"@[0]);
    assert("zip"@[0] != "rar"@[0]);
    assert("zip"@[0] != "bz2"@[0]);
    assert("zip"@[0] != "mp4"@[0]);
    assert("zip"@[0] != "mov"@[0]);
    assert("mp3"@[0] != "wav"@[0]);
    assert("mp3"@[0] != "bmp"@[0]);
    assert("mp3"@[0] != "rar"@[0]);
    assert("mp3"@[0] != "bz2"@[0]);
    assert("mp3"@[2] != "mp4"@[2]);
    assert("mp3"@[1] != "mov"@[1]);
    assert("wav"@[0] != "bmp"@[0]);
    assert("wav"@[0] != "rar"@[0]);
    assert("wav"@[0] != "bz2"@[0]);
    assert("wav"@[0] != "mp4"@[0]);
    assert("wav"@[0] != "mov"@[0]);
    assert("bmp"@[0] != "rar"@[0]);
    assert("bmp"@[1] != "bz2"@[1]);
    assert("bmp"@[0] != "mp4"@[0]);
    assert("bmp"@[0] != "mov"@[0]);
    assert("tiff"@[0] != "docx"@[0]);
    assert("tiff"@[0] != "xlsx"@[0]);
    assert("tiff"@[0] != "pptx"@[0]);
    assert("rar"@[0] != "bz2"@[0]);
    assert("rar"@[0] != "mp4"@[0]);
    assert("rar"@[0] != "mov"@[0]);
    assert("7z"@[0] != "gz"@[0]);
    assert("bz2"@[0] != "mp4"@[0]);
    assert("bz2"@[0] != "mov"@[0]);
    assert("mp4"@[1] != "mov"@[1]);
    assert("docx"@[0] != "xlsx"@[0]);
    assert("docx"@[0] != "pptx"@[0]);
    assert("xlsx"@[0] != "pptx"@[0]);
    let sig = signature_table()[o.si as int];
    late_entries(o.si as int);
    if o.si == 5 {
        brand_check_is_exact(reader, image, p.offset, Some(o.verdict.0));
        assert(t == "mp4"@ || t == "mov"@);
    } else if o.si == 6 {
        assert(t == "zip"@ || t == "docx"@ || t == "xlsx"@ || t == "pptx"@);
    } else {
        assert(t == sig.name);
    }
}

/// Whether a source reads as an image of less than 2^64 bytes.
pub open spec fn is_run_image<R: ReadAt + ?Sized>(reader: &R, image: Seq<u8>) -> bool {
    reads_image(reader, image) && image.len() <= u64::MAX
}

// ---------------------------------------------------------------------------
// Footers
// ---------------------------------------------------------------------------

/// Whether none of the footers in an image after `off` and before `upto` ends a
/// file at `off` within the bounds.
pub open spec fn none_fits(
    image: Seq<u8>,
    sig: SignatureView,
    off: int,
    upto: int,
    cap: int,
) -> bool {
    forall|g: int|
        off < g < upto && #[trigger] occurs_at(image, sig.footer->0, g) ==> !(sig.min_size
            <= file_end(image, sig, g) - off <= cap)
}

/// A footer search in an image finds the first footer that fits.
pub(crate) proof fn search_in_image<R: ReadAt + ?Sized>(
    reader: &R,
    image: Seq<u8>,
    sig: SignatureView,
    footers: Seq<u64>,
    k: int,
    off: int,
    cap: int,
    end: Option<int>,
) -> (f: int)
    requires
        is_run_image(reader, image),
        sig.footer is Some,
        sorted_by(footers, ascending_offsets()),
        forall|g: u64| #[trigger]
            footers.contains(g) <==> occurs_at(image, sig.footer->0, g as int),
        0 <= k <= footers.len(),
        forall|j: int|
            0 <= j < k ==> (#[trigger] footers[j]) <= off || !(sig.min_size <= file_end(
                image,
                sig,
                footers[j] as int,
            ) - off <= cap),
        footer_search_may(reader, sig, sig.footer->0, footers, k, off, cap, end),
    ensures
        match end {
            Some(e) => {
                &&& off < f
                &&& occurs_at(image, sig.footer->0, f)
                &&& e == file_end(image, sig, f)
                &&& sig.min_size <= e - off <= cap
                &&& none_fits(image, sig, off, f, cap)
            },
            None => none_fits(image, sig, off, image.len() as int + 1, cap),
        },
    decreases footers.len() - k,
{
    let footer = sig.footer->0;
    if k >= footers.len() || (footers[k] > off && footers[k] - off > cap) {
        assert forall|g: int| off < g < image.len() + 1 && #[trigger] occurs_at(
            image,
            footer,
            g,
        ) implies !(sig.min_size <= file_end(image, sig, g) - off <= cap) by {
            assert(footers.contains(g as u64));
            let j = footers.index_of(g as u64);
            assert(footers[j] == g);
            if j >= k && j > k {
                assert(ascending_offsets()(footers[k], footers[j]));
            }
            file_ends_after(image, sig, g);
        }
        0
    } else if footers[k] <= off {
        search_in_image(reader, image, sig, footers, k + 1, off, cap, end)
    } else {
        let g = footers[k];
        let e = choose|e: int| #[trigger]
            footer_end_may(reader, sig, footer, g as int, e) && (if sig.min_size <= e - off <= cap {
                end == Some(e)
            } else {
                footer_search_may(reader, sig, footer, footers, k + 1, off, cap, end)
            });
        image_footer_ends(reader, image, sig, g);
        assert(e == file_end(image, sig, g as int));
        if sig.min_size <= e - off <= cap {
            assert(footers.contains(g)) by {
                assert(footers[k] == g);
            }
            assert forall|x: int| off < x < g && #[trigger] occurs_at(image, footer, x) implies !(
            sig.min_size <= file_end(image, sig, x) - off <= cap) by {
                assert(footers.contains(x as u64));
                let j = footers.index_of(x as u64);
                assert(footers[j] == x);
                if j > k {
                    assert(ascending_offsets()(footers[k], footers[j]));
                }
            }
            g as int
        } else {
            search_in_image(reader, image, sig, footers, k + 1, off, cap, end)
        }
    }
}

/// A file does not end before its footer begins.
proof fn file_ends_after(image: Seq<u8>, sig: SignatureView, g: int)
    ensures
        file_end(image, sig, g) >= g,
{
}

/// The footers that a run has found are those in the image.
pub(crate) proof fn footers_are_those_of_the_image<R: ReadAt + ?Sized, F: FnMut(u64, usize)>(
    reader: &R,
    image: Seq<u8>,
    c: Choices,
    progress: F,
    seen: Seq<u8>,
    found: ScanResult,
    plans: Seq<CarvePlan>,
    si: usize,
)
    requires
        is_run(reader, image, c, progress, seen, found, plans),
        si < signature_table().len(),
        signature_table()[si as int].footer is Some,
        is_active(c.filter, signature_table()[si as int].name),
    ensures
        sorted_by(footers_of(found.footers@, si as int), ascending_offsets()),
        forall|g: u64| #[trigger]
            footers_of(found.footers@, si as int).contains(g) <==> occurs_at(
                image,
                signature_table()[si as int].footer->0,
                g as int,
            ),
{
    let table = signature_table();
    let active = active_among(table, c.filter, table.len() as int);
    let chunk = chunk_used(c.block_size, c.chunk_size);
    database_can_be_scanned(c.filter);
    assert(active.contains(si as int as usize));
    image_is_seen_as_it_is(
        reader,
        image,
        0,
        image.len() as int,
        block_used(c.block_size),
        chunk,
        seen,
        texts(found.errors@),
    );
    assert(seen =~= image);
    footers_are_found(found.footers@, si, 0);
    assert forall|g: u64| #[trigger]
        footers_of(found.footers@, si as int).contains(g) <==> occurs_at(
            image,
            table[si as int].footer->0,
            g as int,
        ) by {
        footers_are_found(found.footers@, si, g);
        scan_finds_every_match(seen, table, active, true, chunk, (g, si));
    }
}

/// The size of a file of a format that ends with a footer.
pub(crate) proof fn footed_size<R: ReadAt + ?Sized, F: FnMut(u64, usize)>(
    reader: &R,
    image: Seq<u8>,
    c: Choices,
    progress: F,
    seen: Seq<u8>,
    found: ScanResult,
    plans: Seq<CarvePlan>,
    o: Origin,
    p: PlanView,
) -> (f: int)
    requires
        is_run(reader, image, c, progress, seen, found, plans),
        rests_on(reader, image, c, found, p, o),
        signature_table()[o.si as int].footer is Some,
        signature_table()[o.si as int].parser == SizeParser::Absent,
        is_active(c.filter, signature_table()[o.si as int].name),
    ensures
        ({
            let sig = signature_table()[o.si as int];
            if p.truncated {
                p.size == o.cap && none_fits(image, sig, p.offset, image.len() as int + 1, o.cap)
            } else {
                &&& p.offset < f
                &&& occurs_at(image, sig.footer->0, f)
                &&& p.offset + p.size == file_end(image, sig, f)
                &&& sig.min_size <= p.size <= o.cap
                &&& none_fits(image, sig, p.offset, f, o.cap)
            }
        }),
{
    let sig = signature_table()[o.si as int];
    let footers = footers_of(found.footers@, o.si as int);
    let z = (p.size, p.truncated);
    footers_are_those_of_the_image(reader, image, c, progress, seen, found, plans, o.si);
    let x = stated_of(reader, sig, footers, p.offset, o.cap, Some(z));
    assert(x is None);
    let end = footer_of(reader, sig, footers, p.offset, o.cap, z);
    search_in_image(reader, image, sig, footers, 0, p.offset, o.cap, end)
}

} // verus!
