//! What a recovery gives back: files that stand in the source in one piece.

use vstd::prelude::*;
use vstd::relations::{sorted_by, total_ordering};

use crate::bytes::{le16_at, occurs_at};
use crate::carver::{
    accepted_may, ascending_offsets, capped, covered, file_start, footer_end_may,
    footer_search_may,
    footers_of, hits_planned, offsets_with, plan_may, plan_view, plans_may, resolved_late,
    size_cap, size_may, stated_size_may, unstated_size_may, validation_may, CarvePlan, PlanView,
};
use crate::disk::{image_fetch_is_determined, may_fetch, reads_image, ReadAt};
use crate::filter::passes;
use crate::plan_laws::{
    first_footer_counts, footer_ends, is_passed_over, plans_are_those_of_hits,
};
use crate::scan_laws::{image_is_seen_as_it_is, scan_finds_every_match, stands_at};
use crate::scanner::{
    block_used, chunk_used, patterns_of, scan_may, searchable, ScanResult,
};
use crate::signatures::{SignatureView, SizeParser, Validator};
use crate::sizes::{bytes_or_none, least, zip_type, zip_type_may};
use crate::text::texts;

verus! {

/// Whether validation of the file at `off` is certain to accept it as `verdict`,
/// a type name and an extension.
pub open spec fn validates<R: ReadAt + ?Sized>(
    reader: &R,
    sig: SignatureView,
    off: int,
    verdict: (Seq<char>, Seq<char>),
) -> bool {
    forall|v: Option<(Seq<char>, Seq<char>)>| #[trigger]
        validation_may(reader, sig, off, v) ==> v == Some(verdict)
}

/// Whether the file at `off` is certain to be given the size `sized`, with the
/// note whether it is cut off.
pub open spec fn is_sized<R: ReadAt + ?Sized>(
    reader: &R,
    sig: SignatureView,
    footers: Seq<u64>,
    off: int,
    cap: int,
    sized: (int, bool),
) -> bool {
    forall|z: Option<(int, bool)>| #[trigger]
        size_may(reader, sig, footers, off, cap, z) ==> z == Some(sized)
}

/// Whether a file of `size` bytes at `off` that was validated as `verdict` is
/// certain to be given the type and extension `named`: a ZIP file those that
/// its content asks for, any other file those that it was validated as.
pub open spec fn is_named<R: ReadAt + ?Sized>(
    reader: &R,
    sig: SignatureView,
    off: int,
    size: int,
    verdict: (Seq<char>, Seq<char>),
    named: (Seq<char>, Seq<char>),
) -> bool {
    if sig.name == "zip"@ {
        forall|kind: Seq<char>| #[trigger]
            zip_type_may(reader, off, size, kind) ==> named == (kind, kind)
    } else {
        named == verdict
    }
}

/// Whether the hit of `sig` at `hit` is certain to be planned as a file of the
/// given size and name.
pub open spec fn is_certain<R: ReadAt + ?Sized>(
    reader: &R,
    disk_size: int,
    hit: int,
    sig: SignatureView,
    footers: Seq<u64>,
    max_size: int,
    filter: Option<Set<Seq<char>>>,
    verdict: (Seq<char>, Seq<char>),
    sized: (int, bool),
    named: (Seq<char>, Seq<char>),
) -> bool {
    &&& passes(filter, sig.name) || resolved_late(sig)
    &&& passes(filter, named.0)
    &&& file_start(sig, hit) matches Some(off)
    &&& off <= disk_size
    &&& sig.min_size <= size_cap(sig, max_size, disk_size, off)
    &&& validates(reader, sig, off, verdict)
    &&& is_sized(reader, sig, footers, off, size_cap(sig, max_size, disk_size, off), sized)
    &&& sig.min_size <= sized.0
    &&& is_named(reader, sig, off, sized.0, verdict, named)
}

/// A hit of which all is certain leads to the plan that follows from it.
proof fn certain_hit_is_planned<R: ReadAt + ?Sized>(
    reader: &R,
    disk_size: int,
    hit: int,
    sig: SignatureView,
    footers: Seq<u64>,
    max_size: int,
    filter: Option<Set<Seq<char>>>,
    verdict: (Seq<char>, Seq<char>),
    sized: (int, bool),
    named: (Seq<char>, Seq<char>),
    plan: Option<PlanView>,
)
    requires
        plan_may(reader, disk_size, hit, sig, footers, max_size, filter, plan),
        is_certain(
            reader,
            disk_size,
            hit,
            sig,
            footers,
            max_size,
            filter,
            verdict,
            sized,
            named,
        ),
    ensures
        plan == Some(
            (PlanView {
                offset: file_start(sig, hit)->0,
                size: sized.0,
                file_type: named.0,
                extension: named.1,
                truncated: sized.1,
            }),
        ),
{
    reveal_strlit("zip");
    reveal_strlit("ftyp");
    let off = file_start(sig, hit)->0;
    let cap = size_cap(sig, max_size, disk_size, off);
    let x = choose|v: Option<(Seq<char>, Seq<char>)>| #[trigger]
        validation_may(reader, sig, off, v) && (match v {
            None => plan is None,
            Some(w) => accepted_may(reader, sig, footers, filter, off, cap, w.0, w.1, plan),
        });
    assert(x == Some(verdict));
    assert(accepted_may(
        reader,
        sig,
        footers,
        filter,
        off,
        cap,
        verdict.0,
        verdict.1,
        plan,
    ));
    if sig.name == "zip"@ {
        assert("zip"@.len() != "ftyp"@.len());
        assert(exists|z: Option<(int, bool)>| #[trigger]
            size_may(reader, sig, footers, off, cap, z) && z == Some(sized));
        let kind = choose|kind: Seq<char>| #[trigger]
            zip_type_may(reader, off, sized.0, kind) && plan == (if passes(filter, kind) {
                Some(
                    PlanView {
                        offset: off,
                        size: sized.0,
                        file_type: kind,
                        extension: kind,
                        truncated: sized.1,
                    },
                )
            } else {
                None
            });
        assert(named == (kind, kind));
    }
}

/// A hit of which all is certain is planned accordingly, unless the file starts
/// inside another planned file of its type.
pub proof fn certain_hits_are_in_plans<R: ReadAt + ?Sized>(
    reader: &R,
    disk_size: int,
    headers: Seq<(u64, usize)>,
    footers: Seq<(u64, usize)>,
    sigs: Seq<SignatureView>,
    max_size: int,
    filter: Option<Set<Seq<char>>>,
    plans: Seq<CarvePlan>,
    hit: (u64, usize),
    verdict: (Seq<char>, Seq<char>),
    sized: (int, bool),
    named: (Seq<char>, Seq<char>),
)
    requires
        plans_may(reader, disk_size, headers, footers, sigs, max_size, filter, plans),
        headers.contains(hit),
        is_certain(
            reader,
            disk_size,
            hit.0 as int,
            sigs[hit.1 as int],
            footers_of(footers, hit.1 as int),
            max_size,
            filter,
            verdict,
            sized,
            named,
        ),
    ensures
        exists|p: CarvePlan|
            {
                &&& #[trigger] p@ == (PlanView {
                    offset: file_start(sigs[hit.1 as int], hit.0 as int)->0,
                    size: sized.0,
                    file_type: named.0,
                    extension: named.1,
                    truncated: sized.1,
                })
                &&& plans.contains(p) || covered(plans, p)
            },
{
    plans_are_those_of_hits(reader, disk_size, headers, footers, sigs, max_size, filter, plans);
    let outcomes = choose|outcomes: Seq<Option<CarvePlan>>|
        {
            &&& #[trigger] hits_planned(
                reader,
                disk_size,
                headers,
                footers,
                sigs,
                max_size,
                filter,
                outcomes,
            )
            &&& forall|n: int|
                0 <= n < plans.len() ==> outcomes.contains(Some(#[trigger] plans[n]))
            &&& forall|i: int|
                0 <= i < outcomes.len() && (#[trigger] outcomes[i]) is Some ==> plans.contains(
                    outcomes[i]->0,
                ) || covered(plans, outcomes[i]->0)
        };
    let i = headers.index_of(hit);
    assert(headers[i] == hit);
    let outcome = outcomes[i];
    certain_hit_is_planned(
        reader,
        disk_size,
        hit.0 as int,
        sigs[hit.1 as int],
        footers_of(footers, hit.1 as int),
        max_size,
        filter,
        verdict,
        sized,
        named,
        plan_view(outcome),
    );
    let p = outcome->0;
    assert(plan_view(outcome) == Some(p@));
}

/// A size up to the cap that a file is certain to state is certain to be its
/// size.
pub(crate) proof fn stated_size_is_certain<R: ReadAt + ?Sized>(
    reader: &R,
    sig: SignatureView,
    footers: Seq<u64>,
    off: int,
    cap: int,
    stated: int,
)
    requires
        forall|s: Option<int>| #[trigger]
            stated_size_may(reader, sig.parser, off, cap, s) ==> s == Some(stated),
        capped(sig.parser, stated, cap) == (stated, false),
    ensures
        is_sized(reader, sig, footers, off, cap, (stated, false)),
{
}

/// The first footer after the start of a file that makes it large enough and not
/// too large makes its size certain, if it states none.
proof fn footer_makes_size_certain<R: ReadAt + ?Sized>(
    reader: &R,
    sig: SignatureView,
    footers: Seq<u64>,
    off: int,
    cap: int,
    k: int,
    end: int,
)
    requires
        sig.parser == SizeParser::Absent,
        sig.footer is Some,
        0 <= k < footers.len(),
        forall|j: int|
            0 <= j < k ==> footers[j] <= footers[k] && is_passed_over(
                reader,
                sig,
                sig.footer->0,
                (#[trigger] footers[j]) as int,
                off,
                cap,
            ),
        footers[k] > off,
        footer_ends(reader, sig, sig.footer->0, footers[k] as int, end),
        sig.min_size <= end - off <= cap,
    ensures
        is_sized(reader, sig, footers, off, cap, (end - off, false)),
{
    let footer = sig.footer->0;
    assert forall|z: Option<(int, bool)>| #[trigger]
        size_may(reader, sig, footers, off, cap, z) implies z == Some((end - off, false)) by {
        assert(z is Some && unstated_size_may(reader, sig, footers, off, cap, z->0)) by {
            let stated = choose|s: Option<int>| #[trigger]
                stated_size_may(reader, sig.parser, off, cap, s) && (match s {
                    Some(n) => z == Some(capped(sig.parser, n, cap)),
                    None => z matches Some(w) && unstated_size_may(
                        reader,
                        sig,
                        footers,
                        off,
                        cap,
                        w,
                    ),
                });
            assert(stated is None);
        }
        let w = z->0;
        let found = choose|found: Option<int>| #[trigger]
            footer_search_may(reader, sig, footer, footers, 0, off, cap, found) && w == (
            match found {
                Some(e) => (e - off, false),
                None => (cap, true),
            });
        first_footer_counts(reader, sig, footer, footers, 0, k, off, cap, end, found);
    }
}

/// The offsets of a signature are those that were found for it.
proof fn offsets_are_found(found: Seq<(u64, usize)>, sig: usize, f: u64)
    ensures
        offsets_with(found, sig as int).contains(f) <==> found.contains((f, sig)),
    decreases found.len(),
{
    if found.len() > 0 {
        let rest = found.drop_last();
        let before = offsets_with(rest, sig as int);
        let now = offsets_with(found, sig as int);
        offsets_are_found(rest, sig, f);
        if rest.contains((f, sig)) {
            assert(found[rest.index_of((f, sig))] == (f, sig));
            let i = before.index_of(f);
            assert(now[i] == f);
        }
        if found.last() == (f, sig) {
            assert(found[found.len() - 1] == (f, sig));
            assert(now[now.len() - 1] == f);
        }
        if now.contains(f) && !before.contains(f) {
            let i = now.index_of(f);
            assert(i == now.len() - 1);
        }
        if found.contains((f, sig)) && found.last() != (f, sig) {
            let i = found.index_of((f, sig));
            assert(rest[i] == (f, sig));
        }
    }
}

/// Footers are listed in ascending order, exactly those that were found.
pub(crate) proof fn footers_are_found(found: Seq<(u64, usize)>, sig: usize, f: u64)
    ensures
        sorted_by(footers_of(found, sig as int), ascending_offsets()),
        footers_of(found, sig as int).contains(f) <==> found.contains((f, sig)),
{
    broadcast use vstd::seq_lib::group_to_multiset_ensures;

    let all = offsets_with(found, sig as int);
    let sorted = footers_of(found, sig as int);
    assert(total_ordering(ascending_offsets()));
    all.lemma_sort_by_ensures(ascending_offsets());
    offsets_are_found(found, sig, f);
    assert(all.to_multiset().count(f) == sorted.to_multiset().count(f));
}

/// The first of the footers that lies after `off`.
proof fn first_after(footers: Seq<u64>, off: int, m: int) -> (k: int)
    requires
        sorted_by(footers, ascending_offsets()),
        0 <= m < footers.len(),
        footers[m] > off,
    ensures
        0 <= k <= m,
        footers[k] > off,
        forall|j: int| 0 <= j < k ==> (#[trigger] footers[j]) <= off,
    decreases m,
{
    if m > 0 && footers[m - 1] > off {
        first_after(footers, off, m - 1)
    } else {
        assert forall|j: int| 0 <= j < m implies (#[trigger] footers[j]) <= off by {
            if j < m - 1 {
                assert(ascending_offsets()(footers[j], footers[m - 1]));
            }
        }
        m
    }
}

/// Where the footer at `f` in an image ends its file. A ZIP file ends with the
/// comment that follows its footer, whose length the footer states.
pub open spec fn file_end(image: Seq<u8>, sig: SignatureView, f: int) -> int {
    if sig.name == "zip"@ {
        f + 22 + (if f + 22 <= image.len() {
            le16_at(image.subrange(f + 20, f + 22), 0)
        } else {
            0
        })
    } else {
        f + sig.footer->0.len()
    }
}

/// The part of a ZIP file of `size` bytes at `off` in an image that decides its
/// type.
pub open spec fn zip_window(image: Seq<u8>, off: int, size: int) -> Seq<u8> {
    let head = image.subrange(off, off + least(size, 4096));
    if size > 4096 {
        head + image.subrange(off + size - least(size, 65536), off + size)
    } else {
        head
    }
}

/// The type and extension of a file of `size` bytes at `off` in an image.
pub open spec fn file_name_in(image: Seq<u8>, sig: SignatureView, off: int, size: int) -> (
    Seq<char>,
    Seq<char>,
) {
    if sig.name == "zip"@ {
        (zip_type(zip_window(image, off, size)), zip_type(zip_window(image, off, size)))
    } else {
        (sig.name, sig.extension)
    }
}

/// In an image a footer ends its file in one place.
pub(crate) proof fn image_footer_ends<R: ReadAt + ?Sized>(
    reader: &R,
    image: Seq<u8>,
    sig: SignatureView,
    f: u64,
)
    requires
        reads_image(reader, image),
        image.len() <= u64::MAX,
        sig.footer is Some,
    ensures
        footer_ends(reader, sig, sig.footer->0, f as int, file_end(image, sig, f as int)),
{
    let footer = sig.footer->0;
    assert forall|e: int| #[trigger] footer_end_may(reader, sig, footer, f as int, e) implies e
        == file_end(image, sig, f as int) by {
        if sig.name == "zip"@ {
            let got = choose|got: Option<Seq<u8>>| #[trigger]
                may_fetch(reader, f + 20, 2, got) && e == f + 22 + (match got {
                    Some(c) => le16_at(c, 0),
                    None => 0,
                });
            image_fetch_is_determined(reader, image, f + 20, 2, got);
        }
    }
}

/// In an image a file has one type.
proof fn image_file_is_named<R: ReadAt + ?Sized>(
    reader: &R,
    image: Seq<u8>,
    sig: SignatureView,
    off: int,
    size: int,
)
    requires
        reads_image(reader, image),
        image.len() <= u64::MAX,
        0 <= off,
        0 <= size,
        off + size <= image.len(),
    ensures
        is_named(
            reader,
            sig,
            off,
            size,
            (sig.name, sig.extension),
            file_name_in(image, sig, off, size),
        ),
{
    if sig.name == "zip"@ {
        assert forall|kind: Seq<char>| #[trigger] zip_type_may(
            reader,
            off,
            size,
            kind,
        ) implies file_name_in(image, sig, off, size) == (kind, kind) by {
            let at = off + size - least(size, 65536);
            let len = least(size, 65536) as nat;
            let head = choose|head: Option<Seq<u8>>| #[trigger]
                may_fetch(reader, off, least(size, 4096) as nat, head) && (if size > 4096 {
                    exists|tail: Option<Seq<u8>>| #[trigger]
                        may_fetch(reader, at, len, tail) && kind == zip_type(
                            bytes_or_none(head) + bytes_or_none(tail),
                        )
                } else {
                    kind == zip_type(bytes_or_none(head))
                });
            image_fetch_is_determined(reader, image, off, least(size, 4096) as nat, head);
            if size > 4096 {
                let tail = choose|tail: Option<Seq<u8>>| #[trigger]
                    may_fetch(reader, at, len, tail) && kind == zip_type(
                        bytes_or_none(head) + bytes_or_none(tail),
                    );
                image_fetch_is_determined(reader, image, at, len, tail);
            }
        }
    }
}

/// Whether a format ends with a footer, states no size of its own and starts
/// with its signature.
pub open spec fn is_footed(sig: SignatureView) -> bool {
    &&& sig.parser == SizeParser::Absent
    &&& sig.footer is Some
    &&& sig.validator != Validator::Ftyp
}

/// The plan for a file in an image, from a header at `h` to a footer at `f`.
pub open spec fn whole_file(image: Seq<u8>, sig: SignatureView, h: int, f: int) -> PlanView {
    let size = file_end(image, sig, f) - h;
    PlanView {
        offset: h,
        size,
        file_type: file_name_in(image, sig, h, size).0,
        extension: file_name_in(image, sig, h, size).1,
        truncated: false,
    }
}

/// Whether a file of signature `sig` stands in an image in one piece, from a
/// header at `h` to a footer at `f`, and its size lies within the bounds. Footers
/// between them would leave it too small or too large.
pub open spec fn is_embedded(
    image: Seq<u8>,
    sig: SignatureView,
    max_size: int,
    h: int,
    f: int,
) -> bool {
    &&& occurs_at(image, sig.header, h)
    &&& h < f
    &&& occurs_at(image, sig.footer->0, f)
    &&& forall|g: int|
        h < g < f && #[trigger] occurs_at(image, sig.footer->0, g) ==> !(sig.min_size <= file_end(
            image,
            sig,
            g,
        ) - h <= size_cap(sig, max_size, image.len() as int, h))
    &&& sig.min_size <= file_end(image, sig, f) - h <= size_cap(
        sig,
        max_size,
        image.len() as int,
        h,
    )
}

/// A file that stands in an image in one piece, from a header to the first
/// footer after it that leaves its size within the bounds, is planned as exactly
/// the range that it occupies if it validates and its type is wanted; unless it
/// starts inside another planned file of its type.
pub proof fn embedded_files_are_planned<R: ReadAt + ?Sized, F: FnMut(u64, usize)>(
    reader: &R,
    image: Seq<u8>,
    block_size: int,
    chunk_size: int,
    sigs: Seq<SignatureView>,
    active: Seq<usize>,
    progress: F,
    seen: Seq<u8>,
    scanned: ScanResult,
    max_size: int,
    filter: Option<Set<Seq<char>>>,
    plans: Seq<CarvePlan>,
    si: usize,
    h: u64,
    f: u64,
)
    requires
        reads_image(reader, image),
        image.len() <= u64::MAX,
        searchable(sigs, active),
        scan_may(
            reader,
            image.len() as int,
            block_size,
            chunk_size,
            patterns_of(sigs, active),
            progress,
            seen,
            scanned,
        ),
        plans_may(
            reader,
            image.len() as int,
            scanned.headers@,
            scanned.footers@,
            sigs,
            max_size,
            filter,
            plans,
        ),
        active.contains(si),
        is_footed(sigs[si as int]),
        is_embedded(image, sigs[si as int], max_size, h as int, f as int),
        passes(filter, sigs[si as int].name) || resolved_late(sigs[si as int]),
        passes(filter, whole_file(image, sigs[si as int], h as int, f as int).file_type),
        validates(
            reader,
            sigs[si as int],
            h as int,
            (sigs[si as int].name, sigs[si as int].extension),
        ),
    ensures
        exists|p: CarvePlan|
            {
                &&& #[trigger] p@ == whole_file(image, sigs[si as int], h as int, f as int)
                &&& plans.contains(p) || covered(plans, p)
            },
{
    let sig = sigs[si as int];
    let footer = sig.footer->0;
    let disk_size = image.len() as int;
    let chunk = chunk_used(block_size, chunk_size);
    let cap = size_cap(sig, max_size, disk_size, h as int);
    let end = file_end(image, sig, f as int);
    let size = end - h;
    image_is_seen_as_it_is(
        reader,
        image,
        0,
        disk_size,
        block_used(block_size),
        chunk,
        seen,
        texts(scanned.errors@),
    );
    assert(seen =~= image);
    // The header is recorded, and so is the footer.
    scan_finds_every_match(seen, sigs, active, false, chunk, (h, si));
    scan_finds_every_match(seen, sigs, active, true, chunk, (f, si));
    assert(stands_at(seen, sigs, active, false, h as int, si));
    assert(stands_at(seen, sigs, active, true, f as int, si));
    let footers = footers_of(scanned.footers@, si as int);
    footers_are_found(scanned.footers@, si, f);
    let m = footers.index_of(f);
    let k = first_after(footers, f - 1, m);
    if k < m {
        assert(ascending_offsets()(footers[k], footers[m]));
    }
    assert(footers[k] == f);
    // Those before it are passed over.
    assert forall|j: int| 0 <= j < k implies footers[j] <= footers[k] && is_passed_over(
        reader,
        sig,
        footer,
        (#[trigger] footers[j]) as int,
        h as int,
        cap,
    ) by {
        let g = footers[j];
        assert(ascending_offsets()(footers[j], footers[k]));
        footers_are_found(scanned.footers@, si, g);
        assert(footers.contains(g));
        scan_finds_every_match(seen, sigs, active, true, chunk, (g, si));
        assert(occurs_at(image, footer, g as int));
        image_footer_ends(reader, image, sig, g);
    }
    image_footer_ends(reader, image, sig, f);
    footer_makes_size_certain(reader, sig, footers, h as int, cap, k, end);
    // So the hit leads to the plan for the whole file.
    image_file_is_named(reader, image, sig, h as int, size);
    certain_hits_are_in_plans(
        reader,
        disk_size,
        scanned.headers@,
        scanned.footers@,
        sigs,
        max_size,
        filter,
        plans,
        (h, si),
        (sig.name, sig.extension),
        (size, false),
        file_name_in(image, sig, h as int, size),
    );
}

/// A file in an image that is certain to state a size up to the cap is planned
/// with exactly that size if it validates, is large enough and its type is
/// wanted; unless it starts inside another planned file of its type.
pub proof fn sized_files_are_planned<R: ReadAt + ?Sized, F: FnMut(u64, usize)>(
    reader: &R,
    image: Seq<u8>,
    block_size: int,
    chunk_size: int,
    sigs: Seq<SignatureView>,
    active: Seq<usize>,
    progress: F,
    seen: Seq<u8>,
    scanned: ScanResult,
    max_size: int,
    filter: Option<Set<Seq<char>>>,
    plans: Seq<CarvePlan>,
    si: usize,
    h: u64,
    off: int,
    verdict: (Seq<char>, Seq<char>),
    stated: int,
)
    requires
        reads_image(reader, image),
        image.len() <= u64::MAX,
        searchable(sigs, active),
        scan_may(
            reader,
            image.len() as int,
            block_size,
            chunk_size,
            patterns_of(sigs, active),
            progress,
            seen,
            scanned,
        ),
        plans_may(
            reader,
            image.len() as int,
            scanned.headers@,
            scanned.footers@,
            sigs,
            max_size,
            filter,
            plans,
        ),
        active.contains(si),
        sigs[si as int].name != "zip"@,
        occurs_at(image, sigs[si as int].header, h as int),
        file_start(sigs[si as int], h as int) == Some(off),
        passes(filter, sigs[si as int].name) || resolved_late(sigs[si as int]),
        passes(filter, verdict.0),
        validates(reader, sigs[si as int], off, verdict),
        forall|s: Option<int>| #[trigger]
            stated_size_may(
                reader,
                sigs[si as int].parser,
                off,
                size_cap(sigs[si as int], max_size, image.len() as int, off),
                s,
            ) ==> s == Some(stated),
        sigs[si as int].min_size <= stated,
        capped(
            sigs[si as int].parser,
            stated,
            size_cap(sigs[si as int], max_size, image.len() as int, off),
        ) == (stated, false),
    ensures
        exists|p: CarvePlan|
            {
                &&& #[trigger] p@ == (PlanView {
                    offset: off,
                    size: stated,
                    file_type: verdict.0,
                    extension: verdict.1,
                    truncated: false,
                })
                &&& plans.contains(p) || covered(plans, p)
            },
{
    let sig = sigs[si as int];
    let disk_size = image.len() as int;
    let chunk = chunk_used(block_size, chunk_size);
    let footers = footers_of(scanned.footers@, si as int);
    image_is_seen_as_it_is(
        reader,
        image,
        0,
        disk_size,
        block_used(block_size),
        chunk,
        seen,
        texts(scanned.errors@),
    );
    assert(seen =~= image);
    scan_finds_every_match(seen, sigs, active, false, chunk, (h, si));
    assert(stands_at(seen, sigs, active, false, h as int, si));
    stated_size_is_certain(
        reader,
        sig,
        footers,
        off,
        size_cap(sig, max_size, disk_size, off),
        stated,
    );
    certain_hits_are_in_plans(
        reader,
        disk_size,
        scanned.headers@,
        scanned.footers@,
        sigs,
        max_size,
        filter,
        plans,
        (h, si),
        verdict,
        (stated, false),
        verdict,
    );
}

} // verus!
