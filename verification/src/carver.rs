//! Planning: turning signature hits into byte ranges to copy out.

use vstd::prelude::*;
use vstd::relations::{sorted_by, total_ordering};
use vstd::seq_lib::lemma_sorted_unique;

use crate::bytes::{le16, le16_at};
use crate::disk::{fetch, fetched, may_fetch, ReadAt};
use crate::filter::{chosen, lets_through, passes, TypeFilter};
use crate::formats::{
    bz2_may, classify_ftyp, ftyp_may, gz_may, jpeg_may, mp3_may, tiff_may, validate_bz2,
    validate_gz, validate_jpeg, validate_mp3, validate_tiff, validate_zip, zip_may,
};
use crate::outside::{par_filter_map, sort_by_offset, sort_offsets};
use crate::scanner::ScanResult;
use crate::signatures::{views, Signature, SignatureView, SizeParser, Validator};
use crate::sizes::{
    bmp_may, classify_zip, gif_may, least, mp4_may, parse_7z, parse_bmp, parse_gif, parse_mp4,
    parse_sqlite, parse_wav, seven_zip_may, sqlite_may, wav_may, widened, zip_type_may,
};
use crate::text::same_text;

verus! {

/// A byte range of the source that is to be copied out as one file.
#[derive(Debug, Clone)]
pub struct CarvePlan {
    pub offset: u64,
    pub size: u64,
    /// The resolved type: "jpg", "mp4", "docx" and so on.
    pub file_type: String,
    pub extension: String,
    /// Whether the file was cut off by the size cap or the end of the source
    /// instead of ending where its format says.
    pub truncated: bool,
}

/// What a [`CarvePlan`] says.
pub struct PlanView {
    pub offset: int,
    pub size: int,
    pub file_type: Seq<char>,
    pub extension: Seq<char>,
    pub truncated: bool,
}

impl View for CarvePlan {
    type V = PlanView;

    open spec fn view(&self) -> PlanView {
        PlanView {
            offset: self.offset as int,
            size: self.size as int,
            file_type: self.file_type@,
            extension: self.extension@,
            truncated: self.truncated,
        }
    }
}

/// What an optional plan says.
pub open spec fn plan_view(plan: Option<CarvePlan>) -> Option<PlanView> {
    match plan {
        Some(p) => Some(p@),
        None => None,
    }
}

/// The values inside those items that hold one, in order.
pub open spec fn somes<U>(items: Seq<Option<U>>) -> Seq<U>
    decreases items.len(),
{
    if items.len() == 0 {
        Seq::empty()
    } else {
        match items.last() {
            Some(x) => somes(items.drop_last()).push(x),
            None => somes(items.drop_last()),
        }
    }
}

/// The usual order of offsets.
pub open spec fn ascending_offsets() -> spec_fn(u64, u64) -> bool {
    |a: u64, b: u64| a <= b
}

/// Whether a plan starts at `offset`.
pub open spec fn starts_at(offset: u64) -> spec_fn(CarvePlan) -> bool {
    |p: CarvePlan| p.offset == offset
}

/// The plans that start at `offset`.
pub open spec fn starting_at(plans: Seq<CarvePlan>, offset: u64) -> Seq<CarvePlan> {
    plans.filter(starts_at(offset))
}

/// Whether `after` holds the plans of `before` ordered by offset, those with
/// equal offsets in the order that they had.
pub open spec fn stably_ordered(before: Seq<CarvePlan>, after: Seq<CarvePlan>) -> bool {
    &&& forall|i: int, j: int|
        0 <= i <= j < after.len() ==> #[trigger] after[i].offset <= #[trigger] after[j].offset
    &&& forall|offset: u64| #[trigger] starting_at(after, offset) == starting_at(before, offset)
}

// ---------------------------------------------------------------------------
// One hit
// ---------------------------------------------------------------------------

/// Where the file starts whose signature was found at `hit`. The `ftyp`
/// signature is the type of a box; the file starts four bytes earlier, with
/// the size of that box.
pub open spec fn file_start(sig: SignatureView, hit: int) -> Option<int> {
    if sig.validator != Validator::Ftyp {
        Some(hit)
    } else if hit >= 4 {
        Some(hit - 4)
    } else {
        None
    }
}

/// Whether the type of a file is only known once its content was looked at.
pub open spec fn resolved_late(sig: SignatureView) -> bool {
    sig.name == "zip"@ || sig.name == "ftyp"@
}

/// The largest size that a file at `off` can be given.
pub open spec fn size_cap(sig: SignatureView, max_size: int, disk_size: int, off: int) -> int {
    least(least(sig.max_size, max_size), disk_size - off)
}

/// Whether validation of the file at `off` may end in `verdict`: the type name
/// and extension of the file, or `None` if it is a false positive.
pub open spec fn validation_may<R: ReadAt + ?Sized>(
    reader: &R,
    sig: SignatureView,
    off: int,
    verdict: Option<(Seq<char>, Seq<char>)>,
) -> bool {
    let as_is = (sig.name, sig.extension);
    match sig.validator {
        Validator::Absent => verdict == Some(as_is),
        Validator::Jpeg => {
            ||| verdict == Some(as_is) && jpeg_may(reader, off, true)
            ||| verdict is None && jpeg_may(reader, off, false)
        },
        Validator::Zip => {
            ||| verdict == Some(as_is) && zip_may(reader, off, true)
            ||| verdict is None && zip_may(reader, off, false)
        },
        Validator::Mp3 => {
            ||| verdict == Some(as_is) && mp3_may(reader, off, true)
            ||| verdict is None && mp3_may(reader, off, false)
        },
        Validator::Ftyp => {
            ||| verdict is None && ftyp_may(reader, off, None)
            ||| verdict matches Some(v) && v.1 == v.0 && ftyp_may(reader, off, Some(v.0))
        },
        Validator::Gz => {
            ||| verdict == Some(as_is) && gz_may(reader, off, true)
            ||| verdict is None && gz_may(reader, off, false)
        },
        Validator::Bz2 => {
            ||| verdict == Some(as_is) && bz2_may(reader, off, true)
            ||| verdict is None && bz2_may(reader, off, false)
        },
        Validator::Tiff => {
            ||| verdict == Some(as_is) && tiff_may(reader, off, sig.header, true)
            ||| verdict is None && tiff_may(reader, off, sig.header, false)
        },
    }
}

/// Validates the file at `off` and resolves its type name and extension.
fn validate<R: ReadAt + ?Sized>(reader: &R, sig: &Signature, off: u64) -> (verdict: Option<
    (&'static str, &'static str),
>)
    requires
        sig.validator == Validator::Tiff ==> sig.header@.len() > 0,
    ensures
        validation_may(
            reader,
            sig@,
            off as int,
            (match verdict {
                Some(v) => Some((v.0@, v.1@)),
                None => None,
            }),
        ),
{
    let ok: bool = match sig.validator {
        Validator::Absent => true,
        Validator::Jpeg => validate_jpeg(reader, off),
        Validator::Zip => validate_zip(reader, off),
        Validator::Mp3 => validate_mp3(reader, off),
        Validator::Gz => validate_gz(reader, off),
        Validator::Bz2 => validate_bz2(reader, off),
        Validator::Tiff => validate_tiff(reader, off, sig.header),
        Validator::Ftyp => {
            return classify_ftyp(reader, off);
        },
    };
    if ok {
        Some((sig.name, sig.extension))
    } else {
        None
    }
}

/// Whether the size that the file at `off` states of itself may come out as
/// `size`.
pub open spec fn stated_size_may<R: ReadAt + ?Sized>(
    reader: &R,
    parser: SizeParser,
    off: int,
    cap: int,
    size: Option<int>,
) -> bool {
    match parser {
        SizeParser::Absent => size is None,
        SizeParser::Gif => gif_may(reader, off, cap, size),
        SizeParser::Mp4 => mp4_may(reader, off, cap, size),
        SizeParser::Sqlite => sqlite_may(reader, off, size),
        SizeParser::SevenZip => seven_zip_may(reader, off, size),
        SizeParser::Wav => wav_may(reader, off, size),
        SizeParser::Bmp => bmp_may(reader, off, size),
    }
}

/// The size that the file at `off` states of itself.
fn stated_size<R: ReadAt + ?Sized>(reader: &R, parser: SizeParser, off: u64, cap: u64) -> (size:
    Option<u64>)
    ensures
        stated_size_may(reader, parser, off as int, cap as int, widened(size)),
{
    match parser {
        SizeParser::Absent => None,
        SizeParser::Gif => parse_gif(reader, off, cap),
        SizeParser::Mp4 => parse_mp4(reader, off, cap),
        SizeParser::Sqlite => parse_sqlite(reader, off),
        SizeParser::SevenZip => parse_7z(reader, off),
        SizeParser::Wav => parse_wav(reader, off),
        SizeParser::Bmp => parse_bmp(reader, off),
    }
}

/// Whether a hit is a false positive when its size parser fails.
pub open spec fn must_parse(parser: SizeParser) -> bool {
    parser == SizeParser::Gif || parser == SizeParser::Wav || parser == SizeParser::Bmp || parser
        == SizeParser::Mp4
}

/// Whether the footer at `f` may end its file at `end`. The end record of a
/// ZIP file has 22 bytes and a comment, whose length stands in the last two of
/// them and counts as zero if it cannot be read.
pub open spec fn footer_end_may<R: ReadAt + ?Sized>(
    reader: &R,
    sig: SignatureView,
    footer: Seq<u8>,
    f: int,
    end: int,
) -> bool {
    if sig.name == "zip"@ {
        exists|got: Option<Seq<u8>>| #[trigger]
            may_fetch(reader, f + 20, 2, got) && end == f + 22 + (match got {
                Some(c) => le16_at(c, 0),
                None => 0,
            })
    } else {
        end == f + footer.len()
    }
}

/// Whether the search among `footers`, from the one at index `k` on, may end
/// the file at `off` at `end`. It takes the first footer after `off` that leaves
/// the file at least its minimum size and at most `cap` bytes, and gives up at
/// one that starts beyond the cap.
pub open spec fn footer_search_may<R: ReadAt + ?Sized>(
    reader: &R,
    sig: SignatureView,
    footer: Seq<u8>,
    footers: Seq<u64>,
    k: int,
    off: int,
    cap: int,
    end: Option<int>,
) -> bool
    decreases footers.len() - k,
{
    if k < 0 || k >= footers.len() {
        end is None
    } else if footers[k] <= off {
        footer_search_may(reader, sig, footer, footers, k + 1, off, cap, end)
    } else if footers[k] - off > cap {
        end is None
    } else {
        exists|e: int| #[trigger]
            footer_end_may(reader, sig, footer, footers[k] as int, e) && (if sig.min_size <= e - off
                <= cap {
                end == Some(e)
            } else {
                footer_search_may(reader, sig, footer, footers, k + 1, off, cap, end)
            })
    }
}

/// Footers up to `off` make no difference to a search.
proof fn skip_footers<R: ReadAt + ?Sized>(
    reader: &R,
    sig: SignatureView,
    footer: Seq<u8>,
    footers: Seq<u64>,
    k: int,
    first: int,
    off: int,
    cap: int,
    end: Option<int>,
)
    requires
        0 <= k <= first <= footers.len(),
        forall|j: int| k <= j < first ==> footers[j] <= off,
    ensures
        footer_search_may(reader, sig, footer, footers, first, off, cap, end) ==> footer_search_may(
            reader,
            sig,
            footer,
            footers,
            k,
            off,
            cap,
            end,
        ),
    decreases first - k,
{
    if k < first {
        skip_footers(reader, sig, footer, footers, k + 1, first, off, cap, end);
    }
}

/// The number of `footers`, which are in ascending order, up to `off`.
fn count_up_to(footers: &[u64], off: u64) -> (n: usize)
    requires
        sorted_by(footers@, ascending_offsets()),
    ensures
        n <= footers@.len(),
        forall|j: int| 0 <= j < n ==> footers@[j] <= off,
        forall|j: int| n <= j < footers@.len() ==> footers@[j] > off,
{
    let mut lo: usize = 0;
    let mut hi: usize = footers.len();
    while lo < hi
        invariant
            lo <= hi <= footers@.len(),
            sorted_by(footers@, ascending_offsets()),
            forall|j: int| 0 <= j < lo ==> footers@[j] <= off,
            forall|j: int| hi <= j < footers@.len() ==> footers@[j] > off,
        decreases hi - lo,
    {
        let mid: usize = lo + (hi - lo) / 2;
        if footers[mid] <= off {
            assert forall|j: int| 0 <= j <= mid implies footers@[j] <= off by {
                if j < mid {
                    assert((ascending_offsets())(footers@[j], footers@[mid as int]));
                }
            }
            lo = mid + 1;
        } else {
            assert forall|j: int| mid <= j < footers@.len() implies footers@[j] > off by {
                if mid < j {
                    assert((ascending_offsets())(footers@[mid as int], footers@[j]));
                }
            }
            hi = mid;
        }
    }
    lo
}

/// The end of the file at `off` by the first footer after it that leaves at
/// least the minimum size, within `cap` bytes.
pub fn find_footer_end<R: ReadAt + ?Sized>(
    reader: &R,
    footers: &[u64],
    off: u64,
    footer: &[u8],
    sig: &Signature,
    cap: u64,
) -> (end: Option<u64>)
    requires
        sorted_by(footers@, ascending_offsets()),
        off + cap <= u64::MAX,
    ensures
        footer_search_may(
            reader,
            sig@,
            footer@,
            footers@,
            0,
            off as int,
            cap as int,
            widened(end),
        ),
        end matches Some(e) ==> off <= e && e - off <= cap,
{
    let zip: bool = same_text(sig.name, "zip");
    let mut k: usize = count_up_to(footers, off);
    proof {
        assert forall|end: Option<int>| #[trigger]
            footer_search_may(
                reader,
                sig@,
                footer@,
                footers@,
                k as int,
                off as int,
                cap as int,
                end,
            ) implies footer_search_may(
            reader,
            sig@,
            footer@,
            footers@,
            0,
            off as int,
            cap as int,
            end,
        ) by {
            skip_footers(
                reader,
                sig@,
                footer@,
                footers@,
                0,
                k as int,
                off as int,
                cap as int,
                end,
            );
        }
    }
    while k < footers.len()
        invariant
            k <= footers@.len(),
            off + cap <= u64::MAX,
            zip == (sig@.name == "zip"@),
            forall|j: int| k <= j < footers@.len() ==> footers@[j] > off,
            forall|end: Option<int>| #[trigger]
                footer_search_may(
                    reader,
                    sig@,
                    footer@,
                    footers@,
                    k as int,
                    off as int,
                    cap as int,
                    end,
                ) ==> footer_search_may(
                    reader,
                    sig@,
                    footer@,
                    footers@,
                    0,
                    off as int,
                    cap as int,
                    end,
                ),
        decreases footers@.len() - k,
    {
        let ghost here: spec_fn(Option<int>) -> bool = |end: Option<int>|
            footer_search_may(
                reader,
                sig@,
                footer@,
                footers@,
                k as int,
                off as int,
                cap as int,
                end,
            );
        let f: u64 = footers[k];
        if f - off > cap {
            assert(here(None));
            return None;
        }
        let mut tail: u64 = footer.len() as u64;
        if zip {
            let got: Option<Vec<u8>> = if f > u64::MAX - 20 {
                None
            } else {
                fetch(reader, f + 20, 2)
            };
            let ghost seen: Option<Seq<u8>> = fetched(got);
            assert(may_fetch(reader, f + 20, 2, seen));
            tail = match got {
                Some(c) => 22 + le16(&c, 0),
                None => 22,
            };
        }
        assert(footer_end_may(reader, sig@, footer@, f as int, f + tail));
        if tail <= cap - (f - off) && f - off + tail >= sig.min_size {
            let end: u64 = f + tail;
            assert(here(Some(end as int)));
            return Some(end);
        }
        assert forall|end: Option<int>| #[trigger]
            footer_search_may(
                reader,
                sig@,
                footer@,
                footers@,
                k + 1,
                off as int,
                cap as int,
                end,
            ) implies here(end) by {}
        k = k + 1;
    }
    proof {
        assert(footer_search_may(
            reader,
            sig@,
            footer@,
            footers@,
            k as int,
            off as int,
            cap as int,
            None,
        ));
    }
    None
}

/// Whether a file at `off` that states no size may be given the size `sized`,
/// with the note whether it was cut off: the end that a footer marks counts,
/// else the cap.
pub open spec fn unstated_size_may<R: ReadAt + ?Sized>(
    reader: &R,
    sig: SignatureView,
    footers: Seq<u64>,
    off: int,
    cap: int,
    sized: (int, bool),
) -> bool {
    match sig.footer {
        Some(footer) => exists|end: Option<int>| #[trigger]
            footer_search_may(reader, sig, footer, footers, 0, off, cap, end) && sized == (
            match end {
                Some(e) => (e - off, false),
                None => (cap, true),
            }),
        None => sized == (cap, true),
    }
}

/// The size of a file that states the size `stated`, under the cap `cap`, with
/// the note whether it was cut off. A file that ends at the cap is whole, but
/// not so one whose box chain runs into the cap: its size there is the cap
/// itself, not what the boxes state.
pub open spec fn capped(parser: SizeParser, stated: int, cap: int) -> (int, bool) {
    if stated > cap || (stated == cap && parser == SizeParser::Mp4) {
        (cap, true)
    } else {
        (stated, false)
    }
}

/// Whether the file at `off` may be given the size `sized`, with the note
/// whether it was cut off. In this order count: the size that the file states,
/// up to the cap; the end that a footer marks; the cap. For some formats a hit
/// without a stated size is a false positive and has no size.
pub open spec fn size_may<R: ReadAt + ?Sized>(
    reader: &R,
    sig: SignatureView,
    footers: Seq<u64>,
    off: int,
    cap: int,
    sized: Option<(int, bool)>,
) -> bool {
    exists|stated: Option<int>| #[trigger]
        stated_size_may(reader, sig.parser, off, cap, stated) && (match stated {
            Some(s) => sized == Some(capped(sig.parser, s, cap)),
            None => if must_parse(sig.parser) {
                sized is None
            } else {
                sized matches Some(z) && unstated_size_may(reader, sig, footers, off, cap, z)
            },
        })
}

/// The size of the file at `off` and whether it was cut off.
fn determine_size<R: ReadAt + ?Sized>(
    reader: &R,
    sig: &Signature,
    footers: &[u64],
    off: u64,
    cap: u64,
) -> (sized: Option<(u64, bool)>)
    requires
        sorted_by(footers@, ascending_offsets()),
        off + cap <= u64::MAX,
    ensures
        size_may(
            reader,
            sig@,
            footers@,
            off as int,
            cap as int,
            (match sized {
                Some(z) => Some((z.0 as int, z.1)),
                None => None,
            }),
        ),
        sized matches Some(z) ==> z.0 <= cap,
{
    let stated: Option<u64> = stated_size(reader, sig.parser, off, cap);
    assert(stated_size_may(reader, sig.parser, off as int, cap as int, widened(stated)));
    if let Some(s) = stated {
        if s > cap || (s == cap && sig.parser == SizeParser::Mp4) {
            return Some((cap, true));
        }
        return Some((s, false));
    }
    if sig.parser == SizeParser::Gif || sig.parser == SizeParser::Wav || sig.parser
        == SizeParser::Bmp || sig.parser == SizeParser::Mp4 {
        return None;
    }
    if let Some(footer) = sig.footer {
        let end: Option<u64> = find_footer_end(reader, footers, off, footer, sig, cap);
        proof {
            let at = widened(end);
            let mark = sig@.footer->0;
            assert(mark == footer@);
            assert(footer_search_may(
                reader,
                sig@,
                mark,
                footers@,
                0,
                off as int,
                cap as int,
                at,
            ));
        }
        if let Some(e) = end {
            return Some((e - off, false));
        }
    }
    Some((cap, true))
}

/// Whether a validated file at `off`, taken for type `name` with extension
/// `extension`, may lead to `plan`. It leads to none if its type is not wanted
/// or its size too small; a ZIP file is classified by its content.
pub open spec fn accepted_may<R: ReadAt + ?Sized>(
    reader: &R,
    sig: SignatureView,
    footers: Seq<u64>,
    filter: Option<Set<Seq<char>>>,
    off: int,
    cap: int,
    name: Seq<char>,
    extension: Seq<char>,
    plan: Option<PlanView>,
) -> bool {
    if sig.name == "ftyp"@ && !passes(filter, name) {
        plan is None
    } else {
        exists|sized: Option<(int, bool)>| #[trigger]
            size_may(reader, sig, footers, off, cap, sized) && (match sized {
                None => plan is None,
                Some(z) => if z.0 < sig.min_size {
                    plan is None
                } else if sig.name == "zip"@ {
                    exists|kind: Seq<char>| #[trigger]
                        zip_type_may(reader, off, z.0, kind) && plan == (if passes(filter, kind) {
                            Some(
                                PlanView {
                                    offset: off,
                                    size: z.0,
                                    file_type: kind,
                                    extension: kind,
                                    truncated: z.1,
                                },
                            )
                        } else {
                            None
                        })
                } else {
                    plan == Some(
                        PlanView {
                            offset: off,
                            size: z.0,
                            file_type: name,
                            extension,
                            truncated: z.1,
                        },
                    )
                },
            })
    }
}

/// Whether the hit of `sig` at `hit` on a source of `disk_size` bytes may lead
/// to `plan`. `footers` holds, in ascending order, where footers of the same
/// signature were found.
pub open spec fn plan_may<R: ReadAt + ?Sized>(
    reader: &R,
    disk_size: int,
    hit: int,
    sig: SignatureView,
    footers: Seq<u64>,
    max_size: int,
    filter: Option<Set<Seq<char>>>,
    plan: Option<PlanView>,
) -> bool {
    match file_start(sig, hit) {
        None => plan is None,
        Some(off) => {
            let cap = size_cap(sig, max_size, disk_size, off);
            if !resolved_late(sig) && !passes(filter, sig.name) {
                plan is None
            } else if off > disk_size || cap < sig.min_size {
                plan is None
            } else {
                exists|verdict: Option<(Seq<char>, Seq<char>)>| #[trigger]
                    validation_may(reader, sig, off, verdict) && (match verdict {
                        None => plan is None,
                        Some(v) => accepted_may(
                            reader,
                            sig,
                            footers,
                            filter,
                            off,
                            cap,
                            v.0,
                            v.1,
                            plan,
                        ),
                    })
            }
        },
    }
}

/// Plans the file whose signature, that of index `si`, was found at `hit`:
/// validates it, determines its size and resolves its type. `None` if the hit
/// is a false positive, too small, or not of a type that the filter lets
/// through.
pub fn plan_one<R: ReadAt + ?Sized>(
    reader: &R,
    disk_size: u64,
    hit: u64,
    si: usize,
    sigs: &[Signature],
    footers_by_sig: &[Vec<u64>],
    max_size: u64,
    filter: &Option<TypeFilter>,
) -> (plan: Option<CarvePlan>)
    requires
        si < sigs@.len(),
        si < footers_by_sig@.len(),
        sorted_by(footers_by_sig@[si as int]@, ascending_offsets()),
        sigs@[si as int].validator == Validator::Tiff ==> sigs@[si as int].header@.len() > 0,
    ensures
        plan_may(
            reader,
            disk_size as int,
            hit as int,
            sigs@[si as int]@,
            footers_by_sig@[si as int]@,
            max_size as int,
            chosen(*filter),
            plan_view(plan),
        ),
{
    let sig: &Signature = &sigs[si];
    let zip: bool = same_text(sig.name, "zip");
    let ftyp: bool = same_text(sig.name, "ftyp");
    let off: u64 = if sig.validator == Validator::Ftyp {
        if hit < 4 {
            return None;
        }
        hit - 4
    } else {
        hit
    };
    if !zip && !ftyp && !lets_through(filter, sig.name) {
        return None;
    }
    if off > disk_size {
        return None;
    }
    let mut cap: u64 = disk_size - off;
    if max_size < cap {
        cap = max_size;
    }
    if sig.max_size < cap {
        cap = sig.max_size;
    }
    assert(cap == size_cap(sig@, max_size as int, disk_size as int, off as int));
    if cap < sig.min_size {
        return None;
    }
    let verdict: Option<(&'static str, &'static str)> = validate(reader, sig, off);
    let ghost judged: Option<(Seq<char>, Seq<char>)> = match verdict {
        Some(v) => Some((v.0@, v.1@)),
        None => None,
    };
    assert(validation_may(reader, sig@, off as int, judged));
    let (name, extension): (&'static str, &'static str) = match verdict {
        None => {
            return None;
        },
        Some(v) => v,
    };
    if ftyp && !lets_through(filter, name) {
        return None;
    }
    let footers: &[u64] = footers_by_sig[si].as_slice();
    let sized: Option<(u64, bool)> = determine_size(reader, sig, footers, off, cap);
    let ghost measured: Option<(int, bool)> = match sized {
        Some(z) => Some((z.0 as int, z.1)),
        None => None,
    };
    assert(size_may(reader, sig@, footers@, off as int, cap as int, measured));
    let (size, truncated): (u64, bool) = match sized {
        None => {
            return None;
        },
        Some(z) => z,
    };
    if size < sig.min_size {
        return None;
    }
    if zip {
        let kind: &'static str = classify_zip(reader, off, size);
        assert(zip_type_may(reader, off as int, size as int, kind@));
        if !lets_through(filter, kind) {
            return None;
        }
        return Some(
            CarvePlan {
                offset: off,
                size,
                file_type: kind.to_string(),
                extension: kind.to_string(),
                truncated,
            },
        );
    }
    Some(
        CarvePlan {
            offset: off,
            size,
            file_type: name.to_string(),
            extension: extension.to_string(),
            truncated,
        },
    )
}

// ---------------------------------------------------------------------------
// All hits
// ---------------------------------------------------------------------------

/// The offsets of the matches in `found` that belong to signature `sig`.
pub open spec fn offsets_with(found: Seq<(u64, usize)>, sig: int) -> Seq<u64>
    decreases found.len(),
{
    if found.len() == 0 {
        Seq::empty()
    } else if found.last().1 == sig {
        offsets_with(found.drop_last(), sig).push(found.last().0)
    } else {
        offsets_with(found.drop_last(), sig)
    }
}

/// Where footers of signature `sig` were found, in ascending order.
pub open spec fn footers_of(found: Seq<(u64, usize)>, sig: int) -> Seq<u64> {
    offsets_with(found, sig).sort_by(ascending_offsets())
}

/// The offsets are totally ordered.
proof fn offsets_are_ordered()
    ensures
        total_ordering(ascending_offsets()),
{
}

/// The footers of each of `count` signatures, in ascending order.
fn group_footers(found: &[(u64, usize)], count: usize) -> (groups: Vec<Vec<u64>>)
    ensures
        groups@.len() == count,
        forall|s: int|
            #![trigger groups@[s]]
            0 <= s < count ==> groups@[s]@ == footers_of(found@, s) && sorted_by(
                groups@[s]@,
                ascending_offsets(),
            ),
{
    let mut groups: Vec<Vec<u64>> = Vec::new();
    while groups.len() < count
        invariant
            groups@.len() <= count,
            forall|s: int| #![trigger groups@[s]] 0 <= s < groups@.len() ==> groups@[s]@.len() == 0,
        decreases count - groups@.len(),
    {
        groups.push(Vec::new());
    }
    let mut k: usize = 0;
    assert forall|s: int| 0 <= s < count implies #[trigger] groups@[s]@ == offsets_with(
        found@.take(0),
        s,
    ) by {
        assert(groups@[s]@ =~= Seq::<u64>::empty());
    }
    while k < found.len()
        invariant
            k <= found@.len(),
            groups@.len() == count,
            forall|s: int|
                #![trigger groups@[s]]
                0 <= s < count ==> groups@[s]@ == offsets_with(found@.take(k as int), s),
        decreases found@.len() - k,
    {
        let (f, si): (u64, usize) = found[k];
        let ghost was: Seq<Vec<u64>> = groups@;
        assert(found@.take(k + 1).drop_last() =~= found@.take(k as int));
        if si < count {
            groups[si].push(f);
            assert(groups@[si as int]@ =~= was[si as int]@.push(f));
        }
        k = k + 1;
    }
    assert(found@.take(k as int) =~= found@);
    let mut done: usize = 0;
    while done < count
        invariant
            done <= count,
            groups@.len() == count,
            forall|s: int|
                #![trigger groups@[s]]
                done <= s < count ==> groups@[s]@ == offsets_with(found@, s),
            forall|s: int|
                #![trigger groups@[s]]
                0 <= s < done ==> groups@[s]@ == footers_of(found@, s) && sorted_by(
                    groups@[s]@,
                    ascending_offsets(),
                ),
        decreases count - done,
    {
        let ghost raw: Seq<u64> = groups@[done as int]@;
        sort_offsets(&mut groups[done]);
        proof {
            offsets_are_ordered();
            raw.lemma_sort_by_ensures(ascending_offsets());
            lemma_sorted_unique(
                groups@[done as int]@,
                footers_of(found@, done as int),
                ascending_offsets(),
            );
        }
        done = done + 1;
    }
    groups
}

/// Whether `plan` starts inside the range of one of the plans `kept` that has
/// the same type.
pub open spec fn covered(kept: Seq<CarvePlan>, plan: CarvePlan) -> bool {
    exists|k: int|
        0 <= k < kept.len() && (#[trigger] kept[k]).file_type@ == plan.file_type@ && kept[k].offset
            <= plan.offset < kept[k].offset + kept[k].size
}

/// The plans that are kept of a list in order of offset: those that do not start
/// inside an earlier one of the same type that was kept. A signature there is almost
/// always part of that file's data. Files inside files of other types stay.
pub open spec fn deduplicated(plans: Seq<CarvePlan>) -> Seq<CarvePlan>
    decreases plans.len(),
{
    if plans.len() == 0 {
        Seq::empty()
    } else {
        let kept = deduplicated(plans.drop_last());
        if covered(kept, plans.last()) {
            kept
        } else {
            kept.push(plans.last())
        }
    }
}

/// Where the last of the plans of type `file_type` ends; zero if there is
/// none.
pub open spec fn last_end(plans: Seq<CarvePlan>, file_type: Seq<char>) -> int
    decreases plans.len(),
{
    if plans.len() == 0 {
        0
    } else if plans.last().file_type@ == file_type {
        plans.last().offset + plans.last().size
    } else {
        last_end(plans.drop_last(), file_type)
    }
}

/// What is kept of a list stands in the list.
proof fn deduplication_adds_none(plans: Seq<CarvePlan>)
    ensures
        forall|k: int|
            0 <= k < deduplicated(plans).len() ==> plans.contains(
                #[trigger] deduplicated(plans)[k],
            ),
    decreases plans.len(),
{
    if plans.len() > 0 {
        let rest = plans.drop_last();
        let before = deduplicated(rest);
        let kept = deduplicated(plans);
        deduplication_adds_none(rest);
        assert forall|k: int| 0 <= k < kept.len() implies plans.contains(#[trigger] kept[k]) by {
            if k < before.len() {
                assert(kept[k] == before[k]);
                assert(plans[rest.index_of(before[k])] == before[k]);
            } else {
                assert(kept[k] == plans[plans.len() - 1]);
            }
        }
    }
}

/// Among kept plans, no file of a type ends after the last one of that type,
/// and the last one's end is the end of one of them.
proof fn last_end_is_largest(plans: Seq<CarvePlan>)
    requires
        forall|i: int, j: int|
            0 <= i <= j < plans.len() ==> #[trigger] plans[i].offset <= #[trigger] plans[j].offset,
    ensures
        ({
            let kept = deduplicated(plans);
            &&& forall|k: int|
                0 <= k < kept.len() ==> (#[trigger] kept[k]).offset + kept[k].size <= last_end(
                    kept,
                    kept[k].file_type@,
                )
            &&& forall|t: Seq<char>|
                #![trigger last_end(kept, t)]
                last_end(kept, t) == 0 || exists|k: int|
                    0 <= k < kept.len() && (#[trigger] kept[k]).file_type@ == t && kept[k].offset
                        + kept[k].size == last_end(kept, t)
        }),
    decreases plans.len(),
{
    if plans.len() > 0 {
        last_end_is_largest(plans.drop_last());
        deduplication_adds_none(plans.drop_last());
        let before = deduplicated(plans.drop_last());
        let p = plans.last();
        if !covered(before, p) {
            let kept = before.push(p);
            assert(kept.drop_last() =~= before);
            assert forall|k: int| 0 <= k < kept.len() implies (#[trigger] kept[k]).offset
                + kept[k].size <= last_end(kept, kept[k].file_type@) by {
                if k < before.len() {
                    assert(kept[k] == before[k]);
                    let m = plans.drop_last().index_of(before[k]);
                    assert(plans[m] == before[k]);
                }
            }
            assert forall|t: Seq<char>|
                #![trigger last_end(kept, t)]
                last_end(kept, t) == 0 || exists|k: int|
                    0 <= k < kept.len() && (#[trigger] kept[k]).file_type@ == t && kept[k].offset
                        + kept[k].size == last_end(kept, t) by {
                if p.file_type@ == t {
                    assert(kept[before.len() as int] == p);
                } else if last_end(before, t) != 0 {
                    let k = choose|k: int|
                        0 <= k < before.len() && (#[trigger] before[k]).file_type@ == t
                            && before[k].offset + before[k].size == last_end(before, t);
                    assert(kept[k] == before[k]);
                }
            }
        }
    }
}

/// A plan that starts no earlier than those of an ordered list starts inside a kept one
/// of its type just if it starts before the end of the last one.
proof fn covered_by_last(plans: Seq<CarvePlan>, p: CarvePlan)
    requires
        forall|i: int, j: int|
            0 <= i <= j < plans.len() ==> #[trigger] plans[i].offset <= #[trigger] plans[j].offset,
        forall|k: int| 0 <= k < plans.len() ==> (#[trigger] plans[k]).offset <= p.offset,
    ensures
        covered(deduplicated(plans), p) <==> p.offset < last_end(
            deduplicated(plans),
            p.file_type@,
        ),
{
    last_end_is_largest(plans);
    deduplication_adds_none(plans);
    let kept = deduplicated(plans);
    if covered(kept, p) {
        let k = choose|k: int|
            0 <= k < kept.len() && (#[trigger] kept[k]).file_type@ == p.file_type@
                && kept[k].offset <= p.offset < kept[k].offset + kept[k].size;
        assert(kept[k].offset + kept[k].size <= last_end(kept, kept[k].file_type@));
    }
}

/// The index of the entry of `ends` for a type.
fn find_end(ends: &[(String, u64)], file_type: &str) -> (at: Option<usize>)
    ensures
        match at {
            Some(i) => i < ends@.len() && ends@[i as int].0@ == file_type@,
            None => forall|i: int|
                0 <= i < ends@.len() ==> (#[trigger] ends@[i]).0@ != file_type@,
        },
{
    let mut k: usize = 0;
    while k < ends.len()
        invariant
            k <= ends@.len(),
            forall|i: int| 0 <= i < k ==> (#[trigger] ends@[i]).0@ != file_type@,
        decreases ends@.len() - k,
    {
        if same_text(ends[k].0.as_str(), file_type) {
            return Some(k);
        }
        k = k + 1;
    }
    None
}

/// Keeps those plans that do not start inside a kept one of the same type.
fn deduplicate(plans: Vec<CarvePlan>) -> (kept: Vec<CarvePlan>)
    requires
        forall|i: int, j: int|
            0 <= i <= j < plans@.len() ==> #[trigger] plans@[i].offset
                <= #[trigger] plans@[j].offset,
        forall|k: int|
            0 <= k < plans@.len() ==> (#[trigger] plans@[k]).offset + plans@[k].size <= u64::MAX,
    ensures
        kept@ == deduplicated(plans@),
{
    let ghost all: Seq<CarvePlan> = plans@;
    let mut kept: Vec<CarvePlan> = Vec::new();
    let mut ends: Vec<(String, u64)> = Vec::new();
    assert(all.take(0) =~= Seq::<CarvePlan>::empty());
    for p in it: plans.into_iter()
        invariant
            it.seq() == all,
            kept@ == deduplicated(all.take(it.index() as int)),
            forall|i: int, j: int|
                0 <= i < j < ends@.len() ==> (#[trigger] ends@[i]).0@ != (#[trigger] ends@[j]).0@,
            forall|i: int|
                0 <= i < ends@.len() ==> (#[trigger] ends@[i]).1 == last_end(kept@, ends@[i].0@),
            forall|t: Seq<char>|
                (forall|i: int| 0 <= i < ends@.len() ==> (#[trigger] ends@[i]).0@ != t) ==> (
                #[trigger] last_end(kept@, t)) == 0,
            forall|k: int|
                0 <= k < all.len() ==> (#[trigger] all[k]).offset + all[k].size <= u64::MAX,
            forall|i: int, j: int|
                0 <= i <= j < all.len() ==> #[trigger] all[i].offset <= #[trigger] all[j].offset,
    {
        let ghost i: int = it.index() as int;
        assert(all.take(i + 1).drop_last() =~= all.take(i));
        assert(all.take(i + 1).last() == p);
        assert(all[i] == p);
        proof {
            covered_by_last(all.take(i), p);
        }
        let end: u64 = p.offset + p.size;
        let at: Option<usize> = find_end(&ends, p.file_type.as_str());
        let end_of_previous: u64 = match at {
            Some(e) => ends[e].1,
            None => 0,
        };
        assert(end_of_previous == last_end(kept@, p.file_type@));
        if p.offset >= end_of_previous {
            let ghost was: Seq<(String, u64)> = ends@;
            let ghost before: Seq<CarvePlan> = kept@;
            let name: String = p.file_type.clone();
            match at {
                Some(e) => {
                    ends[e] = (name, end);
                },
                None => {
                    ends.push((name, end));
                },
            }
            kept.push(p);
            proof {
                assert(kept@.drop_last() =~= before);
                assert forall|k: int| 0 <= k < ends@.len() implies (#[trigger] ends@[k]).1
                    == last_end(kept@, ends@[k].0@) by {
                    if ends@[k].0@ != p.file_type@ {
                        assert(ends@[k] == was[k]);
                    } else if k < was.len() && at != Some(k as usize) {
                        assert(ends@[k] == was[k]);
                        assert(false);
                    }
                }
                assert forall|t: Seq<char>|
                    (forall|k: int| 0 <= k < ends@.len() ==> (#[trigger] ends@[k]).0@ != t) implies (
                #[trigger] last_end(kept@, t)) == 0 by {
                    let slot = match at {
                        Some(e) => e as int,
                        None => was.len() as int,
                    };
                    assert(ends@[slot].0@ == p.file_type@);
                    assert forall|k: int| 0 <= k < was.len() implies (#[trigger] was[k]).0@ != t by {
                        assert(ends@[k].0@ != t);
                    }
                    assert(last_end(before, t) == 0);
                }
            }
        }
    }
    assert(all.take(all.len() as int) =~= all);
    kept
}

/// Whether the hits in `headers` may lead to `plans`: each hit is planned by
/// itself, the plans are ordered by offset, and those that start inside one of
/// the same type are dropped.
pub open spec fn plans_may<R: ReadAt + ?Sized>(
    reader: &R,
    disk_size: int,
    headers: Seq<(u64, usize)>,
    footers: Seq<(u64, usize)>,
    sigs: Seq<SignatureView>,
    max_size: int,
    filter: Option<Set<Seq<char>>>,
    plans: Seq<CarvePlan>,
) -> bool {
    exists|outcomes: Seq<Option<CarvePlan>>, ordered: Seq<CarvePlan>|
        {
            &&& hits_planned(
                reader,
                disk_size,
                headers,
                footers,
                sigs,
                max_size,
                filter,
                outcomes,
            )
            &&& #[trigger] stably_ordered(somes(outcomes), ordered)
            &&& plans == deduplicated(ordered)
        }
}

/// Whether `outcomes` holds, hit for hit, what the hits in `headers` may lead
/// to.
pub open spec fn hits_planned<R: ReadAt + ?Sized>(
    reader: &R,
    disk_size: int,
    headers: Seq<(u64, usize)>,
    footers: Seq<(u64, usize)>,
    sigs: Seq<SignatureView>,
    max_size: int,
    filter: Option<Set<Seq<char>>>,
    outcomes: Seq<Option<CarvePlan>>,
) -> bool {
    &&& outcomes.len() == headers.len()
    &&& forall|i: int|
        0 <= i < headers.len() ==> plan_may(
            reader,
            disk_size,
            headers[i].0 as int,
            sigs[headers[i].1 as int],
            footers_of(footers, headers[i].1 as int),
            max_size,
            filter,
            plan_view(#[trigger] outcomes[i]),
        )
}

/// A footer never makes a file larger than the cap.
proof fn footer_within_cap<R: ReadAt + ?Sized>(
    reader: &R,
    sig: SignatureView,
    footer: Seq<u8>,
    footers: Seq<u64>,
    k: int,
    off: int,
    cap: int,
    end: Option<int>,
)
    requires
        footer_search_may(reader, sig, footer, footers, k, off, cap, end),
    ensures
        end matches Some(e) ==> sig.min_size <= e - off <= cap,
    decreases footers.len() - k,
{
    if 0 <= k < footers.len() {
        if footers[k] <= off {
            footer_within_cap(reader, sig, footer, footers, k + 1, off, cap, end);
        } else if footers[k] - off <= cap {
            let e = choose|e: int| #[trigger]
                footer_end_may(reader, sig, footer, footers[k] as int, e) && (if sig.min_size <= e
                    - off <= cap {
                    end == Some(e)
                } else {
                    footer_search_may(reader, sig, footer, footers, k + 1, off, cap, end)
                });
            if !(sig.min_size <= e - off <= cap) {
                footer_within_cap(reader, sig, footer, footers, k + 1, off, cap, end);
            }
        }
    }
}

/// No file is given a size above the cap.
pub(crate) proof fn size_within_cap<R: ReadAt + ?Sized>(
    reader: &R,
    sig: SignatureView,
    footers: Seq<u64>,
    off: int,
    cap: int,
    sized: Option<(int, bool)>,
)
    requires
        size_may(reader, sig, footers, off, cap, sized),
    ensures
        sized matches Some(z) ==> z.0 <= cap,
{
    let stated = choose|stated: Option<int>| #[trigger]
        stated_size_may(reader, sig.parser, off, cap, stated) && (match stated {
            Some(s) => sized == Some(capped(sig.parser, s, cap)),
            None => if must_parse(sig.parser) {
                sized is None
            } else {
                sized matches Some(z) && unstated_size_may(reader, sig, footers, off, cap, z)
            },
        });
    if stated is None && !must_parse(sig.parser) && sig.footer is Some {
        let footer = sig.footer->0;
        let z = sized->0;
        let end = choose|end: Option<int>| #[trigger]
            footer_search_may(reader, sig, footer, footers, 0, off, cap, end) && z == (match end {
                Some(e) => (e - off, false),
                None => (cap, true),
            });
        footer_within_cap(reader, sig, footer, footers, 0, off, cap, end);
    }
}

/// A planned file starts where its signature says, lies within the source, is
/// no larger than the per-type and the given maximum and no smaller than the
/// per-type minimum. If only the entry named "ftyp" is resolved by its brand,
/// as in the database, then it is also of a type that the filter lets through.
pub proof fn plan_is_sound<R: ReadAt + ?Sized>(
    reader: &R,
    disk_size: int,
    hit: int,
    sig: SignatureView,
    footers: Seq<u64>,
    max_size: int,
    filter: Option<Set<Seq<char>>>,
    plan: PlanView,
)
    requires
        plan_may(reader, disk_size, hit, sig, footers, max_size, filter, Some(plan)),
    ensures
        file_start(sig, hit) == Some(plan.offset),
        plan.offset + plan.size <= disk_size,
        sig.min_size <= plan.size,
        plan.size <= sig.max_size,
        plan.size <= max_size,
        (sig.validator == Validator::Ftyp ==> resolved_late(sig)) ==> passes(
            filter,
            plan.file_type,
        ),
{
    let off = file_start(sig, hit)->0;
    let cap = size_cap(sig, max_size, disk_size, off);
    let verdict = choose|verdict: Option<(Seq<char>, Seq<char>)>| #[trigger]
        validation_may(reader, sig, off, verdict) && (match verdict {
            None => false,
            Some(v) => accepted_may(
                reader,
                sig,
                footers,
                filter,
                off,
                cap,
                v.0,
                v.1,
                Some(plan),
            ),
        });
    let v = verdict->0;
    let sized = choose|sized: Option<(int, bool)>| #[trigger]
        size_may(reader, sig, footers, off, cap, sized) && (match sized {
            None => false,
            Some(z) => if z.0 < sig.min_size {
                false
            } else if sig.name == "zip"@ {
                exists|kind: Seq<char>| #[trigger]
                    zip_type_may(reader, off, z.0, kind) && Some(plan) == (if passes(filter, kind) {
                        Some(
                            PlanView {
                                offset: off,
                                size: z.0,
                                file_type: kind,
                                extension: kind,
                                truncated: z.1,
                            },
                        )
                    } else {
                        None
                    })
            } else {
                plan == PlanView {
                    offset: off,
                    size: z.0,
                    file_type: v.0,
                    extension: v.1,
                    truncated: z.1,
                }
            },
        });
    size_within_cap(reader, sig, footers, off, cap, sized);
}

/// Every value that is collected comes from one of the items.
pub proof fn somes_come_from_items<U>(items: Seq<Option<U>>, x: U)
    requires
        somes(items).contains(x),
    ensures
        items.contains(Some(x)),
    decreases items.len(),
{
    if items.len() > 0 {
        let rest = items.drop_last();
        if items.last() == Some(x) {
            assert(items[items.len() - 1] == Some(x));
        } else {
            let k = choose|k: int| 0 <= k < somes(items).len() && somes(items)[k] == x;
            assert(somes(rest).contains(x)) by {
                match items.last() {
                    Some(y) => {
                        assert(k < somes(rest).len());
                        assert(somes(rest)[k] == x);
                    },
                    None => {},
                }
            }
            somes_come_from_items(rest, x);
            let j = choose|j: int| 0 <= j < rest.len() && rest[j] == Some(x);
            assert(items[j] == Some(x));
        }
    }
}

/// Ordering adds no plans.
pub proof fn ordering_adds_none(before: Seq<CarvePlan>, after: Seq<CarvePlan>, p: CarvePlan)
    requires
        stably_ordered(before, after),
        after.contains(p),
    ensures
        before.contains(p),
{
    let pick = starts_at(p.offset);
    let k = choose|k: int| 0 <= k < after.len() && after[k] == p;
    after.lemma_filter_contains(pick, k);
    assert(starting_at(after, p.offset) == starting_at(before, p.offset));
    before.lemma_filter_contains_rev(pick, p);
}

/// Plans the carving of all hits of a scan.
pub fn plan_carves<R: ReadAt + ?Sized>(
    reader: &R,
    disk_size: u64,
    scan: &ScanResult,
    sigs: &[Signature],
    max_size: u64,
    filter: &Option<TypeFilter>,
) -> (plans: Vec<CarvePlan>)
    requires
        forall|i: int|
            0 <= i < scan.headers@.len() ==> (#[trigger] scan.headers@[i]).1 < sigs@.len(),
        forall|s: int|
            0 <= s < sigs@.len() && (#[trigger] sigs@[s]).validator == Validator::Tiff
                ==> sigs@[s].header@.len() > 0,
    ensures
        plans_may(
            reader,
            disk_size as int,
            scan.headers@,
            scan.footers@,
            views(sigs@),
            max_size as int,
            chosen(*filter),
            plans@,
        ),
{
    let groups: Vec<Vec<u64>> = group_footers(&scan.footers, sigs.len());
    let footers: &[Vec<u64>] = groups.as_slice();
    let plan_hit = |h: &(u64, usize)| -> (plan: Option<CarvePlan>)
        requires
            h.1 < sigs@.len(),
        ensures
            plan_may(
                reader,
                disk_size as int,
                h.0 as int,
                views(sigs@)[h.1 as int],
                footers_of(scan.footers@, h.1 as int),
                max_size as int,
                chosen(*filter),
                plan_view(plan),
            ),
        { plan_one(reader, disk_size, h.0, h.1, sigs, footers, max_size, filter) };
    let mut plans: Vec<CarvePlan> = par_filter_map(&scan.headers, plan_hit);
    let ghost found: Seq<CarvePlan> = plans@;
    let ghost outcomes: Seq<Option<CarvePlan>> = choose|results: Seq<Option<CarvePlan>>|
        {
            &&& results.len() == scan.headers@.len()
            &&& forall|i: int|
                0 <= i < scan.headers@.len() ==> call_ensures(
                    plan_hit,
                    (&scan.headers@[i],),
                    #[trigger] results[i],
                )
            &&& found == #[trigger] somes(results)
        };
    assert(hits_planned(
        reader,
        disk_size as int,
        scan.headers@,
        scan.footers@,
        views(sigs@),
        max_size as int,
        chosen(*filter),
        outcomes,
    ));
    sort_by_offset(&mut plans);
    let ghost ordered: Seq<CarvePlan> = plans@;
    assert(stably_ordered(somes(outcomes), ordered));
    assert forall|k: int| 0 <= k < ordered.len() implies (#[trigger] ordered[k]).offset
        + ordered[k].size <= u64::MAX by {
        ordering_adds_none(found, ordered, ordered[k]);
        somes_come_from_items(outcomes, ordered[k]);
        let i = choose|i: int| 0 <= i < outcomes.len() && outcomes[i] == Some(ordered[k]);
        plan_is_sound(
            reader,
            disk_size as int,
            scan.headers@[i].0 as int,
            views(sigs@)[scan.headers@[i].1 as int],
            footers_of(scan.footers@, scan.headers@[i].1 as int),
            max_size as int,
            chosen(*filter),
            ordered[k]@,
        );
    }
    deduplicate(plans)
}

} // verus!
