//! Validators: small positioned reads right after a signature that reject
//! false positives.
//!
//! For each there is a relation between a source, the position of the file and
//! the answer. It holds for the answers that the reads can lead to; on a
//! source that gives one answer to each read, that is a single one.

use vstd::prelude::*;

use crate::bytes::{be32, be32_at, le16, le16_at, le32, le32_at};
use crate::disk::{fetch, fetched, may_fetch, ReadAt};

verus! {

/// "JFIF".
pub const TAG_JFIF: u64 = 0x4A46_4946;

/// "Exif".
pub const TAG_EXIF: u64 = 0x4578_6966;

/// "qt  ".
pub const BRAND_QT: u64 = 0x7174_2020;

/// Whether the first twelve bytes of a JPEG file carry a marker that such a
/// file has in fourth place: APP0 with a JFIF name, APP1 with an Exif name,
/// another APP marker, or the start of a table or frame.
pub open spec fn jpeg_start(b: Seq<u8>) -> bool {
    if b[3] == 0xE0 {
        be32_at(b, 6) == TAG_JFIF && b[10] == 0
    } else if b[3] == 0xE1 {
        be32_at(b, 6) == TAG_EXIF && b[10] == 0 && b[11] == 0
    } else {
        ||| 0xE2 <= b[3] <= 0xEF
        ||| b[3] == 0xDB
        ||| b[3] == 0xC4
        ||| 0xC0 <= b[3] <= 0xC2
    }
}

/// Whether the JPEG check at `off` may come out as `ok`.
pub open spec fn jpeg_may<R: ReadAt + ?Sized>(reader: &R, off: int, ok: bool) -> bool {
    exists|got: Option<Seq<u8>>| #[trigger]
        may_fetch(reader, off, 12, got) && ok == (got matches Some(b) && jpeg_start(b))
}

/// Checks the marker that follows a JPEG header.
pub fn validate_jpeg<R: ReadAt + ?Sized>(reader: &R, off: u64) -> (ok: bool)
    ensures
        jpeg_may(reader, off as int, ok),
{
    let got: Option<Vec<u8>> = fetch(reader, off, 12);
    let ghost seen: Option<Seq<u8>> = fetched(got);
    assert(may_fetch(reader, off as int, 12, seen));
    match got {
        None => false,
        Some(b) => {
            let m: u8 = b[3];
            if m == 0xE0 {
                be32(&b, 6) == TAG_JFIF && b[10] == 0
            } else if m == 0xE1 {
                be32(&b, 6) == TAG_EXIF && b[10] == 0 && b[11] == 0
            } else {
                (0xE2 <= m && m <= 0xEF) || m == 0xDB || m == 0xC4 || (0xC0 <= m && m <= 0xC2)
            }
        },
    }
}

/// Whether the thirty bytes of a ZIP local file header are plausible: a known
/// range of compression methods, a name of 1 to 1024 bytes and an extra field
/// of at most 8192 bytes.
pub open spec fn zip_start(b: Seq<u8>) -> bool {
    &&& le16_at(b, 8) <= 99
    &&& 1 <= le16_at(b, 26) <= 1024
    &&& le16_at(b, 28) <= 8192
}

/// Whether the ZIP check at `off` may come out as `ok`.
pub open spec fn zip_may<R: ReadAt + ?Sized>(reader: &R, off: int, ok: bool) -> bool {
    exists|got: Option<Seq<u8>>| #[trigger]
        may_fetch(reader, off, 30, got) && ok == (got matches Some(b) && zip_start(b))
}

/// Checks the fields of a ZIP local file header.
pub fn validate_zip<R: ReadAt + ?Sized>(reader: &R, off: u64) -> (ok: bool)
    ensures
        zip_may(reader, off as int, ok),
{
    let got: Option<Vec<u8>> = fetch(reader, off, 30);
    let ghost seen: Option<Seq<u8>> = fetched(got);
    assert(may_fetch(reader, off as int, 30, seen));
    match got {
        None => false,
        Some(b) => {
            let method: u64 = le16(&b, 8);
            let name_len: u64 = le16(&b, 26);
            let extra_len: u64 = le16(&b, 28);
            method <= 99 && 1 <= name_len && name_len <= 1024 && extra_len <= 8192
        },
    }
}

/// Whether ten bytes are an ID3v2.2, 2.3 or 2.4 tag header with a syncsafe
/// size: the high bit is clear in each of the four size bytes.
pub open spec fn mp3_start(b: Seq<u8>) -> bool {
    &&& 2 <= b[3] <= 4
    &&& b[6] < 0x80
    &&& b[7] < 0x80
    &&& b[8] < 0x80
    &&& b[9] < 0x80
}

/// Whether the MP3 check at `off` may come out as `ok`.
pub open spec fn mp3_may<R: ReadAt + ?Sized>(reader: &R, off: int, ok: bool) -> bool {
    exists|got: Option<Seq<u8>>| #[trigger]
        may_fetch(reader, off, 10, got) && ok == (got matches Some(b) && mp3_start(b))
}

/// Checks an ID3v2 tag header.
pub fn validate_mp3<R: ReadAt + ?Sized>(reader: &R, off: u64) -> (ok: bool)
    ensures
        mp3_may(reader, off as int, ok),
{
    let got: Option<Vec<u8>> = fetch(reader, off, 10);
    let ghost seen: Option<Seq<u8>> = fetched(got);
    assert(may_fetch(reader, off as int, 10, seen));
    match got {
        None => false,
        Some(b) => {
            2 <= b[3] && b[3] <= 4 && b[6] < 0x80 && b[7] < 0x80 && b[8] < 0x80 && b[9] < 0x80
        },
    }
}

/// Whether ten bytes are a GZIP header with the deflate method, a known set of
/// extra flags and a known operating system.
pub open spec fn gz_start(b: Seq<u8>) -> bool {
    &&& b[2] == 8
    &&& (b[8] == 0 || b[8] == 2 || b[8] == 4)
    &&& (b[9] <= 3 || b[9] == 6 || b[9] == 7 || b[9] == 11 || b[9] == 13 || b[9] == 255)
}

/// Whether the GZIP check at `off` may come out as `ok`.
pub open spec fn gz_may<R: ReadAt + ?Sized>(reader: &R, off: int, ok: bool) -> bool {
    exists|got: Option<Seq<u8>>| #[trigger]
        may_fetch(reader, off, 10, got) && ok == (got matches Some(b) && gz_start(b))
}

/// Checks a GZIP header.
pub fn validate_gz<R: ReadAt + ?Sized>(reader: &R, off: u64) -> (ok: bool)
    ensures
        gz_may(reader, off as int, ok),
{
    let got: Option<Vec<u8>> = fetch(reader, off, 10);
    let ghost seen: Option<Seq<u8>> = fetched(got);
    assert(may_fetch(reader, off as int, 10, seen));
    match got {
        None => false,
        Some(b) => {
            let flags: u8 = b[8];
            let os: u8 = b[9];
            b[2] == 8 && (flags == 0 || flags == 2 || flags == 4) && (os <= 3 || os == 6 || os == 7
                || os == 11 || os == 13 || os == 255)
        },
    }
}

/// Whether ten bytes are a BZIP2 header with a block size digit from '1' to
/// '9' and the magic number of a compressed block.
pub open spec fn bz2_start(b: Seq<u8>) -> bool {
    &&& 0x31 <= b[3] <= 0x39
    &&& be32_at(b, 4) == 0x3141_5926
    &&& b[8] == 0x53
    &&& b[9] == 0x59
}

/// Whether the BZIP2 check at `off` may come out as `ok`.
pub open spec fn bz2_may<R: ReadAt + ?Sized>(reader: &R, off: int, ok: bool) -> bool {
    exists|got: Option<Seq<u8>>| #[trigger]
        may_fetch(reader, off, 10, got) && ok == (got matches Some(b) && bz2_start(b))
}

/// Checks a BZIP2 header and the start of its first block.
pub fn validate_bz2<R: ReadAt + ?Sized>(reader: &R, off: u64) -> (ok: bool)
    ensures
        bz2_may(reader, off as int, ok),
{
    let got: Option<Vec<u8>> = fetch(reader, off, 10);
    let ghost seen: Option<Seq<u8>> = fetched(got);
    assert(may_fetch(reader, off as int, 10, seen));
    match got {
        None => false,
        Some(b) => {
            0x31 <= b[3] && b[3] <= 0x39 && be32(&b, 4) == 0x3141_5926 && b[8] == 0x53 && b[9]
                == 0x59
        },
    }
}

/// Whether the eight bytes of a TIFF header, whose signature starts with
/// `order` ('I' for little-endian), point to a first directory at a sane
/// offset.
pub open spec fn tiff_start(b: Seq<u8>, order: u8) -> bool {
    let ifd = if order == 0x49 {
        le32_at(b, 4)
    } else {
        be32_at(b, 4)
    };
    8 <= ifd <= 0x1000_0000
}

/// Whether the TIFF check at `off` may come out as `ok`.
pub open spec fn tiff_may<R: ReadAt + ?Sized>(
    reader: &R,
    off: int,
    header: Seq<u8>,
    ok: bool,
) -> bool {
    exists|got: Option<Seq<u8>>| #[trigger]
        may_fetch(reader, off, 8, got) && ok == (got matches Some(b) && tiff_start(b, header[0]))
}

/// Checks the directory offset in a TIFF header. `header` is the signature
/// that was found; its first byte tells the byte order.
pub fn validate_tiff<R: ReadAt + ?Sized>(reader: &R, off: u64, header: &[u8]) -> (ok: bool)
    requires
        header@.len() > 0,
    ensures
        tiff_may(reader, off as int, header@, ok),
{
    let got: Option<Vec<u8>> = fetch(reader, off, 8);
    let ghost seen: Option<Seq<u8>> = fetched(got);
    assert(may_fetch(reader, off as int, 8, seen));
    match got {
        None => false,
        Some(b) => {
            let ifd: u64 = if header[0] == 0x49 {
                le32(&b, 4)
            } else {
                be32(&b, 4)
            };
            8 <= ifd && ifd <= 0x1000_0000
        },
    }
}

/// Whether a major brand is one of the MP4 family: isom, iso2, iso3, iso4,
/// iso5, iso6, iso8, mp41, mp42, avc1, "M4V ", "M4A ", MSNV, mmp4, dash, 3gp4,
/// 3gp5, 3g2a or 3g2b.
pub open spec fn is_mp4_brand(brand: int) -> bool {
    ||| brand == 0x6973_6F6D
    ||| brand == 0x6973_6F32
    ||| brand == 0x6973_6F33
    ||| brand == 0x6973_6F34
    ||| brand == 0x6973_6F35
    ||| brand == 0x6973_6F36
    ||| brand == 0x6973_6F38
    ||| brand == 0x6D70_3431
    ||| brand == 0x6D70_3432
    ||| brand == 0x6176_6331
    ||| brand == 0x4D34_5620
    ||| brand == 0x4D34_4120
    ||| brand == 0x4D53_4E56
    ||| brand == 0x6D6D_7034
    ||| brand == 0x6461_7368
    ||| brand == 0x3367_7034
    ||| brand == 0x3367_7035
    ||| brand == 0x3367_3261
    ||| brand == 0x3367_3262
}

/// The type that the first twelve bytes of an `ftyp` box make the file: "mov",
/// "mp4", or none if the box size or the major brand is not plausible.
pub open spec fn ftyp_type(b: Seq<u8>) -> Option<Seq<char>> {
    if !(8 <= be32_at(b, 0) <= 0x10_0000) {
        None
    } else if be32_at(b, 8) == BRAND_QT {
        Some("mov"@)
    } else if is_mp4_brand(be32_at(b, 8)) {
        Some("mp4"@)
    } else {
        None
    }
}

/// Whether the brand check at `off` may resolve to type `kind`.
pub open spec fn ftyp_may<R: ReadAt + ?Sized>(
    reader: &R,
    off: int,
    kind: Option<Seq<char>>,
) -> bool {
    exists|got: Option<Seq<u8>>| #[trigger]
        may_fetch(reader, off, 12, got) && kind == (match got {
            Some(b) => ftyp_type(b),
            None => None,
        })
}

/// Resolves an `ftyp` box at `off` to a type name and an extension by its
/// major brand. Unknown brands are false positives.
pub fn classify_ftyp<R: ReadAt + ?Sized>(reader: &R, off: u64) -> (kind: Option<
    (&'static str, &'static str),
>)
    ensures
        ftyp_may(
            reader,
            off as int,
            (match kind {
                Some(k) => Some(k.0@),
                None => None,
            }),
        ),
        kind matches Some(k) ==> k.0@ == k.1@,
{
    let got: Option<Vec<u8>> = fetch(reader, off, 12);
    let ghost seen: Option<Seq<u8>> = fetched(got);
    assert(may_fetch(reader, off as int, 12, seen));
    match got {
        None => None,
        Some(b) => {
            let box_size: u64 = be32(&b, 0);
            if box_size < 8 || box_size > 0x10_0000 {
                return None;
            }
            let brand: u64 = be32(&b, 8);
            if brand == BRAND_QT {
                Some(("mov", "mov"))
            } else if brand == 0x6973_6F6D || brand == 0x6973_6F32 || brand == 0x6973_6F33 || brand
                == 0x6973_6F34 || brand == 0x6973_6F35 || brand == 0x6973_6F36 || brand
                == 0x6973_6F38 || brand == 0x6D70_3431 || brand == 0x6D70_3432 || brand
                == 0x6176_6331 || brand == 0x4D34_5620 || brand == 0x4D34_4120 || brand
                == 0x4D53_4E56 || brand == 0x6D6D_7034 || brand == 0x6461_7368 || brand
                == 0x3367_7034 || brand == 0x3367_7035 || brand == 0x3367_3261 || brand
                == 0x3367_3262 {
                Some(("mp4", "mp4"))
            } else {
                None
            }
        },
    }
}

} // verus!
