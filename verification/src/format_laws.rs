//! What the validators do to files in an image: those that begin as files of
//! their format begin are kept, all others are dropped.

use vstd::prelude::*;

use crate::bytes::{
    be16_at, be32_at, be64_at, big, integers_are_read_in_order, le16_at, le32_at, le64_at, little,
    same_bytes_same_number,
};
use crate::disk::{image_fetch_is_determined, may_fetch, reads_image, ReadAt};
use crate::formats::{
    bz2_may, bz2_start, ftyp_may, ftyp_type, gz_may, gz_start, is_mp4_brand, jpeg_may, jpeg_start,
    mp3_may, mp3_start, tiff_may, tiff_start, zip_may, zip_start,
};

verus! {

/// Whether `bytes` stand in an image at `pos`.
pub open spec fn holds(image: Seq<u8>, pos: int, bytes: Seq<u8>) -> bool {
    &&& 0 <= pos
    &&& pos + bytes.len() <= image.len()
    &&& forall|k: int| 0 <= k < bytes.len() ==> image[pos + k] == #[trigger] bytes[k]
}

/// Whether the ASCII text `text` stands in an image at `pos`.
pub open spec fn spells(image: Seq<u8>, pos: int, text: Seq<char>) -> bool {
    &&& 0 <= pos
    &&& pos + text.len() <= image.len()
    &&& forall|k: int| 0 <= k < text.len() ==> image[pos + k] as int == #[trigger] text[k] as int
}

/// A read from an image gives the bytes that stand there, and the numbers that
/// they stand for.
pub(crate) proof fn read_here<R: ReadAt + ?Sized>(
    reader: &R,
    image: Seq<u8>,
    off: int,
    len: nat,
    got: Option<Seq<u8>>,
)
    requires
        reads_image(reader, image),
        image.len() <= u64::MAX,
        0 <= off,
        may_fetch(reader, off, len, got),
    ensures
        off + len <= image.len() <==> got is Some,
        got matches Some(b) ==> b == image.subrange(off, off + len) && b.len() == len,
{
    image_fetch_is_determined(reader, image, off, len, got);
}

/// A number in a part of an image is the number in the image.
pub(crate) proof fn number_here(image: Seq<u8>, off: int, b: Seq<u8>, at: int, n: nat)
    requires
        0 <= off,
        0 <= at,
        at + n <= b.len(),
        off + b.len() <= image.len(),
        b == image.subrange(off, off + b.len()),
    ensures
        little(b, at, n) == little(image, off + at, n),
        big(b, at, n) == big(image, off + at, n),
        n == 2 ==> le16_at(b, at) == little(image, off + at, n),
        n == 4 ==> le32_at(b, at) == little(image, off + at, n),
        n == 8 ==> le64_at(b, at) == little(image, off + at, n),
        n == 2 ==> be16_at(b, at) == big(image, off + at, n),
        n == 4 ==> be32_at(b, at) == big(image, off + at, n),
        n == 8 ==> be64_at(b, at) == big(image, off + at, n),
{
    assert forall|k: int| 0 <= k < n implies #[trigger] b[at + k] == image[off + at + k] by {}
    same_bytes_same_number(b, at, image, off + at, n);
    integers_are_read_in_order(b, at);
}

/// A file with a JPEG header is kept just if its next marker is one that such a
/// file begins with: APP0 that is named "JFIF", APP1 that is named "Exif", any
/// other APP marker, or a table or frame.
pub proof fn jpeg_check_is_exact<R: ReadAt + ?Sized>(
    reader: &R,
    image: Seq<u8>,
    off: int,
    ok: bool,
)
    requires
        reads_image(reader, image),
        image.len() <= u64::MAX,
        0 <= off,
        jpeg_may(reader, off, ok),
    ensures
        off + 12 > image.len() ==> !ok,
        off + 12 <= image.len() && image[off + 3] == 0xE0 ==> ok == (spells(
            image,
            off + 6,
            "JFIF"@,
        ) && image[off + 10] == 0),
        off + 12 <= image.len() && image[off + 3] == 0xE1 ==> ok == (spells(
            image,
            off + 6,
            "Exif"@,
        ) && image[off + 10] == 0 && image[off + 11] == 0),
        off + 12 <= image.len() && 0xE2 <= image[off + 3] <= 0xEF ==> ok,
        off + 12 <= image.len() && image[off + 3] < 0xE0 ==> ok == (image[off + 3] == 0xDB
            || image[off + 3] == 0xC4 || image[off + 3] == 0xC0 || image[off + 3] == 0xC1
            || image[off + 3] == 0xC2),
        off + 12 <= image.len() && image[off + 3] > 0xEF ==> !ok,
{
    reveal_strlit("JFIF");
    reveal_strlit("Exif");
    let got = choose|got: Option<Seq<u8>>| #[trigger]
        may_fetch(reader, off, 12, got) && ok == (got matches Some(b)
            && jpeg_start(b));
    read_here(reader, image, off, 12, got);
    if let Some(b) = got {
        let t = "JFIF"@;
        let u = "Exif"@;
        assert(b[6] == image[off + 6] && b[7] == image[off + 7] && b[8] == image[off + 8] && b[9]
            == image[off + 9]);
        if spells(image, off + 6, t) {
            assert(image[off + 6 + 0] as int == t[0] as int);
            assert(image[off + 6 + 1] as int == t[1] as int);
            assert(image[off + 6 + 2] as int == t[2] as int);
            assert(image[off + 6 + 3] as int == t[3] as int);
        }
        if spells(image, off + 6, u) {
            assert(image[off + 6 + 0] as int == u[0] as int);
            assert(image[off + 6 + 1] as int == u[1] as int);
            assert(image[off + 6 + 2] as int == u[2] as int);
            assert(image[off + 6 + 3] as int == u[3] as int);
        }
        if b[3] == 0xE0 && ok {
            assert(b[6] == 0x4A && b[7] == 0x46 && b[8] == 0x49 && b[9] == 0x46);
            assert forall|k: int| 0 <= k < 4 implies image[off + 6 + k] as int
                == #[trigger] t[k] as int by {
                assert(k == 0 || k == 1 || k == 2 || k == 3);
            }
        }
        if b[3] == 0xE1 && ok {
            assert(b[6] == 0x45 && b[7] == 0x78 && b[8] == 0x69 && b[9] == 0x66);
            assert forall|k: int| 0 <= k < 4 implies image[off + 6 + k] as int
                == #[trigger] u[k] as int by {
                assert(k == 0 || k == 1 || k == 2 || k == 3);
            }
        }
    }
}

/// A file with a ZIP header is kept just if its compression method is at most
/// 99, its name has 1 to 1024 bytes and its extra field at most 8192, all of
/// them least significant byte first.
pub proof fn zip_check_is_exact<R: ReadAt + ?Sized>(reader: &R, image: Seq<u8>, off: int, ok: bool)
    requires
        reads_image(reader, image),
        image.len() <= u64::MAX,
        0 <= off,
        zip_may(reader, off, ok),
    ensures
        ok == (off + 30 <= image.len() && little(image, off + 8, 2) <= 99 && 1 <= little(
            image,
            off + 26,
            2,
        ) <= 1024 && little(image, off + 28, 2) <= 8192),
{
    let got = choose|got: Option<Seq<u8>>| #[trigger]
        may_fetch(reader, off, 30, got) && ok == (got matches Some(b)
            && zip_start(b));
    read_here(reader, image, off, 30, got);
    if let Some(b) = got {
        number_here(image, off, b, 8, 2);
        number_here(image, off, b, 26, 2);
        number_here(image, off, b, 28, 2);
    }
}

/// A file with an ID3 tag is kept just if the tag is of version 2.2, 2.3 or 2.4
/// and each of its four size bytes is below 128.
pub proof fn mp3_check_is_exact<R: ReadAt + ?Sized>(reader: &R, image: Seq<u8>, off: int, ok: bool)
    requires
        reads_image(reader, image),
        image.len() <= u64::MAX,
        0 <= off,
        mp3_may(reader, off, ok),
    ensures
        ok == (off + 10 <= image.len() && (image[off + 3] == 2 || image[off + 3] == 3 || image[off
            + 3] == 4) && forall|k: int| 6 <= k < 10 ==> #[trigger] image[off + k] < 128),
{
    let got = choose|got: Option<Seq<u8>>| #[trigger]
        may_fetch(reader, off, 10, got) && ok == (got matches Some(b)
            && mp3_start(b));
    read_here(reader, image, off, 10, got);
    if let Some(b) = got {
        assert(b[3] == image[off + 3]);
        assert(b[6] == image[off + 6] && b[7] == image[off + 7] && b[8] == image[off + 8] && b[9]
            == image[off + 9]);
        if ok {
            assert forall|k: int| 6 <= k < 10 implies #[trigger] image[off + k] < 128 by {
                assert(k == 6 || k == 7 || k == 8 || k == 9);
            }
        }
    }
}

/// A file with a GZIP header is kept just if it is deflated and its extra flags
/// and its operating system are among those that are in use.
pub proof fn gz_check_is_exact<R: ReadAt + ?Sized>(reader: &R, image: Seq<u8>, off: int, ok: bool)
    requires
        reads_image(reader, image),
        image.len() <= u64::MAX,
        0 <= off,
        gz_may(reader, off, ok),
    ensures
        ok == (off + 10 <= image.len() && image[off + 2] == 8 && set![0u8, 2, 4].contains(
            image[off + 8],
        ) && set![0u8, 1, 2, 3, 6, 7, 11, 13, 255].contains(image[off + 9])),
{
    let got = choose|got: Option<Seq<u8>>| #[trigger]
        may_fetch(reader, off, 10, got) && ok == (got matches Some(b)
            && gz_start(b));
    read_here(reader, image, off, 10, got);
    if let Some(b) = got {
        assert(b[2] == image[off + 2] && b[8] == image[off + 8] && b[9] == image[off + 9]);
    }
}

/// A file with a BZIP2 header is kept just if its level is a digit from 1 to 9
/// and the magic number of a block follows, the digits of pi.
pub proof fn bz2_check_is_exact<R: ReadAt + ?Sized>(reader: &R, image: Seq<u8>, off: int, ok: bool)
    requires
        reads_image(reader, image),
        image.len() <= u64::MAX,
        0 <= off,
        bz2_may(reader, off, ok),
    ensures
        ok == (off + 10 <= image.len() && '1' as int <= image[off + 3] <= '9' as int && holds(
            image,
            off + 4,
            seq![0x31, 0x41, 0x59, 0x26, 0x53, 0x59],
        )),
{
    let magic: Seq<u8> = seq![0x31, 0x41, 0x59, 0x26, 0x53, 0x59];
    let got = choose|got: Option<Seq<u8>>| #[trigger]
        may_fetch(reader, off, 10, got) && ok == (got matches Some(b)
            && bz2_start(b));
    read_here(reader, image, off, 10, got);
    if let Some(b) = got {
        assert(b[3] == image[off + 3]);
        assert forall|k: int| 4 <= k < 10 implies #[trigger] b[k] == image[off + 4 + (k - 4)] by {}
        if ok {
            assert(b[4] == 0x31 && b[5] == 0x41 && b[6] == 0x59 && b[7] == 0x26);
            assert forall|k: int| 0 <= k < magic.len() implies image[off + 4 + k]
                == #[trigger] magic[k] by {
                assert(b[4 + k] == image[off + 4 + k]);
                assert(k == 0 || k == 1 || k == 2 || k == 3 || k == 4 || k == 5);
            }
        }
        if holds(image, off + 4, magic) {
            assert(magic[0] == b[4] && magic[1] == b[5] && magic[2] == b[6] && magic[3] == b[7]
                && magic[4] == b[8] && magic[5] == b[9]);
        }
    }
}

/// A file with a TIFF header is kept just if its first directory stands at an
/// offset from 8 to 2^28, given in the byte order of the header: "II" is least
/// significant byte first.
pub proof fn tiff_check_is_exact<R: ReadAt + ?Sized>(
    reader: &R,
    image: Seq<u8>,
    off: int,
    header: Seq<u8>,
    ok: bool,
)
    requires
        reads_image(reader, image),
        image.len() <= u64::MAX,
        0 <= off,
        header.len() > 0,
        tiff_may(reader, off, header, ok),
    ensures
        header[0] as int == 'I' as int ==> ok == (off + 8 <= image.len() && 8 <= little(
            image,
            off + 4,
            4,
        ) <= 268435456),
        header[0] as int == 'M' as int ==> ok == (off + 8 <= image.len() && 8 <= big(
            image,
            off + 4,
            4,
        ) <= 268435456),
{
    let got = choose|got: Option<Seq<u8>>| #[trigger]
        may_fetch(reader, off, 8, got) && ok == (got matches Some(b)
            && tiff_start(b, header[0]));
    read_here(reader, image, off, 8, got);
    if let Some(b) = got {
        number_here(image, off, b, 4, 4);
    }
}

/// The major brands of the MP4 family.
pub open spec fn mp4_brands() -> Seq<Seq<char>> {
    seq![
        "isom"@,
        "iso2"@,
        "iso3"@,
        "iso4"@,
        "iso5"@,
        "iso6"@,
        "iso8"@,
        "mp41"@,
        "mp42"@,
        "avc1"@,
        "M4V "@,
        "M4A "@,
        "MSNV"@,
        "mmp4"@,
        "dash"@,
        "3gp4"@,
        "3gp5"@,
        "3g2a"@,
        "3g2b"@,
    ]
}

/// The number that the four letters of a brand make.
pub open spec fn brand_number(t: Seq<char>) -> int {
    16777216 * (t[0] as int) + 65536 * (t[1] as int) + 256 * (t[2] as int) + (t[3] as int)
}

/// A multiple of 256 is near zero only if it is zero.
proof fn only_zero(x: int, d: int)
    requires
        256 * x + d == 0,
        -256 < d < 256,
    ensures
        x == 0,
        d == 0,
{
}

/// A brand stands where its number stands.
pub(crate) proof fn brand_stands(image: Seq<u8>, pos: int, t: Seq<char>)
    requires
        t.len() == 4,
        0 <= pos,
        pos + 4 <= image.len(),
        forall|k: int| 0 <= k < 4 ==> 0 <= (#[trigger] t[k]) as int <= 127,
    ensures
        spells(image, pos, t) <==> big(image, pos, 4) == brand_number(t),
{
    reveal_with_fuel(big, 5);
    if spells(image, pos, t) {
        assert(image[pos + 0] as int == t[0] as int);
        assert(image[pos + 1] as int == t[1] as int);
        assert(image[pos + 2] as int == t[2] as int);
        assert(image[pos + 3] as int == t[3] as int);
    }
    if big(image, pos, 4) == brand_number(t) {
        assert(t[0] as int <= 127 && t[1] as int <= 127 && t[2] as int <= 127 && t[3] as int
            <= 127);
        let a = image[pos] - t[0] as int;
        let b = image[pos + 1] - t[1] as int;
        let c = image[pos + 2] - t[2] as int;
        let d = image[pos + 3] - t[3] as int;
        let upper = 65536 * a + 256 * b + c;
        only_zero(upper, d);
        only_zero(256 * a + b, c);
        only_zero(a, b);
        assert forall|k: int| 0 <= k < 4
            implies image[pos + k] as int == #[trigger] t[k] as int by {
            assert(k == 0 || k == 1 || k == 2 || k == 3);
        }
    }
}

/// The numbers of the brands.
proof fn brand_numbers(m: int)
    requires
        0 <= m < mp4_brands().len(),
    ensures
        mp4_brands()[m].len() == 4,
        forall|k: int| 0 <= k < 4 ==> 0 <= (#[trigger] mp4_brands()[m][k]) as int <= 127,
        is_mp4_brand(brand_number(mp4_brands()[m])),
        brand_number(mp4_brands()[m]) != 0x7174_2020,
{
    reveal_strlit("isom");
    reveal_strlit("iso2");
    reveal_strlit("iso3");
    reveal_strlit("iso4");
    reveal_strlit("iso5");
    reveal_strlit("iso6");
    reveal_strlit("iso8");
    reveal_strlit("mp41");
    reveal_strlit("mp42");
    reveal_strlit("avc1");
    reveal_strlit("M4V ");
    reveal_strlit("M4A ");
    reveal_strlit("MSNV");
    reveal_strlit("mmp4");
    reveal_strlit("dash");
    reveal_strlit("3gp4");
    reveal_strlit("3gp5");
    reveal_strlit("3g2a");
    reveal_strlit("3g2b");
}

/// Every number that is a brand's is that of one of the brands.
proof fn brands_are_listed(n: int) -> (m: int)
    requires
        is_mp4_brand(n),
    ensures
        0 <= m < mp4_brands().len(),
        brand_number(mp4_brands()[m]) == n,
{
    reveal_strlit("isom");
    reveal_strlit("iso2");
    reveal_strlit("iso3");
    reveal_strlit("iso4");
    reveal_strlit("iso5");
    reveal_strlit("iso6");
    reveal_strlit("iso8");
    reveal_strlit("mp41");
    reveal_strlit("mp42");
    reveal_strlit("avc1");
    reveal_strlit("M4V ");
    reveal_strlit("M4A ");
    reveal_strlit("MSNV");
    reveal_strlit("mmp4");
    reveal_strlit("dash");
    reveal_strlit("3gp4");
    reveal_strlit("3gp5");
    reveal_strlit("3g2a");
    reveal_strlit("3g2b");
    let b = mp4_brands();
    if n == brand_number(b[0]) {
        0
    } else if n == brand_number(b[1]) {
        1
    } else if n == brand_number(b[2]) {
        2
    } else if n == brand_number(b[3]) {
        3
    } else if n == brand_number(b[4]) {
        4
    } else if n == brand_number(b[5]) {
        5
    } else if n == brand_number(b[6]) {
        6
    } else if n == brand_number(b[7]) {
        7
    } else if n == brand_number(b[8]) {
        8
    } else if n == brand_number(b[9]) {
        9
    } else if n == brand_number(b[10]) {
        10
    } else if n == brand_number(b[11]) {
        11
    } else if n == brand_number(b[12]) {
        12
    } else if n == brand_number(b[13]) {
        13
    } else if n == brand_number(b[14]) {
        14
    } else if n == brand_number(b[15]) {
        15
    } else if n == brand_number(b[16]) {
        16
    } else if n == brand_number(b[17]) {
        17
    } else {
        18
    }
}

/// A box that is named "ftyp" begins a MOV file if its brand is "qt  ", an MP4
/// file if it is one of the MP4 family, and is a false positive otherwise, or
/// if its size is not between 8 bytes and 2^20.
pub proof fn brand_check_is_exact<R: ReadAt + ?Sized>(
    reader: &R,
    image: Seq<u8>,
    off: int,
    kind: Option<Seq<char>>,
)
    requires
        reads_image(reader, image),
        image.len() <= u64::MAX,
        0 <= off,
        ftyp_may(reader, off, kind),
    ensures
        off + 12 > image.len() ==> kind is None,
        off + 12 <= image.len() && !(8 <= big(image, off, 4) <= 1048576) ==> kind is None,
        off + 12 <= image.len() && 8 <= big(image, off, 4) <= 1048576 ==> {
            &&& spells(image, off + 8, "qt  "@) <==> kind == Some("mov"@)
            &&& (exists|m: int|
                #![trigger mp4_brands()[m]]
                0 <= m < mp4_brands().len() && spells(image, off + 8, mp4_brands()[m]))
                <==> kind == Some("mp4"@)
            &&& kind is Some ==> kind == Some("mov"@) || kind == Some("mp4"@)
        },
{
    reveal_strlit("qt  ");
    reveal_strlit("mov");
    reveal_strlit("mp4");
    assert("mov"@[1] != "mp4"@[1]);
    let got = choose|got: Option<Seq<u8>>| #[trigger]
        may_fetch(reader, off, 12, got) && kind == (match got {
            Some(b) => ftyp_type(b),
            None => None,
        });
    read_here(reader, image, off, 12, got);
    if let Some(b) = got {
        number_here(image, off, b, 0, 4);
        number_here(image, off, b, 8, 4);
        let n = big(image, off + 8, 4);
        brand_stands(image, off + 8, "qt  "@);
        assert(brand_number("qt  "@) == 0x7174_2020);
        if is_mp4_brand(n) {
            let m = brands_are_listed(n);
            brand_numbers(m);
            brand_stands(image, off + 8, mp4_brands()[m]);
        }
        assert forall|m: int|
            #![trigger mp4_brands()[m]]
            0 <= m < mp4_brands().len() && spells(image, off + 8, mp4_brands()[m]) implies {
            is_mp4_brand(n) && n != 0x7174_2020
        } by {
            brand_numbers(m);
            brand_stands(image, off + 8, mp4_brands()[m]);
        }
    }
}

} // verus!
