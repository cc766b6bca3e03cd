//! The built-in database of file signatures.

use vstd::prelude::*;

use crate::text::{ascending, before, comes_before, inserted_in_order, same_text};

verus! {

/// Which size parser applies to a format.
#[derive(Debug, Clone, Copy, PartialEq, Eq, Structural)]
pub enum SizeParser {
    /// The format has none.
    Absent,
    Gif,
    Mp4,
    Sqlite,
    SevenZip,
    Wav,
    Bmp,
}

/// Which check of the bytes right after the header applies to a format.
#[derive(Debug, Clone, Copy, PartialEq, Eq, Structural)]
pub enum Validator {
    /// The format has none.
    Absent,
    Jpeg,
    Zip,
    Mp3,
    Ftyp,
    Gz,
    Bz2,
    Tiff,
}

/// A format that can be recovered.
pub struct Signature {
    /// The name by which the format is chosen. The entry for `ftyp` boxes
    /// resolves to "mp4" or "mov" when a file is planned.
    pub name: &'static str,
    pub extension: &'static str,
    pub header: &'static [u8],
    /// The bytes that mark the end of a file, if the format has such.
    pub footer: Option<&'static [u8]>,
    /// The largest file that is carved.
    pub max_size: u64,
    /// Smaller files are discarded as noise.
    pub min_size: u64,
    pub parser: SizeParser,
    pub validator: Validator,
    /// Whether the format tells its own length, by a size, a chain of blocks
    /// or a footer.
    pub has_internal_size: bool,
}

/// What a [`Signature`] says.
#[verifier::ext_equal]
pub struct SignatureView {
    pub name: Seq<char>,
    pub extension: Seq<char>,
    pub header: Seq<u8>,
    pub footer: Option<Seq<u8>>,
    pub max_size: int,
    pub min_size: int,
    pub parser: SizeParser,
    pub validator: Validator,
    pub has_internal_size: bool,
}

impl View for Signature {
    type V = SignatureView;

    open spec fn view(&self) -> SignatureView {
        SignatureView {
            name: self.name@,
            extension: self.extension@,
            header: self.header@,
            footer: match self.footer {
                Some(f) => Some(f@),
                None => None,
            },
            max_size: self.max_size as int,
            min_size: self.min_size as int,
            parser: self.parser,
            validator: self.validator,
            has_internal_size: self.has_internal_size,
        }
    }
}

/// What each signature of a list says.
pub open spec fn views(sigs: Seq<Signature>) -> Seq<SignatureView> {
    sigs.map_values(|s: Signature| s@)
}

pub const KB: u64 = 1024;

pub const MB: u64 = 1024 * KB;

pub const GB: u64 = 1024 * MB;

/// The formats that can be recovered, in the order in which they are matched.
pub open spec fn signature_table() -> Seq<SignatureView> {
    seq![
        // JPEG. All variants share this prefix; the validator looks at the marker after it.
        SignatureView {
            name: "jpg"@,
            extension: "jpg"@,
            header: seq![0xFF, 0xD8, 0xFF],
            footer: Some(seq![0xFF, 0xD9]),
            max_size: 128 * MB as int,
            min_size: 512,
            parser: SizeParser::Absent,
            validator: Validator::Jpeg,
            has_internal_size: true,
        },
        // PNG. The footer is the IEND chunk with its checksum.
        SignatureView {
            name: "png"@,
            extension: "png"@,
            header: seq![0x89, 0x50, 0x4E, 0x47, 0x0D, 0x0A, 0x1A, 0x0A],
            footer: Some(seq![0x49, 0x45, 0x4E, 0x44, 0xAE, 0x42, 0x60, 0x82]),
            max_size: 512 * MB as int,
            min_size: 64,
            parser: SizeParser::Absent,
            validator: Validator::Absent,
            has_internal_size: true,
        },
        // "%PDF-", ended by "%%EOF".
        SignatureView {
            name: "pdf"@,
            extension: "pdf"@,
            header: seq![0x25, 0x50, 0x44, 0x46, 0x2D],
            footer: Some(seq![0x25, 0x25, 0x45, 0x4F, 0x46]),
            max_size: 2 * GB as int,
            min_size: 128,
            parser: SizeParser::Absent,
            validator: Validator::Absent,
            has_internal_size: true,
        },
        // "GIF87a".
        SignatureView {
            name: "gif"@,
            extension: "gif"@,
            header: seq![0x47, 0x49, 0x46, 0x38, 0x37, 0x61],
            footer: None,
            max_size: 64 * MB as int,
            min_size: 14,
            parser: SizeParser::Gif,
            validator: Validator::Absent,
            has_internal_size: true,
        },
        // "GIF89a".
        SignatureView {
            name: "gif"@,
            extension: "gif"@,
            header: seq![0x47, 0x49, 0x46, 0x38, 0x39, 0x61],
            footer: None,
            max_size: 64 * MB as int,
            min_size: 14,
            parser: SizeParser::Gif,
            validator: Validator::Absent,
            has_internal_size: true,
        },
        // "ftyp", the type of the first box of an MP4 or MOV file.
        SignatureView {
            name: "ftyp"@,
            extension: "mp4"@,
            header: seq![0x66, 0x74, 0x79, 0x70],
            footer: None,
            max_size: 32 * GB as int,
            min_size: 32,
            parser: SizeParser::Mp4,
            validator: Validator::Ftyp,
            has_internal_size: true,
        },
        // ZIP, which office documents are too. The footer is the end of the central directory.
        SignatureView {
            name: "zip"@,
            extension: "zip"@,
            header: seq![0x50, 0x4B, 0x03, 0x04],
            footer: Some(seq![0x50, 0x4B, 0x05, 0x06]),
            max_size: 8 * GB as int,
            min_size: 32,
            parser: SizeParser::Absent,
            validator: Validator::Zip,
            has_internal_size: true,
        },
        // "ID3". Files without such a tag are not detected.
        SignatureView {
            name: "mp3"@,
            extension: "mp3"@,
            header: seq![0x49, 0x44, 0x33],
            footer: None,
            max_size: 64 * MB as int,
            min_size: 128,
            parser: SizeParser::Absent,
            validator: Validator::Mp3,
            has_internal_size: false,
        },
        // "RIFF".
        SignatureView {
            name: "wav"@,
            extension: "wav"@,
            header: seq![0x52, 0x49, 0x46, 0x46],
            footer: None,
            max_size: 8 * GB as int,
            min_size: 64,
            parser: SizeParser::Wav,
            validator: Validator::Absent,
            has_internal_size: true,
        },
        // "SQLite format 3" and a zero byte.
        SignatureView {
            name: "sqlite"@,
            extension: "sqlite"@,
            header: seq![0x53, 0x51, 0x4C, 0x69, 0x74, 0x65, 0x20, 0x66, 0x6F, 0x72, 0x6D, 0x61, 0x74, 0x20, 0x33, 0x00],
            footer: None,
            max_size: 16 * GB as int,
            min_size: 512,
            parser: SizeParser::Sqlite,
            validator: Validator::Absent,
            has_internal_size: true,
        },
        // "BM".
        SignatureView {
            name: "bmp"@,
            extension: "bmp"@,
            header: seq![0x42, 0x4D],
            footer: None,
            max_size: 256 * MB as int,
            min_size: 64,
            parser: SizeParser::Bmp,
            validator: Validator::Absent,
            has_internal_size: true,
        },
        // TIFF, little-endian.
        SignatureView {
            name: "tiff"@,
            extension: "tiff"@,
            header: seq![0x49, 0x49, 0x2A, 0x00],
            footer: None,
            max_size: 1 * GB as int,
            min_size: 32,
            parser: SizeParser::Absent,
            validator: Validator::Tiff,
            has_internal_size: false,
        },
        // TIFF, big-endian.
        SignatureView {
            name: "tiff"@,
            extension: "tiff"@,
            header: seq![0x4D, 0x4D, 0x00, 0x2A],
            footer: None,
            max_size: 1 * GB as int,
            min_size: 32,
            parser: SizeParser::Absent,
            validator: Validator::Tiff,
            has_internal_size: false,
        },
        // "Rar!" with the RAR 4.x marker.
        SignatureView {
            name: "rar"@,
            extension: "rar"@,
            header: seq![0x52, 0x61, 0x72, 0x21, 0x1A, 0x07, 0x00],
            footer: None,
            max_size: 8 * GB as int,
            min_size: 32,
            parser: SizeParser::Absent,
            validator: Validator::Absent,
            has_internal_size: false,
        },
        // "Rar!" with the RAR 5.x marker.
        SignatureView {
            name: "rar"@,
            extension: "rar"@,
            header: seq![0x52, 0x61, 0x72, 0x21, 0x1A, 0x07, 0x01, 0x00],
            footer: None,
            max_size: 8 * GB as int,
            min_size: 32,
            parser: SizeParser::Absent,
            validator: Validator::Absent,
            has_internal_size: false,
        },
        // 7z.
        SignatureView {
            name: "7z"@,
            extension: "7z"@,
            header: seq![0x37, 0x7A, 0xBC, 0xAF, 0x27, 0x1C],
            footer: None,
            max_size: 16 * GB as int,
            min_size: 32,
            parser: SizeParser::SevenZip,
            validator: Validator::Absent,
            has_internal_size: true,
        },
        // GZIP.
        SignatureView {
            name: "gz"@,
            extension: "gz"@,
            header: seq![0x1F, 0x8B],
            footer: None,
            max_size: 4 * GB as int,
            min_size: 24,
            parser: SizeParser::Absent,
            validator: Validator::Gz,
            has_internal_size: false,
        },
        // "BZh".
        SignatureView {
            name: "bz2"@,
            extension: "bz2"@,
            header: seq![0x42, 0x5A, 0x68],
            footer: None,
            max_size: 4 * GB as int,
            min_size: 24,
            parser: SizeParser::Absent,
            validator: Validator::Bz2,
            has_internal_size: false,
        },
        // "bplist00".
        SignatureView {
            name: "plist"@,
            extension: "plist"@,
            header: seq![0x62, 0x70, 0x6C, 0x69, 0x73, 0x74, 0x30, 0x30],
            footer: None,
            max_size: 64 * MB as int,
            min_size: 16,
            parser: SizeParser::Absent,
            validator: Validator::Absent,
            has_internal_size: false,
        },
    ]
}

/// The signature database.
pub fn database() -> (db: &'static [Signature])
    ensures
        views(db@) == signature_table(),
{
    let db: &'static [Signature] = &[
        // JPEG. All variants share this prefix; the validator looks at the marker after it.
        Signature {
            name: "jpg",
            extension: "jpg",
            header: &[0xFF, 0xD8, 0xFF],
            footer: Some(&[0xFF, 0xD9]),
            max_size: 128 * MB,
            min_size: 512,
            parser: SizeParser::Absent,
            validator: Validator::Jpeg,
            has_internal_size: true,
        },
        // PNG. The footer is the IEND chunk with its checksum.
        Signature {
            name: "png",
            extension: "png",
            header: &[0x89, 0x50, 0x4E, 0x47, 0x0D, 0x0A, 0x1A, 0x0A],
            footer: Some(&[0x49, 0x45, 0x4E, 0x44, 0xAE, 0x42, 0x60, 0x82]),
            max_size: 512 * MB,
            min_size: 64,
            parser: SizeParser::Absent,
            validator: Validator::Absent,
            has_internal_size: true,
        },
        // "%PDF-", ended by "%%EOF".
        Signature {
            name: "pdf",
            extension: "pdf",
            header: &[0x25, 0x50, 0x44, 0x46, 0x2D],
            footer: Some(&[0x25, 0x25, 0x45, 0x4F, 0x46]),
            max_size: 2 * GB,
            min_size: 128,
            parser: SizeParser::Absent,
            validator: Validator::Absent,
            has_internal_size: true,
        },
        // "GIF87a".
        Signature {
            name: "gif",
            extension: "gif",
            header: &[0x47, 0x49, 0x46, 0x38, 0x37, 0x61],
            footer: None,
            max_size: 64 * MB,
            min_size: 14,
            parser: SizeParser::Gif,
            validator: Validator::Absent,
            has_internal_size: true,
        },
        // "GIF89a".
        Signature {
            name: "gif",
            extension: "gif",
            header: &[0x47, 0x49, 0x46, 0x38, 0x39, 0x61],
            footer: None,
            max_size: 64 * MB,
            min_size: 14,
            parser: SizeParser::Gif,
            validator: Validator::Absent,
            has_internal_size: true,
        },
        // "ftyp", the type of the first box of an MP4 or MOV file.
        Signature {
            name: "ftyp",
            extension: "mp4",
            header: &[0x66, 0x74, 0x79, 0x70],
            footer: None,
            max_size: 32 * GB,
            min_size: 32,
            parser: SizeParser::Mp4,
            validator: Validator::Ftyp,
            has_internal_size: true,
        },
        // ZIP, which office documents are too. The footer is the end of the central directory.
        Signature {
            name: "zip",
            extension: "zip",
            header: &[0x50, 0x4B, 0x03, 0x04],
            footer: Some(&[0x50, 0x4B, 0x05, 0x06]),
            max_size: 8 * GB,
            min_size: 32,
            parser: SizeParser::Absent,
            validator: Validator::Zip,
            has_internal_size: true,
        },
        // "ID3". Files without such a tag are not detected.
        Signature {
            name: "mp3",
            extension: "mp3",
            header: &[0x49, 0x44, 0x33],
            footer: None,
            max_size: 64 * MB,
            min_size: 128,
            parser: SizeParser::Absent,
            validator: Validator::Mp3,
            has_internal_size: false,
        },
        // "RIFF".
        Signature {
            name: "wav",
            extension: "wav",
            header: &[0x52, 0x49, 0x46, 0x46],
            footer: None,
            max_size: 8 * GB,
            min_size: 64,
            parser: SizeParser::Wav,
            validator: Validator::Absent,
            has_internal_size: true,
        },
        // "SQLite format 3" and a zero byte.
        Signature {
            name: "sqlite",
            extension: "sqlite",
            header: &[0x53, 0x51, 0x4C, 0x69, 0x74, 0x65, 0x20, 0x66, 0x6F, 0x72, 0x6D, 0x61, 0x74, 0x20, 0x33, 0x00],
            footer: None,
            max_size: 16 * GB,
            min_size: 512,
            parser: SizeParser::Sqlite,
            validator: Validator::Absent,
            has_internal_size: true,
        },
        // "BM".
        Signature {
            name: "bmp",
            extension: "bmp",
            header: &[0x42, 0x4D],
            footer: None,
            max_size: 256 * MB,
            min_size: 64,
            parser: SizeParser::Bmp,
            validator: Validator::Absent,
            has_internal_size: true,
        },
        // TIFF, little-endian.
        Signature {
            name: "tiff",
            extension: "tiff",
            header: &[0x49, 0x49, 0x2A, 0x00],
            footer: None,
            max_size: 1 * GB,
            min_size: 32,
            parser: SizeParser::Absent,
            validator: Validator::Tiff,
            has_internal_size: false,
        },
        // TIFF, big-endian.
        Signature {
            name: "tiff",
            extension: "tiff",
            header: &[0x4D, 0x4D, 0x00, 0x2A],
            footer: None,
            max_size: 1 * GB,
            min_size: 32,
            parser: SizeParser::Absent,
            validator: Validator::Tiff,
            has_internal_size: false,
        },
        // "Rar!" with the RAR 4.x marker.
        Signature {
            name: "rar",
            extension: "rar",
            header: &[0x52, 0x61, 0x72, 0x21, 0x1A, 0x07, 0x00],
            footer: None,
            max_size: 8 * GB,
            min_size: 32,
            parser: SizeParser::Absent,
            validator: Validator::Absent,
            has_internal_size: false,
        },
        // "Rar!" with the RAR 5.x marker.
        Signature {
            name: "rar",
            extension: "rar",
            header: &[0x52, 0x61, 0x72, 0x21, 0x1A, 0x07, 0x01, 0x00],
            footer: None,
            max_size: 8 * GB,
            min_size: 32,
            parser: SizeParser::Absent,
            validator: Validator::Absent,
            has_internal_size: false,
        },
        // 7z.
        Signature {
            name: "7z",
            extension: "7z",
            header: &[0x37, 0x7A, 0xBC, 0xAF, 0x27, 0x1C],
            footer: None,
            max_size: 16 * GB,
            min_size: 32,
            parser: SizeParser::SevenZip,
            validator: Validator::Absent,
            has_internal_size: true,
        },
        // GZIP.
        Signature {
            name: "gz",
            extension: "gz",
            header: &[0x1F, 0x8B],
            footer: None,
            max_size: 4 * GB,
            min_size: 24,
            parser: SizeParser::Absent,
            validator: Validator::Gz,
            has_internal_size: false,
        },
        // "BZh".
        Signature {
            name: "bz2",
            extension: "bz2",
            header: &[0x42, 0x5A, 0x68],
            footer: None,
            max_size: 4 * GB,
            min_size: 24,
            parser: SizeParser::Absent,
            validator: Validator::Bz2,
            has_internal_size: false,
        },
        // "bplist00".
        Signature {
            name: "plist",
            extension: "plist",
            header: &[0x62, 0x70, 0x6C, 0x69, 0x73, 0x74, 0x30, 0x30],
            footer: None,
            max_size: 64 * MB,
            min_size: 16,
            parser: SizeParser::Absent,
            validator: Validator::Absent,
            has_internal_size: false,
        },
    ];
    assert(db@[0]@ =~~= signature_table()[0]);
    assert(db@[1]@ =~~= signature_table()[1]);
    assert(db@[2]@ =~~= signature_table()[2]);
    assert(db@[3]@ =~~= signature_table()[3]);
    assert(db@[4]@ =~~= signature_table()[4]);
    assert(db@[5]@ =~~= signature_table()[5]);
    assert(db@[6]@ =~~= signature_table()[6]);
    assert(db@[7]@ =~~= signature_table()[7]);
    assert(db@[8]@ =~~= signature_table()[8]);
    assert(db@[9]@ =~~= signature_table()[9]);
    assert(db@[10]@ =~~= signature_table()[10]);
    assert(db@[11]@ =~~= signature_table()[11]);
    assert(db@[12]@ =~~= signature_table()[12]);
    assert(db@[13]@ =~~= signature_table()[13]);
    assert(db@[14]@ =~~= signature_table()[14]);
    assert(db@[15]@ =~~= signature_table()[15]);
    assert(db@[16]@ =~~= signature_table()[16]);
    assert(db@[17]@ =~~= signature_table()[17]);
    assert(db@[18]@ =~~= signature_table()[18]);
    assert(views(db@) =~= signature_table());
    db
}

/// Every signature of the database has a header, none of its patterns is empty
/// or begins with a zero byte, and its smallest size does not exceed its
/// largest.
pub proof fn database_is_sound()
    ensures
        forall|k: int|
            #![trigger signature_table()[k]]
            0 <= k < signature_table().len() ==> {
                let sig = signature_table()[k];
                &&& sig.header.len() > 0
                &&& sig.header[0] != 0
                &&& sig.footer matches Some(f) ==> f.len() > 0 && f[0] != 0
                &&& 0 < sig.min_size <= sig.max_size
            },
{
}

/// The name under which users know a database entry. What the "ftyp" entry
/// finds is an MP4 file unless its brand says otherwise.
pub open spec fn user_name(name: Seq<char>) -> Seq<char> {
    if name == "ftyp"@ {
        "mp4"@
    } else {
        name
    }
}

/// The type names that can be chosen: those of the database, and those that are
/// resolved by content.
pub open spec fn type_names() -> Set<Seq<char>> {
    signature_table().map_values(|sig: SignatureView| user_name(sig.name)).to_set().insert(
        "mov"@,
    ).insert("docx"@).insert("xlsx"@).insert("pptx"@)
}

/// What each name of a list says.
pub open spec fn names_of(names: Seq<&'static str>) -> Seq<Seq<char>> {
    names.map_values(|n: &'static str| n@)
}

/// Adds `name` to an ascending list of names, unless it is in it.
fn add_name(names: &mut Vec<&'static str>, name: &'static str)
    requires
        ascending(names_of(old(names)@)),
    ensures
        ascending(names_of(final(names)@)),
        names_of(final(names)@).to_set() == names_of(old(names)@).to_set().insert(name@),
{
    let ghost was: Seq<Seq<char>> = names_of(names@);
    let mut k: usize = 0;
    while k < names.len() && comes_before(names[k], name)
        invariant
            k <= names@.len(),
            names_of(names@) == was,
            forall|j: int| 0 <= j < k ==> before(#[trigger] was[j], name@),
        decreases names@.len() - k,
    {
        assert(was[k as int] == names@[k as int]@);
        k = k + 1;
    }
    if k < names.len() && same_text(names[k], name) {
        proof {
            assert(was[k as int] == name@);
            assert(was.to_set() =~= was.to_set().insert(name@));
        }
        return;
    }
    proof {
        if k < names@.len() {
            assert(was[k as int] == names@[k as int]@);
        }
        inserted_in_order(was, k as int, name@);
        assert(names_of(names@.insert(k as int, name)) =~= was.insert(k as int, name@));
    }
    names.insert(k, name);
}

/// The type names that can be chosen, in order and without repetitions.
pub fn valid_type_names() -> (names: Vec<&'static str>)
    ensures
        ascending(names_of(names@)),
        names_of(names@).to_set() == type_names(),
{
    let db: &'static [Signature] = database();
    let ghost all: Seq<Seq<char>> = signature_table().map_values(
        |sig: SignatureView| user_name(sig.name),
    );
    let mut names: Vec<&'static str> = Vec::new();
    let mut k: usize = 0;
    proof {
        assert(names_of(names@).to_set() =~= all.take(0).to_set());
    }
    while k < db.len()
        invariant
            k <= db@.len(),
            views(db@) == signature_table(),
            all == signature_table().map_values(|sig: SignatureView| user_name(sig.name)),
            ascending(names_of(names@)),
            names_of(names@).to_set() == all.take(k as int).to_set(),
        decreases db@.len() - k,
    {
        let name: &'static str = if same_text(db[k].name, "ftyp") {
            "mp4"
        } else {
            db[k].name
        };
        proof {
            assert(views(db@)[k as int] == db@[k as int]@);
            assert(all[k as int] == name@);
            assert(all.take(k + 1) =~= all.take(k as int).push(all[k as int]));
            assert(all.take(k + 1).to_set() =~= all.take(k as int).to_set().insert(name@)) by {
                broadcast use vstd::seq_lib::group_seq_properties;

            }
        }
        add_name(&mut names, name);
        k = k + 1;
    }
    proof {
        assert(all.take(k as int) =~= all);
    }
    add_name(&mut names, "mov");
    add_name(&mut names, "docx");
    add_name(&mut names, "xlsx");
    add_name(&mut names, "pptx");
    names
}

/// The type names that can be chosen, one by one.
pub proof fn type_names_listed()
    ensures
        type_names() == set![
            "jpg"@,
            "png"@,
            "pdf"@,
            "gif"@,
            "mp4"@,
            "mov"@,
            "zip"@,
            "docx"@,
            "xlsx"@,
            "pptx"@,
            "mp3"@,
            "wav"@,
            "sqlite"@,
            "bmp"@,
            "tiff"@,
            "rar"@,
            "7z"@,
            "gz"@,
            "bz2"@,
            "plist"@,
        ],
{
    reveal_strlit("jpg");
    reveal_strlit("png");
    reveal_strlit("pdf");
    reveal_strlit("gif");
    reveal_strlit("ftyp");
    reveal_strlit("zip");
    reveal_strlit("mp3");
    reveal_strlit("wav");
    reveal_strlit("sqlite");
    reveal_strlit("bmp");
    reveal_strlit("tiff");
    reveal_strlit("rar");
    reveal_strlit("7z");
    reveal_strlit("gz");
    reveal_strlit("bz2");
    reveal_strlit("plist");
    let all = signature_table().map_values(|sig: SignatureView| user_name(sig.name));
    assert forall|k: int| 0 <= k < all.len() && k != 5 implies (#[trigger] all[k])
        == signature_table()[k].name by {
        let name = signature_table()[k].name;
        assert(name.len() != 4 || name[0] != 'f');
    }
    assert(all[5] == "mp4"@);
    assert(all =~= seq![
        "jpg"@,
        "png"@,
        "pdf"@,
        "gif"@,
        "gif"@,
        "mp4"@,
        "zip"@,
        "mp3"@,
        "wav"@,
        "sqlite"@,
        "bmp"@,
        "tiff"@,
        "tiff"@,
        "rar"@,
        "rar"@,
        "7z"@,
        "gz"@,
        "bz2"@,
        "plist"@,
    ]);
    assert forall|n: Seq<char>| all.contains(n) <==> all.to_set().contains(n) by {}
    assert(all.contains(all[0]));
    assert(all.contains(all[1]));
    assert(all.contains(all[2]));
    assert(all.contains(all[3]));
    assert(all.contains(all[5]));
    assert(all.contains(all[6]));
    assert(all.contains(all[7]));
    assert(all.contains(all[8]));
    assert(all.contains(all[9]));
    assert(all.contains(all[10]));
    assert(all.contains(all[11]));
    assert(all.contains(all[13]));
    assert(all.contains(all[15]));
    assert(all.contains(all[16]));
    assert(all.contains(all[17]));
    assert(all.contains(all[18]));
    assert(type_names() =~= set![
            "jpg"@,
            "png"@,
            "pdf"@,
            "gif"@,
            "mp4"@,
            "mov"@,
            "zip"@,
            "docx"@,
            "xlsx"@,
            "pptx"@,
            "mp3"@,
            "wav"@,
            "sqlite"@,
            "bmp"@,
            "tiff"@,
            "rar"@,
            "7z"@,
            "gz"@,
            "bz2"@,
            "plist"@,
        ]);
}

} // verus!
