//! Read-only access to the source.

use vstd::prelude::*;

use crate::error::{CarveError, CarveErrorView, IoError, IoErrorKind, IoErrorView};

verus! {

/// Positioned reads, so that scanner and parsers work alike on devices, image
/// files and buffers in memory. A read changes nothing at the source.
pub trait ReadAt: Send + Sync {
    /// Whether a read of `len` bytes at `offset` may end in `outcome`: with
    /// the bytes read, or with an error. A source that is written to by others
    /// or fails now and then has several outcomes for one and the same read.
    /// Unless more is known of a source, a read of it may end in anything.
    open spec fn may_read(
        &self,
        offset: u64,
        len: nat,
        outcome: Result<Seq<u8>, IoErrorView>,
    ) -> bool {
        true
    }

    /// Fills `buf` with the bytes at `offset`. After an error the contents of
    /// `buf` are unspecified.
    fn read_exact_at(&self, offset: u64, buf: &mut [u8]) -> (r: Result<(), IoError>)
        ensures
            final(buf)@.len() == old(buf)@.len(),
            match r {
                Ok(()) => self.may_read(offset, old(buf)@.len(), Ok(final(buf)@)),
                Err(e) => self.may_read(offset, old(buf)@.len(), Err(e@)),
            },
    ;
}

/// What a read of `len` bytes at `offset` of a buffer that holds `image`
/// gives: those bytes, or an error if the buffer does not hold all of them.
pub open spec fn buffer_read(image: Seq<u8>, offset: u64, len: nat) -> Result<
    Seq<u8>,
    IoErrorView,
> {
    if offset + len <= image.len() {
        Ok(image.subrange(offset as int, offset + len))
    } else {
        Err(
            IoErrorView {
                kind: IoErrorKind::UnexpectedEof,
                os_code: None,
                message: "read past end of buffer"@,
            },
        )
    }
}

impl ReadAt for [u8] {
    open spec fn may_read(
        &self,
        offset: u64,
        len: nat,
        outcome: Result<Seq<u8>, IoErrorView>,
    ) -> bool {
        outcome == buffer_read(self@, offset, len)
    }

    fn read_exact_at(&self, offset: u64, buf: &mut [u8]) -> (r: Result<(), IoError>)
        ensures
            r is Err ==> final(buf)@ == old(buf)@,
    {
        let size: usize = self.len();
        let len: usize = buf.len();
        if offset > size as u64 || size - (offset as usize) < len {
            return Err(
                IoError {
                    kind: IoErrorKind::UnexpectedEof,
                    os_code: None,
                    message: "read past end of buffer".to_string(),
                },
            );
        }
        let start: usize = offset as usize;
        let mut k: usize = 0;
        while k < len
            invariant
                k <= len,
                buf@.len() == len,
                start + len <= self@.len(),
                self@.len() <= usize::MAX,
                forall|j: int| 0 <= j < k ==> buf@[j] == self@[start + j],
            decreases len - k,
        {
            buf[k] = self[start + k];
            k = k + 1;
        }
        assert(buf@ =~= self@.subrange(start as int, start + len));
        Ok(())
    }
}

impl ReadAt for Vec<u8> {
    open spec fn may_read(
        &self,
        offset: u64,
        len: nat,
        outcome: Result<Seq<u8>, IoErrorView>,
    ) -> bool {
        outcome == buffer_read(self@, offset, len)
    }

    fn read_exact_at(&self, offset: u64, buf: &mut [u8]) -> (r: Result<(), IoError>)
        ensures
            r is Err ==> final(buf)@ == old(buf)@,
    {
        self.as_slice().read_exact_at(offset, buf)
    }
}

/// Whether a request for `len` bytes at `offset` may be met with `got`: with
/// those bytes, or with nothing when the read fails. No read can succeed at
/// an offset beyond the 64-bit range.
pub open spec fn may_fetch<R: ReadAt + ?Sized>(
    reader: &R,
    offset: int,
    len: nat,
    got: Option<Seq<u8>>,
) -> bool {
    match got {
        Some(b) => {
            &&& 0 <= offset <= u64::MAX
            &&& b.len() == len
            &&& reader.may_read(offset as u64, len, Ok(b))
        },
        None => {
            ||| offset > u64::MAX
            ||| exists|e: IoErrorView| reader.may_read(offset as u64, len, Err(e))
        },
    }
}

/// The bytes inside an optional buffer.
pub open spec fn fetched(got: Option<Vec<u8>>) -> Option<Seq<u8>> {
    match got {
        Some(b) => Some(b@),
        None => None,
    }
}

/// Reads `len` bytes at `offset` into a fresh buffer; `None` if that fails.
pub fn fetch<R: ReadAt + ?Sized>(reader: &R, offset: u64, len: usize) -> (got: Option<Vec<u8>>)
    requires
        len <= isize::MAX,
    ensures
        may_fetch(reader, offset as int, len as nat, fetched(got)),
        got matches Some(b) ==> b@.len() == len,
{
    let mut buf: Vec<u8> = vec![0u8; len];
    match reader.read_exact_at(offset, buf.as_mut_slice()) {
        Ok(()) => Some(buf),
        Err(_) => None,
    }
}

/// Whether every read gives the bytes of `image`, or an error where it asks
/// for bytes past the end.
pub open spec fn reads_image<R: ReadAt + ?Sized>(reader: &R, image: Seq<u8>) -> bool {
    forall|offset: u64, len: nat, outcome: Result<Seq<u8>, IoErrorView>| #[trigger]
        reader.may_read(offset, len, outcome) ==> (if offset + len <= image.len() {
            outcome == Ok::<Seq<u8>, IoErrorView>(image.subrange(offset as int, offset + len))
        } else {
            outcome == Err::<Seq<u8>, IoErrorView>(
                IoErrorView {
                    kind: IoErrorKind::UnexpectedEof,
                    os_code: None,
                    message: "read past end of buffer"@,
                },
            )
        })
}

/// Whether every read inside the bytes `image` succeeds and gives them. Of reads
/// beyond them nothing is said.
pub open spec fn reads_inside<R: ReadAt + ?Sized>(reader: &R, image: Seq<u8>) -> bool {
    forall|offset: u64, len: nat, outcome: Result<Seq<u8>, IoErrorView>| #[trigger]
        reader.may_read(offset, len, outcome) && offset + len <= image.len() ==> outcome == Ok::<
            Seq<u8>,
            IoErrorView,
        >(image.subrange(offset as int, offset + len))
}

/// Whether every read has one outcome only.
pub open spec fn steady<R: ReadAt + ?Sized>(reader: &R) -> bool {
    forall|
        offset: u64,
        len: nat,
        a: Result<Seq<u8>, IoErrorView>,
        b: Result<Seq<u8>, IoErrorView>,
    | #[trigger]
        reader.may_read(offset, len, a) && #[trigger] reader.may_read(offset, len, b) ==> a == b
}

/// A buffer reads as the bytes that it holds.
pub proof fn buffers_read_as_their_bytes(buffer: &Vec<u8>, slice: &[u8])
    ensures
        reads_image(buffer, buffer@),
        reads_image(slice, slice@),
        steady(buffer),
        steady(slice),
{
}

/// A source that reads as an image answers each request in one way only: with
/// the image's bytes if it holds all of them, else with nothing.
pub proof fn image_fetch_is_determined<R: ReadAt + ?Sized>(
    reader: &R,
    image: Seq<u8>,
    offset: int,
    len: nat,
    got: Option<Seq<u8>>,
)
    requires
        reads_image(reader, image),
        0 <= offset,
        may_fetch(reader, offset, len, got),
    ensures
        got == (if offset + len <= image.len() && offset <= u64::MAX {
            Some(image.subrange(offset, offset + len))
        } else {
            None::<Seq<u8>>
        }),
{
}

// ---------------------------------------------------------------------------
// Opening a source
// ---------------------------------------------------------------------------

/// What the source is.
#[derive(Debug, Clone, Copy, PartialEq, Eq, Structural)]
pub enum SourceKind {
    /// A block or character device, such as /dev/rdisk2s1 or /dev/disk2.
    Device,
    /// A regular file, which holds a disk image.
    ImageFile,
}

/// What a file system says that a path is.
#[derive(Debug, Clone, Copy, PartialEq, Eq, Structural)]
pub struct PathType {
    pub is_block_device: bool,
    pub is_char_device: bool,
    pub is_file: bool,
}

/// What kind of source a path is; `None` if it is not accepted as one.
pub open spec fn kind_of(meta: PathType, allow_file: bool) -> Option<SourceKind> {
    if meta.is_block_device || meta.is_char_device {
        Some(SourceKind::Device)
    } else if meta.is_file && allow_file {
        Some(SourceKind::ImageFile)
    } else {
        None
    }
}

/// Classifies the source. A regular file is accepted only if `allow_file` says
/// so; what is neither a device nor a file never is.
pub fn detect_kind(meta: &PathType, path: &str, allow_file: bool) -> (r: Result<
    SourceKind,
    CarveError,
>)
    ensures
        match r {
            Ok(kind) => kind_of(*meta, allow_file) == Some(kind),
            Err(e) => kind_of(*meta, allow_file) is None && e@ == (CarveErrorView::NotADevice {
                path: path@,
            }),
        },
{
    if meta.is_block_device || meta.is_char_device {
        Ok(SourceKind::Device)
    } else if meta.is_file && allow_file {
        Ok(SourceKind::ImageFile)
    } else {
        Err(CarveError::NotADevice { path: path.to_string() })
    }
}

/// The error for a failed operation on `path`. Want of permission is told
/// apart, since it has a remedy.
pub fn map_io(path: &str, e: IoError) -> (err: CarveError)
    ensures
        err@ == (if e.kind == IoErrorKind::PermissionDenied {
            CarveErrorView::PermissionDenied { path: path@ }
        } else {
            CarveErrorView::Io { path: path@, source: e@ }
        }),
{
    match e.kind {
        IoErrorKind::PermissionDenied => CarveError::PermissionDenied { path: path.to_string() },
        _ => CarveError::Io { path: path.to_string(), source: e },
    }
}

/// Checks that a descriptor was opened for reading only. `flags` are its status
/// flags, or a negative number if they could not be had for the reason
/// `failure`; the bits `access_mask` of them give the access mode.
pub fn verify_read_only(
    path: &str,
    flags: i32,
    access_mask: i32,
    read_only: i32,
    failure: IoError,
) -> (r: Result<(), CarveError>)
    ensures
        match r {
            Ok(()) => flags >= 0 && flags & access_mask == read_only,
            Err(e) => if flags < 0 {
                e@ == (CarveErrorView::Io { path: path@, source: failure@ })
            } else {
                flags & access_mask != read_only && e@ == (CarveErrorView::NotReadOnly {
                    path: path@,
                })
            },
        },
{
    if flags < 0 {
        return Err(CarveError::Io { path: path.to_string(), source: failure });
    }
    if flags & access_mask != read_only {
        return Err(CarveError::NotReadOnly { path: path.to_string() });
    }
    Ok(())
}

/// The size of a device from its block size and number of blocks, if it gave
/// both: each query returns the status zero if it succeeds.
pub fn device_size(
    size_status: i32,
    count_status: i32,
    block_size: u32,
    block_count: u64,
) -> (size: Option<u64>)
    requires
        size_status == 0 && count_status == 0 ==> block_size * block_count <= u64::MAX,
    ensures
        size == (if size_status == 0 && count_status == 0 && block_size > 0 && block_count > 0 {
            Some((block_size * block_count) as u64)
        } else {
            None::<u64>
        }),
{
    if size_status == 0 && count_status == 0 && block_size > 0 && block_count > 0 {
        Some(block_size as u64 * block_count)
    } else {
        None
    }
}

/// The size of a source: of a device what it states, else where its end was
/// found, unless that is zero; of an image file its length.
pub open spec fn size_of_source(
    kind: SourceKind,
    stated: Option<u64>,
    end: Option<u64>,
    file_len: u64,
) -> Option<u64> {
    match kind {
        SourceKind::ImageFile => Some(file_len),
        SourceKind::Device => match (stated, end) {
            (Some(s), _) => if s > 0 {
                Some(s)
            } else {
                None
            },
            (None, Some(e)) => if e > 0 {
                Some(e)
            } else {
                None
            },
            (None, None) => None,
        },
    }
}

/// Determines the size of the source `path`.
pub fn source_size(
    path: &str,
    kind: SourceKind,
    stated: Option<u64>,
    end: Option<u64>,
    file_len: u64,
) -> (r: Result<u64, CarveError>)
    ensures
        match r {
            Ok(size) => size_of_source(kind, stated, end, file_len) == Some(size),
            Err(e) => size_of_source(kind, stated, end, file_len) is None && e@ == (
            CarveErrorView::SizeUnknown { path: path@ }),
        },
{
    let size: u64 = match kind {
        SourceKind::ImageFile => {
            return Ok(file_len);
        },
        SourceKind::Device => match stated {
            Some(s) => s,
            None => match end {
                Some(e) => e,
                None => 0,
            },
        },
    };
    if size > 0 {
        Ok(size)
    } else {
        Err(CarveError::SizeUnknown { path: path.to_string() })
    }
}

/// Goes on with filling a buffer of `len` bytes of which `filled` are filled,
/// after one more read has ended in `outcome`: with the number of bytes read,
/// or with an error. Returns how many bytes are filled now. An interrupted
/// read is to be tried again; a read of nothing is the end of the source.
pub fn advance(filled: usize, len: usize, outcome: Result<usize, IoError>) -> (r: Result<
    usize,
    IoError,
>)
    requires
        filled < len,
        outcome matches Ok(n) ==> n <= len - filled,
    ensures
        match outcome {
            Ok(n) => if n == 0 {
                r matches Err(e) && e@ == (IoErrorView {
                    kind: IoErrorKind::UnexpectedEof,
                    os_code: None,
                    message: "short read (end of device)"@,
                })
            } else {
                r == Ok::<usize, IoError>((filled + n) as usize)
            },
            Err(e) => if e.kind == IoErrorKind::Interrupted {
                r == Ok::<usize, IoError>(filled)
            } else {
                r == Err::<usize, IoError>(e)
            },
        },
{
    match outcome {
        Ok(n) => {
            if n == 0 {
                Err(
                    IoError {
                        kind: IoErrorKind::UnexpectedEof,
                        os_code: None,
                        message: "short read (end of device)".to_string(),
                    },
                )
            } else {
                Ok(filled + n)
            }
        },
        Err(e) => {
            if e.kind == IoErrorKind::Interrupted {
                Ok(filled)
            } else {
                Err(e)
            }
        },
    }
}

} // verus!
