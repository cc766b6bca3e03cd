use file_recovery::carver::CarvePlan;
use file_recovery::copying::{copy_range, Sink};
use file_recovery::disk::{
    advance, detect_kind, device_size, fetch, map_io, source_size, verify_read_only, PathType,
    ReadAt, SourceKind,
};
use file_recovery::error::{CarveError, IoError, IoErrorKind};

fn failure(kind: IoErrorKind, message: &str) -> IoError {
    IoError { kind, os_code: None, message: message.to_string() }
}

#[test]
fn buffers_are_read_within_their_bounds() {
    let image: Vec<u8> = (0..100).collect();
    let mut buf = [0u8; 10];
    image.read_exact_at(90, &mut buf).unwrap();
    assert_eq!(buf, [90, 91, 92, 93, 94, 95, 96, 97, 98, 99]);
    let e = image.read_exact_at(91, &mut buf).unwrap_err();
    assert_eq!(buf, [90, 91, 92, 93, 94, 95, 96, 97, 98, 99]);
    assert_eq!(e.kind, IoErrorKind::UnexpectedEof);
    assert_eq!(e.message, "read past end of buffer");
    assert!(image.read_exact_at(u64::MAX, &mut buf).is_err());
    image.as_slice().read_exact_at(100, &mut []).unwrap();
    assert_eq!(fetch(&image, 3, 2), Some(vec![3, 4]));
    assert_eq!(fetch(&image, 99, 2), None);
}

#[test]
fn regular_files_need_permission() {
    let file = PathType { is_block_device: false, is_char_device: false, is_file: true };
    let device = PathType { is_block_device: false, is_char_device: true, is_file: false };
    let block = PathType { is_block_device: true, is_char_device: false, is_file: false };
    let directory = PathType { is_block_device: false, is_char_device: false, is_file: false };
    assert_eq!(detect_kind(&file, "image.dmg", true).unwrap(), SourceKind::ImageFile);
    assert_eq!(detect_kind(&device, "/dev/rdisk2", false).unwrap(), SourceKind::Device);
    assert_eq!(detect_kind(&block, "/dev/disk2", true).unwrap(), SourceKind::Device);
    let e = detect_kind(&file, "image.dmg", false).unwrap_err();
    assert!(matches!(&e, CarveError::NotADevice { path } if path == "image.dmg"));
    assert!(e.message().contains("not a block/character device"));
    assert!(detect_kind(&directory, "/tmp", true).is_err());
}

#[test]
fn missing_permission_is_told_apart() {
    let denied = map_io("/dev/rdisk2", failure(IoErrorKind::PermissionDenied, "denied"));
    assert!(matches!(&denied, CarveError::PermissionDenied { path } if path == "/dev/rdisk2"));
    let other = map_io("/dev/rdisk2", failure(IoErrorKind::Other, "broken"));
    assert_eq!(other.message(), "I/O error on /dev/rdisk2: broken");
}

#[test]
fn descriptors_must_be_read_only() {
    let none = || failure(IoErrorKind::Other, "bad descriptor");
    assert!(verify_read_only("d", 0x8000, 3, 0, none()).is_ok());
    let e = verify_read_only("d", 0x8002, 3, 0, none()).unwrap_err();
    assert!(matches!(&e, CarveError::NotReadOnly { path } if path == "d"));
    let e = verify_read_only("d", -1, 3, 0, none()).unwrap_err();
    assert_eq!(e.message(), "I/O error on d: bad descriptor");
}

#[test]
fn source_sizes_come_from_the_best_place() {
    assert_eq!(device_size(0, 0, 512, 1000), Some(512000));
    assert_eq!(device_size(-1, 0, 512, 1000), None);
    assert_eq!(device_size(0, 1, 512, 1000), None);
    assert_eq!(device_size(0, 0, 0, 1000), None);
    assert_eq!(device_size(0, 0, 512, 0), None);
    assert_eq!(source_size("d", SourceKind::Device, Some(7), Some(9), 0).unwrap(), 7);
    assert_eq!(source_size("d", SourceKind::Device, None, Some(9), 0).unwrap(), 9);
    assert_eq!(source_size("d", SourceKind::ImageFile, None, None, 0).unwrap(), 0);
    for end in [None, Some(0)] {
        let e = source_size("d", SourceKind::Device, None, end, 5).unwrap_err();
        assert!(matches!(&e, CarveError::SizeUnknown { path } if path == "d"));
    }
}

#[test]
fn short_and_interrupted_reads_are_handled() {
    assert_eq!(advance(10, 100, Ok(20)).unwrap(), 30);
    assert_eq!(advance(10, 100, Err(failure(IoErrorKind::Interrupted, "i"))).unwrap(), 10);
    let e = advance(10, 100, Ok(0)).unwrap_err();
    assert_eq!(e.kind, IoErrorKind::UnexpectedEof);
    assert_eq!(e.message, "short read (end of device)");
    let e = advance(10, 100, Err(failure(IoErrorKind::Other, "o"))).unwrap_err();
    assert_eq!(e.message, "o");
}

#[test]
fn every_error_has_its_words() {
    let text = |s: &str| s.to_string();
    let cases = vec![
        (
            CarveError::PermissionDenied { path: text("/dev/rdisk2") },
            "permission denied opening /dev/rdisk2 — raw device access requires root; re-run with sudo (e.g. `sudo file-recovery --device /dev/rdisk2 ...`)",
        ),
        (
            CarveError::NotADevice { path: text("x") },
            "x is not a block/character device (use --allow-file to scan a regular disk-image file)",
        ),
        (
            CarveError::NotReadOnly { path: text("x") },
            "internal error: x was not opened read-only (O_RDONLY) — refusing to continue",
        ),
        (
            CarveError::SizeUnknown { path: text("x") },
            "could not determine the size of device x (ioctl DKIOCGETBLOCK* failed)",
        ),
        (
            CarveError::SameDisk { device: text("d"), output: text("o") },
            "SAFETY: output location `o` appears to be on the SAME physical disk as the source `d` — writing there could overwrite recoverable data. Aborting. Choose an output directory on a different physical disk.",
        ),
        (CarveError::Aborted, "scan aborted by user"),
        (
            CarveError::UnknownTypes(text("a, b")),
            "unknown file type(s): a, b — run with --list-types to see supported types",
        ),
        (
            CarveError::DiskFull(text("p")),
            "output disk is full — stopping recovery gracefully: p",
        ),
    ];
    for (e, words) in cases {
        assert_eq!(e.message(), words);
    }
}

fn plan(offset: u64, size: u64) -> CarvePlan {
    CarvePlan {
        offset,
        size,
        file_type: "jpg".to_string(),
        extension: "jpg".to_string(),
        truncated: false,
    }
}

/// Notes the pieces that it takes, and refuses those after the first `room`.
struct Pieces {
    room: usize,
    taken: Vec<Vec<u8>>,
}

impl Sink for Pieces {
    fn take_piece(&mut self, piece: &[u8]) -> Result<(), IoError> {
        if self.taken.len() == self.room {
            let message = "full".to_string();
            return Err(IoError { kind: IoErrorKind::Other, os_code: Some(28), message });
        }
        self.taken.push(piece.to_vec());
        Ok(())
    }
}

fn big_image() -> Vec<u8> {
    (0..3_000_000u32).map(|n| (n % 251) as u8).collect()
}

#[test]
fn ranges_are_copied_exactly() {
    let image = big_image();
    let mut out: Vec<u8> = vec![1, 2, 3];
    assert_eq!(copy_range(&image, &plan(1000, 2_500_000), &mut out).unwrap(), 2_500_000);
    assert_eq!(out[..3], [1, 2, 3]);
    assert_eq!(out[3..], image[1000..2_501_000]);
}

#[test]
fn ranges_are_copied_in_pieces() {
    let image = big_image();
    let mut out = Pieces { room: 3, taken: Vec::new() };
    assert_eq!(copy_range(&image, &plan(1000, 2_500_000), &mut out).unwrap(), 2_500_000);
    let lengths: Vec<usize> = out.taken.iter().map(|p| p.len()).collect();
    assert_eq!(lengths, vec![1048576, 1048576, 402848]);
    assert_eq!(out.taken.concat(), image[1000..2_501_000]);
    let mut none = Pieces { room: 0, taken: Vec::new() };
    assert_eq!(copy_range(&image, &plan(5, 0), &mut none).unwrap(), 0);
}

#[test]
fn copying_stops_at_the_first_failure() {
    let image = big_image();
    let mut out = Pieces { room: 9, taken: Vec::new() };
    let e = copy_range(&image, &plan(0, 3_000_001), &mut out).unwrap_err();
    assert_eq!(e.message, "read past end of buffer");
    assert_eq!(out.taken.concat(), image[..2097152]);
    let mut out = Pieces { room: 1, taken: Vec::new() };
    let e = copy_range(&image, &plan(50, 2_000_000), &mut out).unwrap_err();
    assert_eq!(e.os_code, Some(28));
    assert_eq!(out.taken.concat(), image[50..1048626]);
}
