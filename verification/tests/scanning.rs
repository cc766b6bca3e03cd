use std::sync::Mutex;

use file_recovery::disk::ReadAt;
use file_recovery::error::{IoError, IoErrorKind};
use file_recovery::scanner::scan;
use file_recovery::signatures::{database, Signature, SizeParser, Validator};

fn active_all(sigs: &[Signature]) -> Vec<usize> {
    (0..sigs.len()).collect()
}

#[test]
fn finds_signatures_across_chunk_boundaries() {
    let sigs = database();
    let png_idx = sigs.iter().position(|s| s.name == "png").unwrap();
    let png_len = sigs[png_idx].header.len();

    let mut disk = vec![0u8; 4096];
    // Place a PNG header straddling the 1024-byte chunk boundary.
    let at = 1024 - (png_len - 2);
    disk[at..at + png_len].copy_from_slice(sigs[png_idx].header);
    // And a JPEG fully inside the second chunk.
    let jpg_idx = sigs.iter().position(|s| s.name == "jpg").unwrap();
    disk[2000..2003].copy_from_slice(sigs[jpg_idx].header);

    let result = scan(
        &disk,
        disk.len() as u64,
        512,
        1024,
        &sigs,
        &active_all(&sigs),
        |_, _| {},
    );
    assert!(
        result.headers.contains(&((at as u64) - 0, png_idx))
            || result.headers.iter().any(|&(o, s)| o == at as u64 && s == png_idx),
        "boundary-spanning PNG header not found: {:?}",
        result.headers
    );
    assert!(result.headers.iter().any(|&(o, s)| o == 2000 && s == jpg_idx));
    // No duplicate recordings from the carry overlap.
    let png_hits = result.headers.iter().filter(|&&(_, s)| s == png_idx).count();
    assert_eq!(png_hits, 1);
}

#[test]
fn collects_footers() {
    let sigs = database();
    let jpg_idx = sigs.iter().position(|s| s.name == "jpg").unwrap();
    let mut disk = vec![0u8; 512];
    disk[10..13].copy_from_slice(sigs[jpg_idx].header);
    disk[100..102].copy_from_slice(&[0xFF, 0xD9]);
    let result = scan(
        &disk,
        disk.len() as u64,
        512,
        512,
        &sigs,
        &active_all(&sigs),
        |_, _| {},
    );
    assert!(result.footers.iter().any(|&(o, s)| o == 100 && s == jpg_idx));
}

/// A source on which reads that touch certain sectors fail.
struct BadSectors {
    image: Vec<u8>,
    bad: Vec<u64>,
    reads: Mutex<Vec<(u64, usize)>>,
}

impl ReadAt for BadSectors {
    fn read_exact_at(&self, offset: u64, buf: &mut [u8]) -> Result<(), IoError> {
        self.reads.lock().unwrap().push((offset, buf.len()));
        let end = offset + buf.len() as u64;
        if self.bad.iter().any(|b| b * 512 < end && offset < (b + 1) * 512) {
            return Err(IoError {
                kind: IoErrorKind::Other,
                os_code: Some(5),
                message: "Input/output error (os error 5)".to_string(),
            });
        }
        self.image.read_exact_at(offset, buf)
    }
}

#[test]
fn unreadable_blocks_are_skipped_and_reported() {
    let sigs = database();
    let jpg_idx = sigs.iter().position(|s| s.name == "jpg").unwrap();
    let mut image = vec![0u8; 4096];
    for at in [600, 1600, 3600] {
        image[at..at + 3].copy_from_slice(&[0xFF, 0xD8, 0xFF]);
    }
    let source = BadSectors { image, bad: vec![3], reads: Mutex::new(Vec::new()) };
    let mut calls = Vec::new();
    let result = scan(&source, 4096, 512, 2048, &sigs, &[jpg_idx], |done, found| {
        calls.push((done, found));
    });
    assert_eq!(result.headers, vec![(600, jpg_idx), (3600, jpg_idx)]);
    assert_eq!(
        result.errors,
        vec!["read error at offset 1536: Input/output error (os error 5) — block skipped"]
    );
    assert_eq!(result.bytes_scanned, 4096);
    assert_eq!(calls, vec![(2048, 1), (4096, 2)]);
    assert_eq!(
        *source.reads.lock().unwrap(),
        vec![(0, 2048), (0, 512), (512, 512), (1024, 512), (1536, 512), (2048, 2048)]
    );
}

#[test]
fn unreadable_chunks_of_one_block_are_skipped_whole() {
    let sigs = database();
    let source = BadSectors { image: vec![0; 1024], bad: vec![1], reads: Mutex::new(Vec::new()) };
    let result = scan(&source, 1024, 512, 512, &sigs, &active_all(&sigs), |_, _| {});
    assert_eq!(
        result.errors,
        vec!["read error at offset 512: Input/output error (os error 5) — region skipped"]
    );
    assert!(result.headers.is_empty() && result.footers.is_empty());
}

#[test]
fn chunk_size_makes_no_difference() {
    let sigs = database();
    let mut disk = vec![0u8; 8192];
    for (i, s) in sigs.iter().enumerate() {
        let at = 500 + 401 * i;
        disk[at..at + s.header.len()].copy_from_slice(s.header);
    }
    for at in [511, 1023, 4095, 8190] {
        disk[at..at + 2].copy_from_slice(&[0xFF, 0xD9]);
    }
    let hits = |chunk: u64| {
        let r = scan(&disk, 8192, 512, chunk, &sigs, &active_all(&sigs), |_, _| {});
        let (mut headers, mut footers) = (r.headers, r.footers);
        headers.sort();
        footers.sort();
        (headers, footers)
    };
    let whole = hits(8192);
    assert_eq!(whole.0.len(), sigs.len());
    assert_eq!(whole.1.len(), 4);
    for chunk in [512, 513, 1024, 5000, 1 << 20] {
        assert_eq!(hits(chunk), whole);
    }
}

#[test]
fn patterns_longer_than_a_chunk_are_found() {
    const LONG: &[u8] = &[7; 1500];
    let sigs = [Signature {
        name: "long",
        extension: "long",
        header: LONG,
        footer: None,
        max_size: 4096,
        min_size: 1500,
        parser: SizeParser::Absent,
        validator: Validator::Absent,
        has_internal_size: false,
    }];
    let mut disk = vec![0u8; 4096];
    disk[300..1800].copy_from_slice(LONG);
    let result = scan(&disk, 4096, 512, 512, &sigs, &[0], |_, _| {});
    assert_eq!(result.headers, vec![(300, 0)]);
}

#[test]
fn nothing_is_read_of_an_empty_source() {
    let sigs = database();
    let mut calls = 0;
    let empty: Vec<u8> = Vec::new();
    let result = scan(&empty, 0, 4096, 4096, &sigs, &active_all(&sigs), |_, _| calls += 1);
    assert_eq!((result.bytes_scanned, calls), (0, 0));
    assert!(result.errors.is_empty());
}

#[test]
fn the_order_of_matches_does_not_depend_on_chunks() {
    let db = database();
    let active = active_all(db);
    let mut image = vec![0u8; 9000];
    for (k, s) in db.iter().enumerate() {
        for at in [400 * k + 250, 400 * k + 505] {
            image[at..at + s.header.len()].copy_from_slice(s.header);
        }
        if let Some(f) = s.footer {
            image[400 * k + 300..400 * k + 300 + f.len()].copy_from_slice(f);
        }
    }
    let whole = scan(&image, 9000, 9000, 9000, db, &active, |_, _| {});
    assert_eq!(whole.headers.len(), 2 * db.len());
    assert!(whole.headers.windows(2).all(|w| w[0].0 < w[1].0));
    for (block, chunk) in [(1, 1), (512, 512), (512, 1024), (600, 700), (4096, 5000)] {
        let other = scan(&image, 9000, block, chunk, db, &active, |_, _| {});
        assert_eq!(other.headers, whole.headers);
        assert_eq!(other.footers, whole.footers);
        assert_eq!(other.bytes_scanned, whole.bytes_scanned);
        assert!(other.errors.is_empty());
    }
}
