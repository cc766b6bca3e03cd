use file_recovery::bytes::{be16, be32, be64, contains, le16, le32, le64, matches_at};
use file_recovery::formats::{
    classify_ftyp, validate_bz2, validate_gz, validate_jpeg, validate_mp3, validate_tiff,
    validate_zip,
};
use file_recovery::sizes::{
    classify_zip, parse_7z, parse_bmp, parse_gif, parse_mp4, parse_sqlite, parse_wav,
};

fn gif_bytes() -> Vec<u8> {
    let mut g = b"GIF89a".to_vec();
    g.extend_from_slice(&[0x01, 0x00, 0x01, 0x00, 0x00, 0x00, 0x00]); // LSD, no GCT
    g.push(0x3B); // trailer
    g
}

#[test]
fn parses_minimal_gif() {
    let g = gif_bytes();
    assert_eq!(parse_gif(&g, 0, 1024), Some(g.len() as u64));
}

#[test]
fn parses_gif_with_image_block() {
    let mut g = b"GIF89a".to_vec();
    g.extend_from_slice(&[0x01, 0x00, 0x01, 0x00, 0x00, 0x00, 0x00]);
    g.push(0x2C); // image descriptor
    g.extend_from_slice(&[0, 0, 0, 0, 1, 0, 1, 0, 0]); // 9-byte descriptor
    g.push(0x02); // LZW min code size
    g.push(0x02); // sub-block of 2
    g.extend_from_slice(&[0x4C, 0x01]);
    g.push(0x00); // block terminator
    g.push(0x3B);
    assert_eq!(parse_gif(&g, 0, 1024), Some(g.len() as u64));
}

#[test]
fn gif_that_reaches_its_cap_has_no_size() {
    let g = gif_bytes();
    assert_eq!(parse_gif(&g, 0, 13), None);
    assert_eq!(parse_gif(&g[..13].to_vec(), 0, 1024), None);
}

#[test]
fn gif_color_tables_and_extensions_are_skipped() {
    let mut g = b"GIF89a".to_vec();
    g.extend_from_slice(&[0x01, 0x00, 0x01, 0x00, 0x80, 0x00, 0x00]); // table of two colors
    g.extend_from_slice(&[9; 6]);
    g.extend_from_slice(&[0x21, 0xF9, 0x04, 0, 0, 0, 0, 0x00]); // extension
    g.push(0x3B);
    assert_eq!(parse_gif(&g, 0, 1024), Some(g.len() as u64));
    g[19] = 0x22; // no known block
    assert_eq!(parse_gif(&g, 0, 1024), None);
}

#[test]
fn gif_size_depends_on_its_own_bytes() {
    let mut g = gif_bytes();
    g.pop();
    g.extend_from_slice(&[0x21, 0xFE, 0x03, 0x3B, 0x3B, 0x3B, 0x00, 0x3B]);
    let n = g.len() as u64;
    assert_eq!(parse_gif(&g, 0, n), Some(n));
    assert_eq!(g[n as usize - 1], 0x3B);
    for (pad, tail) in [(0, 0xFFu8), (1, 0x3B), (777, 0x21)] {
        let mut image = vec![0x2Cu8; pad];
        image.extend_from_slice(&g);
        image.extend_from_slice(&[tail; 40]);
        assert_eq!(parse_gif(&image, pad as u64, n), Some(n));
        assert_eq!(parse_gif(&image, pad as u64, 10_000), Some(n));
        assert_eq!(parse_gif(&image, pad as u64, n - 1), None);
    }
}

#[test]
fn parses_mp4_atom_chain() {
    let mut m = Vec::new();
    m.extend_from_slice(&24u32.to_be_bytes()); // ftyp box, 24 bytes
    m.extend_from_slice(b"ftypisom");
    m.extend_from_slice(&[0; 12]);
    m.extend_from_slice(&16u32.to_be_bytes()); // mdat box, 16 bytes
    m.extend_from_slice(b"mdat");
    m.extend_from_slice(&[0; 8]);
    assert_eq!(parse_mp4(&m, 0, 1024), Some(40));
    // mov via qt brand
    let mut mv = m.clone();
    mv[8..12].copy_from_slice(b"qt  ");
    assert_eq!(classify_ftyp(&mv, 0), Some(("mov", "mov")));
    assert_eq!(classify_ftyp(&m, 0), Some(("mp4", "mp4")));
}

#[test]
fn rejects_bogus_mp4() {
    let m = vec![0xFF; 64];
    assert_eq!(classify_ftyp(&m, 0), None);
}

#[test]
fn mp4_chains_up_to_the_cap_need_media() {
    let mut head = vec![0, 0, 0, 24];
    head.extend_from_slice(b"ftypisom");
    head.resize(24, 0);
    let with = |size: u8, tag: &[u8]| {
        let mut mp4 = head.clone();
        mp4.extend_from_slice(&[0, 0, 0, size]);
        mp4.extend_from_slice(tag);
        mp4
    };
    for size in [0, 200] {
        assert_eq!(parse_mp4(&with(size, b"free"), 0, 128), None);
        assert_eq!(parse_mp4(&with(size, b"mdat"), 0, 128), Some(128));
        assert_eq!(parse_mp4(&with(size, b"moov"), 0, 128), Some(128));
    }
}

#[test]
fn parses_sqlite_header() {
    let mut h = vec![0u8; 100];
    h[..16].copy_from_slice(b"SQLite format 3\0");
    h[16..18].copy_from_slice(&4096u16.to_be_bytes()); // page size
    h[18] = 1;
    h[19] = 1;
    h[28..32].copy_from_slice(&3u32.to_be_bytes()); // 3 pages
    assert_eq!(parse_sqlite(&h, 0), Some(3 * 4096));
}

#[test]
fn sqlite_page_size_of_one_means_65536() {
    let mut h = vec![0u8; 100];
    h[16..18].copy_from_slice(&1u16.to_be_bytes());
    h[18] = 1;
    h[19] = 1;
    h[28..32].copy_from_slice(&2u32.to_be_bytes());
    assert_eq!(parse_sqlite(&h, 0), Some(131072));
    h[16..18].copy_from_slice(&1000u16.to_be_bytes()); // no power of two
    assert_eq!(parse_sqlite(&h, 0), None);
}

#[test]
fn parses_7z_header() {
    let mut h = vec![0u8; 32];
    h[..6].copy_from_slice(&[0x37, 0x7A, 0xBC, 0xAF, 0x27, 0x1C]);
    h[12..20].copy_from_slice(&100u64.to_le_bytes());
    h[20..28].copy_from_slice(&50u64.to_le_bytes());
    assert_eq!(parse_7z(&h, 0), Some(32 + 100 + 50));
}

#[test]
fn parses_wav_and_rejects_avi() {
    let mut w = Vec::new();
    w.extend_from_slice(b"RIFF");
    w.extend_from_slice(&100u32.to_le_bytes());
    w.extend_from_slice(b"WAVE");
    assert_eq!(parse_wav(&w, 0), Some(108));
    let mut a = w.clone();
    a[8..12].copy_from_slice(b"AVI ");
    assert_eq!(parse_wav(&a, 0), None);
}

#[test]
fn parses_bmp_with_validation() {
    let mut b = vec![0u8; 54];
    b[0..2].copy_from_slice(b"BM");
    b[2..6].copy_from_slice(&1000u32.to_le_bytes());
    b[14..18].copy_from_slice(&40u32.to_le_bytes());
    assert_eq!(parse_bmp(&b, 0), Some(1000));
    b[6] = 1; // reserved bytes nonzero → reject
    assert_eq!(parse_bmp(&b, 0), None);
}

#[test]
fn classifies_office_zips() {
    let mut z = vec![0u8; 8192];
    let marker = b"[Content_Types].xml .... word/document.xml";
    z[4000..4000 + marker.len()].copy_from_slice(marker);
    assert_eq!(classify_zip(&z, 0, 8192), "docx");
    let mut plain = vec![0u8; 8192];
    plain[100..110].copy_from_slice(b"randomdata");
    assert_eq!(classify_zip(&plain, 0, 8192), "zip");
}

#[test]
fn other_office_documents_are_told_apart() {
    for (marker, kind) in [("xl/workbook.xml", "xlsx"), ("ppt/slides", "pptx"), ("else", "zip")] {
        let mut z = vec![0u8; 600];
        z[100..119].copy_from_slice(b"[Content_Types].xml");
        z[200..200 + marker.len()].copy_from_slice(marker.as_bytes());
        assert_eq!(classify_zip(&z, 0, 600), kind);
    }
}

#[test]
fn validators_tell_files_from_noise() {
    let jpeg = [&[0xFF, 0xD8, 0xFF, 0xE0, 0, 16][..], &b"JFIF\0"[..], &[0; 20][..]].concat();
    assert!(validate_jpeg(&jpeg, 0));
    assert!(!validate_jpeg(&vec![0xFFu8; 32], 0));
    let mut zip = vec![0u8; 30];
    zip[..4].copy_from_slice(&[0x50, 0x4B, 3, 4]);
    zip[4] = 20;
    zip[26] = 5;
    assert!(validate_zip(&zip, 0));
    assert!(!validate_zip(&vec![0xFFu8; 30], 0));
    let mp3 = [&b"ID3"[..], &[3, 0, 0, 0, 0, 1, 0]].concat();
    assert!(validate_mp3(&mp3, 0));
    assert!(!validate_mp3(&[&b"ID3"[..], &[3, 0, 0, 0, 0, 0x80, 0]].concat(), 0));
    let gz = [&[0x1F, 0x8B, 8, 0, 0, 0, 0, 0, 0, 3][..], &[0; 10]].concat();
    assert!(validate_gz(&gz, 0));
    assert!(!validate_gz(&vec![0x1Fu8, 0x8B, 7, 0, 0, 0, 0, 0, 0, 3], 0));
    let bz2 = [&b"BZh9"[..], &[0x31, 0x41, 0x59, 0x26, 0x53, 0x59]].concat();
    assert!(validate_bz2(&bz2, 0));
    assert!(!validate_bz2(&b"BZh0zzzzzz".to_vec(), 0));
    let tiff = [&[0x49, 0x49, 0x2A, 0][..], &8u32.to_le_bytes(), &[1, 0], &[0; 20]].concat();
    assert!(validate_tiff(&tiff, 0, &[0x49, 0x49, 0x2A, 0]));
    assert!(!validate_tiff(&vec![0xFFu8; 32], 0, &[0x49, 0x49, 0x2A, 0]));
}

#[test]
fn numbers_are_read_in_both_byte_orders() {
    let b = [1u8, 2, 3, 4, 5, 6, 7, 8, 9];
    assert_eq!(le16(&b, 1), 0x0302);
    assert_eq!(be16(&b, 1), 0x0203);
    assert_eq!(le32(&b, 0), 0x04030201);
    assert_eq!(be32(&b, 0), 0x01020304);
    assert_eq!(le64(&b, 0), 0x0807060504030201);
    assert_eq!(be64(&b, 1), 0x0203040506070809);
}

#[test]
fn byte_search_finds_what_is_there() {
    assert!(contains(b"abcabd", b"abd"));
    assert!(!contains(b"abcabd", b"abe"));
    assert!(!contains(b"abc", b""));
    assert!(matches_at(b"abcabd", b"abd", 3));
    assert!(!matches_at(b"abcabd", b"abd", 4));
}
