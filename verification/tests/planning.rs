use file_recovery::carver::{find_footer_end, plan_carves, plan_one, CarvePlan};
use file_recovery::copying::copy_range;
use file_recovery::filter::{active_signatures, parse_types, TypeFilter};
use file_recovery::recovery::find_files;
use file_recovery::report::RunReport;
use file_recovery::scanner::{scan, ScanResult};
use file_recovery::signatures::database;

#[test]
fn dedupes_overlapping_same_type_hits() {
    let sigs = database();
    let jpg_idx = sigs.iter().position(|s| s.name == "jpg").unwrap();
    // Build a fake disk: real JFIF JPEG at 0, stray FFD8FF-like noise inside it.
    let mut disk = vec![0u8; 4096];
    let mut jpg = vec![0xFF, 0xD8, 0xFF, 0xE0, 0x00, 0x10];
    jpg.extend_from_slice(b"JFIF\0");
    jpg.extend_from_slice(&[0u8; 640]); // pad past the 512-byte min_size
    jpg.extend_from_slice(&[0xFF, 0xD9]);
    disk[..jpg.len()].copy_from_slice(&jpg);
    let scan = ScanResult {
        headers: vec![(0, jpg_idx), (50, jpg_idx)], // second hit inside first file
        footers: vec![((jpg.len() - 2) as u64, jpg_idx)],
        errors: vec![],
        bytes_scanned: 4096,
    };
    let plans = plan_carves(&disk, 4096, &scan, &sigs, 100 * 1024 * 1024, &None);
    assert_eq!(plans.len(), 1);
    assert_eq!(plans[0].offset, 0);
    assert_eq!(plans[0].size, jpg.len() as u64);
    assert!(!plans[0].truncated);
}

fn jpeg_bytes() -> Vec<u8> {
    let mut v = vec![0xFF, 0xD8, 0xFF, 0xE0, 0x00, 0x10];
    v.extend_from_slice(b"JFIF\0");
    v.extend_from_slice(&[0xAA; 2000]);
    v.extend_from_slice(&[0xFF, 0xD9]);
    v
}

fn png_bytes() -> Vec<u8> {
    let mut v = vec![0x89, 0x50, 0x4E, 0x47, 0x0D, 0x0A, 0x1A, 0x0A];
    v.extend_from_slice(&[0xBB; 500]);
    v.extend_from_slice(&[0x49, 0x45, 0x4E, 0x44, 0xAE, 0x42, 0x60, 0x82]); // IEND+CRC
    v
}

fn pdf_bytes() -> Vec<u8> {
    let mut v = b"%PDF-1.7\n".to_vec();
    v.extend_from_slice(&[0x43; 900]);
    v.extend_from_slice(b"%%EOF");
    v
}

fn sqlite_image() -> Vec<u8> {
    // page_size 512 * 4 pages = 2048 bytes total
    let mut v = vec![0u8; 2048];
    v[..16].copy_from_slice(b"SQLite format 3\0");
    v[16..18].copy_from_slice(&512u16.to_be_bytes());
    v[18] = 1;
    v[19] = 1;
    v[28..32].copy_from_slice(&4u32.to_be_bytes());
    v
}

fn mp4_bytes() -> Vec<u8> {
    let mut v = Vec::new();
    v.extend_from_slice(&24u32.to_be_bytes());
    v.extend_from_slice(b"ftypisom");
    v.extend_from_slice(&[0; 12]);
    v.extend_from_slice(&40u32.to_be_bytes());
    v.extend_from_slice(b"mdat");
    v.extend_from_slice(&[0x55; 32]);
    v
}

fn docx_bytes() -> Vec<u8> {
    // minimal zip: local header + EOCD, with office markers in the tail window
    let mut v = Vec::new();
    v.extend_from_slice(&[0x50, 0x4B, 0x03, 0x04]);
    v.extend_from_slice(&20u16.to_le_bytes()); // version
    v.extend_from_slice(&0u16.to_le_bytes()); // flags
    v.extend_from_slice(&0u16.to_le_bytes()); // method = stored
    v.extend_from_slice(&[0; 16]); // time/date/crc/sizes
    v.extend_from_slice(&5u16.to_le_bytes()); // name len
    v.extend_from_slice(&0u16.to_le_bytes()); // extra len
    v.extend_from_slice(b"a.txt");
    v.extend_from_slice(&[0x44; 700]); // payload padding
    v.extend_from_slice(b"[Content_Types].xml ... word/document.xml");
    v.extend_from_slice(&[0x50, 0x4B, 0x05, 0x06]); // EOCD
    v.extend_from_slice(&[0; 18]); // rest of EOCD (comment len 0)
    v
}

fn build_image() -> (Vec<u8>, Vec<(u64, &'static str, Vec<u8>)>) {
    let files: Vec<(u64, &'static str, Vec<u8>)> = vec![
        (0x1000, "jpg", jpeg_bytes()),
        (0x100000, "png", png_bytes()),
        (0x180000, "pdf", pdf_bytes()),
        (0x200000, "sqlite", sqlite_image()),
        (0x280000, "mp4", mp4_bytes()),
        (0x300000, "docx", docx_bytes()),
    ];
    let mut img = vec![0u8; 4 * 1024 * 1024];
    for (off, _, bytes) in &files {
        img[*off as usize..*off as usize + bytes.len()].copy_from_slice(bytes);
    }
    (img, files)
}

fn recover(image: &Vec<u8>, filter: &Option<TypeFilter>) -> Vec<(CarvePlan, Vec<u8>)> {
    let size = image.len() as u64;
    let (found, plans) = find_files(image, size, 4096, 100 * 1024 * 1024, filter, |_, _| {});
    assert!(found.errors.is_empty());
    assert_eq!(found.bytes_scanned, size);
    plans
        .into_iter()
        .map(|p| {
            let mut out = Vec::new();
            copy_range(image, &p, &mut out).unwrap();
            (p, out)
        })
        .collect()
}

#[test]
fn all_embedded_files_are_recovered_byte_for_byte() {
    let (image, files) = build_image();
    let before = image.clone();
    let carved = recover(&image, &None);
    assert_eq!(carved.len(), 6);
    let mut report = RunReport::new(Vec::new());
    for ((p, out), (offset, file_type, bytes)) in carved.iter().zip(&files) {
        assert_eq!((p.offset, p.file_type.as_str(), p.truncated), (*offset, *file_type, false));
        assert_eq!(out, bytes);
        report.count(p);
    }
    assert_eq!(report.total_files, 6);
    assert!(report.counts.iter().any(|t| t.file_type == "docx" && t.count.files == 1));
    assert_eq!(image, before);
}

#[test]
fn a_filter_limits_what_is_recovered() {
    let (image, _) = build_image();
    let carved = recover(&image, &Some(parse_types("jpg").unwrap()));
    assert_eq!(carved.len(), 1);
    assert_eq!(carved[0].0.extension, "jpg");
    let office = recover(&image, &Some(parse_types("docx").unwrap()));
    assert_eq!(office.len(), 1);
    assert!(recover(&image, &Some(parse_types("zip,mov").unwrap())).is_empty());
}

#[test]
fn plans_keep_the_order_of_their_offsets() {
    let (image, _) = build_image();
    let db = database();
    let size = image.len() as u64;
    let active = active_signatures(db, &None);
    let mut found = scan(&image, size, 4096, 1 << 20, db, &active, |_, _| {});
    found.headers.reverse();
    found.footers.reverse();
    let plans = plan_carves(&image, size, &found, db, 100 * 1024 * 1024, &None);
    let offsets: Vec<u64> = plans.iter().map(|p| p.offset).collect();
    assert_eq!(offsets, vec![0x1000, 0x100000, 0x180000, 0x200000, 0x280000, 0x300000]);
}

#[test]
fn files_without_an_end_are_cut_off_at_the_maximum() {
    let db = database();
    let plist = db.iter().position(|s| s.name == "plist").unwrap();
    let mut image = vec![1u8; 5000];
    image[1000..1008].copy_from_slice(b"bplist00");
    let found = ScanResult {
        headers: vec![(1000, plist)],
        footers: vec![],
        errors: vec![],
        bytes_scanned: 5000,
    };
    let plans = plan_carves(&image, 5000, &found, db, 2048, &None);
    assert_eq!((plans[0].size, plans[0].truncated), (2048, true));
    let plans = plan_carves(&image, 5000, &found, db, 100_000, &None);
    assert_eq!((plans[0].size, plans[0].truncated), (4000, true));
    let plans = plan_carves(&image, 5000, &found, db, 15, &None);
    assert!(plans.is_empty());
}

#[test]
fn files_of_other_types_inside_a_file_stay() {
    let db = database();
    let index = |name: &str| db.iter().position(|s| s.name == name).unwrap();
    let (plist, rar) = (index("plist"), index("rar"));
    let image = vec![0u8; 4096];
    let found = ScanResult {
        headers: vec![(0, rar), (100, plist), (200, rar), (300, plist)],
        footers: vec![],
        errors: vec![],
        bytes_scanned: 4096,
    };
    let plans = plan_carves(&image, 4096, &found, db, 150, &None);
    let kept: Vec<(u64, &str)> = plans.iter().map(|p| (p.offset, p.file_type.as_str())).collect();
    assert_eq!(kept, vec![(0, "rar"), (100, "plist"), (200, "rar"), (300, "plist")]);
    let plans = plan_carves(&image, 4096, &found, db, 1000, &None);
    let kept: Vec<(u64, &str)> = plans.iter().map(|p| (p.offset, p.file_type.as_str())).collect();
    assert_eq!(kept, vec![(0, "rar"), (100, "plist")]);
}

#[test]
fn single_hits_are_planned_by_their_signature() {
    let db = database();
    let ftyp = db.iter().position(|s| s.name == "ftyp").unwrap();
    let image = [mp4_bytes(), vec![0; 100]].concat();
    let footers: Vec<Vec<u64>> = db.iter().map(|_| Vec::new()).collect();
    let size = image.len() as u64;
    let plan = plan_one(&image, size, 4, ftyp, db, &footers, 1 << 20, &None).unwrap();
    assert_eq!((plan.offset, plan.size, plan.file_type.as_str()), (0, 64, "mp4"));
    assert!(plan_one(&image, size, 3, ftyp, db, &footers, 1 << 20, &None).is_none());
    let only_mov = Some(parse_types("mov").unwrap());
    assert!(plan_one(&image, size, 4, ftyp, db, &footers, 1 << 20, &only_mov).is_none());
}

#[test]
fn every_run_on_an_image_leads_to_the_same_plans() {
    let (image, _) = build_image();
    let shown = || -> Vec<(u64, u64, String, String, bool)> {
        recover(&image, &None)
            .into_iter()
            .map(|(p, _)| (p.offset, p.size, p.file_type, p.extension, p.truncated))
            .collect()
    };
    let first = shown();
    for _ in 0..5 {
        assert_eq!(shown(), first);
    }
}

#[test]
fn stated_sizes_and_footers_end_files() {
    let db = database();
    let index = |name: &str| db.iter().position(|s| s.name == name).unwrap();
    let (sqlite, png) = (index("sqlite"), index("png"));
    let mut image = sqlite_image();
    image.extend_from_slice(&[0; 2000]);
    let size = image.len() as u64;
    let mut footers: Vec<Vec<u64>> = db.iter().map(|_| Vec::new()).collect();
    let plan = plan_one(&image, size, 0, sqlite, db, &footers, 1 << 20, &None).unwrap();
    assert_eq!((plan.size, plan.truncated), (2048, false));
    let plan = plan_one(&image, size, 0, sqlite, db, &footers, 1000, &None).unwrap();
    assert_eq!((plan.size, plan.truncated), (1000, true));
    // A footer before the start does not count, and neither does one too near.
    footers[png] = vec![50, 110, 500, 900];
    let plan = plan_one(&image, size, 100, png, db, &footers, 1 << 20, &None).unwrap();
    assert_eq!((plan.offset, plan.size, plan.truncated), (100, 408, false));
    let plan = plan_one(&image, size, 100, png, db, &footers, 300, &None).unwrap();
    assert_eq!((plan.size, plan.truncated), (300, true));
}

#[test]
fn zip_comments_belong_to_their_file() {
    let mut zip = docx_bytes();
    let len = zip.len();
    zip[len - 2..].copy_from_slice(&6u16.to_le_bytes());
    zip.extend_from_slice(b"remark");
    let mut image = zip.clone();
    image.extend_from_slice(&[0; 500]);
    let carved = recover(&image, &None);
    assert_eq!(carved.len(), 1);
    assert_eq!(carved[0].1, zip);
}

#[test]
fn a_file_that_ends_at_the_cap_is_whole() {
    let sigs = database();
    let si = sigs.iter().position(|s| s.name == "bmp").unwrap();
    let mut bmp = vec![0u8; 120];
    bmp[..6].copy_from_slice(&[0x42, 0x4D, 100, 0, 0, 0]);
    bmp[10] = 54;
    bmp[14] = 40;
    bmp[26] = 1;
    bmp[28] = 24;
    let no_footers: Vec<Vec<u64>> = vec![Vec::new(); sigs.len()];
    for (max_size, size, truncated) in [(100, 100, false), (101, 100, false), (99, 99, true)] {
        let p = plan_one(&bmp, 120, 0, si, &sigs, &no_footers, max_size, &None).unwrap();
        assert_eq!((p.offset, p.size, p.truncated), (0, size, truncated));
    }
    // So is one that ends with the source, here the smallest there is.
    bmp[2] = 64;
    let p = plan_one(&bmp, 64, 0, si, &sigs, &no_footers, 1000, &None).unwrap();
    assert_eq!((p.offset, p.size, p.truncated), (0, 64, false));
}

#[test]
fn footers_that_end_beyond_the_cap_are_passed_over() {
    let sigs = database();
    let zip = sigs.iter().find(|s| s.name == "zip").unwrap();
    let footer = zip.footer.unwrap();
    let mut image = vec![0u8; 300];
    image[120..122].copy_from_slice(&[0xFF, 0xFF]);
    assert_eq!(find_footer_end(&image, &[100, 200], 0, footer, zip, 300), Some(222));
    assert_eq!(find_footer_end(&image, &[100, 200], 0, footer, zip, 221), None);
    assert_eq!(find_footer_end(&image, &[100, 200], 0, footer, zip, 150), None);
    assert_eq!(find_footer_end(&image, &[100, 200], 150, footer, zip, 150), Some(222));
    assert_eq!(find_footer_end(&image, &[100, 200], 0, footer, zip, 66000), Some(65657));
}

#[test]
fn a_filter_leaves_out_other_types_and_nothing_else() {
    let (image, _) = build_image();
    let all = recover(&image, &None);
    for list in ["jpg", "png,docx", "mp4,sqlite,pdf", "zip", "gif,mov", "docx,jpg,mp4"] {
        let wanted: Vec<&str> = list.split(',').collect();
        let some = recover(&image, &Some(parse_types(list).unwrap()));
        let left: Vec<_> =
            all.iter().filter(|(p, _)| wanted.contains(&p.file_type.as_str())).collect();
        assert_eq!(some.len(), left.len());
        for (a, b) in some.iter().zip(left) {
            assert_eq!((a.0.offset, a.0.size, a.0.truncated), (b.0.offset, b.0.size, b.0.truncated));
            assert_eq!((&a.0.file_type, &a.0.extension, &a.1), (&b.0.file_type, &b.0.extension, &b.1));
        }
    }
}

#[test]
fn a_larger_maximum_leaves_whole_files_alone() {
    let (image, files) = build_image();
    let size = image.len() as u64;
    let at = |max: u64| find_files(&image, size, 4096, max, &None, |_, _| {}).1;
    let largest = files.iter().map(|f| f.2.len() as u64).max().unwrap() + 1;
    for max in [largest, largest + 1, 1 << 20, 1 << 40] {
        let plans = at(max);
        assert_eq!(plans.len(), files.len());
        for (p, (offset, _, bytes)) in plans.iter().zip(&files) {
            assert_eq!((p.offset, p.size, p.truncated), (*offset, bytes.len() as u64, false));
        }
    }
}

#[test]
fn a_larger_maximum_can_let_an_earlier_footer_end_a_zip_file() {
    let sigs = database();
    let si = sigs.iter().position(|s| s.name == "zip").unwrap();
    let mut zip = vec![0u8; 600];
    zip[..4].copy_from_slice(&[0x50, 0x4B, 0x03, 0x04]);
    zip[26] = 1;
    zip[120..122].copy_from_slice(&[22, 1]);
    let mut footers: Vec<Vec<u64>> = vec![Vec::new(); sigs.len()];
    footers[si] = vec![100, 200];
    let sized = |max: u64| {
        let p = plan_one(&zip, 600, 0, si, &sigs, &footers, max, &None).unwrap();
        (p.size, p.truncated)
    };
    assert_eq!(sized(300), (222, false));
    assert_eq!(sized(399), (222, false));
    assert_eq!(sized(400), (400, false));
}
