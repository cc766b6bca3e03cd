use file_recovery::signatures::{database, valid_type_names, SizeParser};

#[test]
fn database_covers_required_formats() {
    let names = valid_type_names();
    for required in [
        "jpg", "png", "pdf", "gif", "mp4", "mov", "zip", "docx", "xlsx", "mp3", "wav", "sqlite",
        "bmp", "tiff", "rar", "7z", "gz", "bz2", "plist",
    ] {
        assert!(names.contains(&required), "missing type: {required}");
    }
}

#[test]
fn every_signature_has_nonempty_header() {
    for s in database() {
        assert!(!s.header.is_empty(), "empty header for {}", s.name);
        assert!(s.max_size >= s.min_size, "bad size bounds for {}", s.name);
    }
}

#[test]
fn type_names_are_sorted_and_complete() {
    assert_eq!(
        valid_type_names(),
        vec![
            "7z", "bmp", "bz2", "docx", "gif", "gz", "jpg", "mov", "mp3", "mp4", "pdf", "plist",
            "png", "pptx", "rar", "sqlite", "tiff", "wav", "xlsx", "zip",
        ]
    );
}

#[test]
fn database_has_its_entries_in_order() {
    let db = database();
    let names: Vec<&str> = db.iter().map(|s| s.name).collect();
    assert_eq!(
        names,
        vec![
            "jpg", "png", "pdf", "gif", "gif", "ftyp", "zip", "mp3", "wav", "sqlite", "bmp",
            "tiff", "tiff", "rar", "rar", "7z", "gz", "bz2", "plist",
        ]
    );
    assert_eq!(db[9].header, b"SQLite format 3\0");
    assert_eq!(db[1].footer, Some(&[0x49u8, 0x45, 0x4E, 0x44, 0xAE, 0x42, 0x60, 0x82][..]));
    assert_eq!(db[5].max_size, 32 * 1024 * 1024 * 1024);
}

#[test]
fn entries_without_size_are_those_without_parser_and_footer() {
    let sizeless: Vec<&str> =
        database().iter().filter(|s| !s.has_internal_size).map(|s| s.name).collect();
    assert_eq!(sizeless, vec!["mp3", "tiff", "tiff", "rar", "rar", "gz", "bz2", "plist"]);
    for s in database() {
        assert_eq!(s.has_internal_size, s.footer.is_some() || s.parser != SizeParser::Absent);
        assert_ne!(s.header[0], 0);
    }
}
