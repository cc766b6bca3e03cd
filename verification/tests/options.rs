use file_recovery::options::{
    hex, listed_name, parse_number, parse_size, scan_chunk_size, shown_unit, size_terms,
};

#[test]
fn sizes_are_read_with_and_without_units() {
    assert_eq!(parse_size("4096"), Ok(4096));
    assert_eq!(parse_size("4K"), Ok(4096));
    assert_eq!(parse_size(" 4 kb "), Ok(4096));
    assert_eq!(parse_size("100MB"), Ok(104857600));
    assert_eq!(parse_size("2m"), Ok(2097152));
    assert_eq!(parse_size("3g"), Ok(3221225472));
    assert_eq!(parse_size("1Gb"), Ok(1073741824));
    assert_eq!(parse_size("7B"), Ok(7));
    assert_eq!(parse_size("+5"), Ok(5));
    assert_eq!(parse_size("18446744073709551615"), Ok(u64::MAX));
}

#[test]
fn bad_sizes_are_complained_about() {
    for bad in ["", "K", "4KK", "-1", "+", "1.5M", "18446744073709551616", "4 4"] {
        assert_eq!(
            parse_size(bad),
            Err(format!("invalid size '{bad}' (use bytes or a K/M/G/KB/MB/GB suffix)"))
        );
    }
}

#[test]
fn size_terms_come_before_they_are_multiplied() {
    assert_eq!(size_terms("18446744073709551615GB"), Some((u64::MAX, 1073741824)));
    assert_eq!(size_terms("x"), None);
    let digits: Vec<char> = "0042".chars().collect();
    assert_eq!(parse_number(&digits), Some(42));
}

#[test]
fn chunks_are_whole_blocks() {
    assert_eq!(scan_chunk_size(4096), 67108864);
    assert_eq!(scan_chunk_size(1), 67108864);
    assert_eq!(scan_chunk_size(3000), 67107000);
    assert_eq!(scan_chunk_size(100_000_000), 100_000_000);
}

#[test]
fn bytes_are_shown_in_the_largest_unit() {
    assert_eq!(shown_unit(1023), (1, "B"));
    assert_eq!(shown_unit(1024), (1024, "KB"));
    assert_eq!(shown_unit(1048576), (1048576, "MB"));
    assert_eq!(shown_unit(u64::MAX), (1073741824, "GB"));
}

#[test]
fn bytes_are_listed_in_hexadecimal() {
    assert_eq!(hex(&[0xFF, 0xD8, 0x0A]), "FF D8 0A");
    assert_eq!(hex(&[]), "");
    assert_eq!(listed_name("ftyp"), "mp4/mov");
    assert_eq!(listed_name("png"), "png");
}
