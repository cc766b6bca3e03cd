use file_recovery::pieces::{
    first_word, lines, split, strip_prefix, strip_suffix, tail_after, take_digits, to_lowercase,
    trim, trim_end, trim_leading, trim_start,
};
use file_recovery::progress::{bar_template, candidates_message};
use file_recovery::text::{comes_before, join, push_decimal, push_four_digits, same_text};

fn chars(s: &str) -> Vec<char> {
    s.chars().collect()
}

fn text(c: &[char]) -> String {
    c.iter().collect()
}

#[test]
fn trimming_removes_white_space_only() {
    for s in ["  a b\t\n", "", "\u{a0}x\u{3000}", " \r\n ", "x", "\u{200b}y", "\u{85}z\u{2003}"] {
        assert_eq!(text(trim(&chars(s))), s.trim());
        assert_eq!(text(trim_start(&chars(s))), s.trim_start());
        assert_eq!(text(trim_end(&chars(s))), s.trim_end());
    }
    assert_eq!(text(trim_leading(&chars("::: a:"), ':')), " a:");
}

#[test]
fn splitting_gives_every_piece() {
    for s in ["a,b,,c", "", ",", "abc", "a,"] {
        let parts: Vec<String> = split(&chars(s), ',').iter().map(|p| text(p)).collect();
        let expected: Vec<&str> = s.split(',').collect();
        assert_eq!(parts, expected);
    }
}

#[test]
fn lines_end_at_line_feeds() {
    for s in ["a\nb", "a\r\nb\r\n", "\n\n", "", "a\r", "a\rb\n", "\r\n"] {
        let rows: Vec<String> = lines(&chars(s)).iter().map(|p| text(p)).collect();
        let expected: Vec<&str> = s.lines().collect();
        assert_eq!(rows, expected);
    }
}

#[test]
fn words_prefixes_and_suffixes_are_taken_off() {
    for s in ["  /dev/disk3s1  x", "", "   ", "one"] {
        assert_eq!(first_word(&chars(s)).map(|w| text(w)).as_deref(), s.split_whitespace().next());
    }
    assert_eq!(strip_prefix(&chars("disk2"), &chars("disk")).map(text).as_deref(), Some("2"));
    assert_eq!(strip_prefix(&chars("dis"), &chars("disk")).map(text), None);
    assert_eq!(strip_suffix(&chars("4kb"), &chars("kb")).map(text).as_deref(), Some("4"));
    assert_eq!(strip_suffix(&chars("4kb"), &chars("mb")).map(text), None);
    assert_eq!(text(tail_after(&chars("/a/b"), '/')), "b");
    assert_eq!(text(tail_after(&chars("ab"), '/')), "ab");
    assert_eq!(text(take_digits(&chars("12s3"))), "12");
    assert_eq!(text(&to_lowercase(&chars("AzÄ09"))), "azÄ09");
}

#[test]
fn numbers_are_written_in_decimal() {
    for (n, padded) in [(0, "0000"), (7, "0007"), (42, "0042"), (999, "0999"), (12345, "12345")] {
        let mut s = String::new();
        push_four_digits(&mut s, n);
        assert_eq!(s, padded);
        let mut d = "n=".to_string();
        push_decimal(&mut d, n);
        assert_eq!(d, format!("n={n}"));
    }
    let mut s = String::new();
    push_decimal(&mut s, u64::MAX);
    assert_eq!(s, "18446744073709551615");
}

#[test]
fn texts_are_compared_and_joined() {
    assert!(comes_before("7z", "bmp") && comes_before("jp", "jpg") && !comes_before("b", "b"));
    assert!(same_text("a", "a") && !same_text("a", "ab"));
    let list = vec!["a".to_string(), String::new(), "b".to_string()];
    assert_eq!(join(&list, ", "), "a, , b");
    assert_eq!(join(&[], ", "), "");
}

#[test]
fn progress_bars_have_their_texts() {
    assert_eq!(
        bar_template("Scan "),
        "Scan  [{bar:40}] {bytes}/{total_bytes} ({percent}%) ETA {eta} {msg}"
    );
    assert_eq!(candidates_message(12), "12 candidates");
}
