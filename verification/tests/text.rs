use webdav_fuse::text::{chars_of, file_name_of, parse_decimal, same_text, strip_quotes};

#[test]
fn chars_of_takes_characters_not_bytes() {
    assert_eq!(chars_of("aé/"), vec!['a', 'é', '/']);
    assert_eq!(chars_of(""), Vec::<char>::new());
}

#[test]
fn same_text_compares_characters() {
    assert!(same_text("prop", "prop"));
    assert!(same_text("", ""));
    assert!(!same_text("prop", "props"));
    assert!(!same_text("prop", "proq"));
    assert!(!same_text("prop", ""));
}

#[test]
fn parse_decimal_reads_plain_numbers() {
    assert_eq!(parse_decimal("0"), Some(0));
    assert_eq!(parse_decimal("10"), Some(10));
    assert_eq!(parse_decimal("007"), Some(7));
    assert_eq!(parse_decimal("4096"), Some(4096));
}

#[test]
fn parse_decimal_takes_one_plus_sign() {
    assert_eq!(parse_decimal("+7"), Some(7));
    assert_eq!(parse_decimal("++7"), None);
    assert_eq!(parse_decimal("+"), None);
}

#[test]
fn parse_decimal_stops_at_the_largest_u64() {
    assert_eq!(parse_decimal("18446744073709551615"), Some(u64::MAX));
    assert_eq!(parse_decimal("18446744073709551616"), None);
    assert_eq!(parse_decimal("99999999999999999999999"), None);
}

#[test]
fn parse_decimal_refuses_what_is_no_number() {
    assert_eq!(parse_decimal(""), None);
    assert_eq!(parse_decimal("-1"), None);
    assert_eq!(parse_decimal("1a"), None);
    assert_eq!(parse_decimal("a1"), None);
    assert_eq!(parse_decimal(" 1"), None);
    assert_eq!(parse_decimal("1 "), None);
    assert_eq!(parse_decimal("1_000"), None);
    assert_eq!(parse_decimal("1.5"), None);
    assert_eq!(parse_decimal("１２"), None);
}

#[test]
fn parse_decimal_agrees_with_the_standard_parser() {
    let samples = [
        "0", "1", "+1", "-0", "+", "", "00", "12345678901234567890", "18446744073709551615",
        "18446744073709551616", "abc", "12x", "+-1", " 5", "5\n", "٣",
    ];
    for sample in samples {
        assert_eq!(parse_decimal(sample), sample.parse::<u64>().ok(), "{}", sample);
    }
}

#[test]
fn strip_quotes_takes_surrounding_quotes_off() {
    assert_eq!(strip_quotes("\"abc123\""), "abc123");
    assert_eq!(strip_quotes("abc123"), "abc123");
    assert_eq!(strip_quotes("\"abc123"), "abc123");
    assert_eq!(strip_quotes("abc123\""), "abc123");
    assert_eq!(strip_quotes("\"\"abc\"\""), "abc");
}

#[test]
fn strip_quotes_keeps_quotes_inside() {
    assert_eq!(strip_quotes("\"a\"b\""), "a\"b");
    assert_eq!(strip_quotes("W/\"e1\""), "W/\"e1");
}

#[test]
fn strip_quotes_of_nothing_but_quotes_is_empty() {
    assert_eq!(strip_quotes(""), "");
    assert_eq!(strip_quotes("\""), "");
    assert_eq!(strip_quotes("\"\"\""), "");
}

#[test]
fn strip_quotes_counts_characters_not_bytes() {
    assert_eq!(strip_quotes("\"é\u{1F600}\""), "é\u{1F600}");
}

#[test]
fn file_name_of_is_the_last_segment() {
    assert_eq!(file_name_of("/docs/a.txt"), Some("a.txt".to_string()));
    assert_eq!(file_name_of("a.txt"), Some("a.txt".to_string()));
    assert_eq!(file_name_of("/remote.php/dav/files/test/"), Some("test".to_string()));
    assert_eq!(file_name_of("/docs/sub//"), Some("sub".to_string()));
    assert_eq!(file_name_of("/docs/my%20file"), Some("my%20file".to_string()));
    assert_eq!(file_name_of("/docs/..."), Some("...".to_string()));
    assert_eq!(file_name_of("/docs/.hidden"), Some(".hidden".to_string()));
}

#[test]
fn file_name_of_passes_over_single_dots() {
    assert_eq!(file_name_of("/docs/."), Some("docs".to_string()));
    assert_eq!(file_name_of("/docs/./"), Some("docs".to_string()));
    assert_eq!(file_name_of("./a"), Some("a".to_string()));
}

#[test]
fn file_name_of_has_nothing_to_give() {
    assert_eq!(file_name_of(""), None);
    assert_eq!(file_name_of("/"), None);
    assert_eq!(file_name_of("//"), None);
    assert_eq!(file_name_of("."), None);
    assert_eq!(file_name_of("./."), None);
    assert_eq!(file_name_of(".."), None);
    assert_eq!(file_name_of("/docs/.."), None);
    assert_eq!(file_name_of("/docs/../"), None);
}

#[test]
fn file_name_of_agrees_with_the_standard_path() {
    let samples = [
        "", "/", ".", "..", "a", "/a", "a/", "a/b", "a//b//", "a/./b/.", "a/..", "a/../b", "./.",
        "/./", "...", "a/.b", "/remote.php/dav/files/test/docs/a.txt", "é/ü",
    ];
    for sample in samples {
        let expected = std::path::Path::new(sample)
            .file_name()
            .and_then(|name| name.to_str())
            .map(|name| name.to_string());
        assert_eq!(file_name_of(sample), expected, "{}", sample);
    }
}
