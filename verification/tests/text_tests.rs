use breathe::text::{
    char_is_whitespace, find_only, parse_u64_in, range_is, strip_spaces, to_chars, trim_bounds,
    u64_to_string,
};
use breathe::verbosity::{get_level_filter, LevelFilter};

#[test]
fn numbers_are_written_in_decimal() {
    assert_eq!(u64_to_string(0), "0");
    assert_eq!(u64_to_string(7), "7");
    assert_eq!(u64_to_string(10), "10");
    assert_eq!(u64_to_string(19), "19");
    assert_eq!(u64_to_string(100), "100");
    assert_eq!(u64_to_string(1234567890), "1234567890");
    assert_eq!(u64_to_string(u64::MAX), "18446744073709551615");
    let mut n: u64 = 1;
    for _ in 0..64 {
        assert_eq!(u64_to_string(n), n.to_string());
        assert_eq!(u64_to_string(n - 1), (n - 1).to_string());
        n = n.wrapping_mul(2);
    }
}

#[test]
fn numbers_are_read_as_std_reads_them() {
    let texts = [
        "", "0", "1", "+1", "-1", "+", "-", "++1", "01", "000", "9", "10", "4294967296",
        "18446744073709551615", "18446744073709551616", "28446744073709551615",
        "184467440737095516150", "1a", "a1", " 1", "1 ", "1_000", "١٢", "1.0", "0x10",
    ];
    for text in texts {
        let chars = to_chars(text);
        let expected: Option<u64> = text.parse().ok();
        assert_eq!(parse_u64_in(&chars, 0, chars.len()), expected, "{:?}", text);
    }
    let chars = to_chars("ab123cd");
    assert_eq!(parse_u64_in(&chars, 2, 5), Some(123));
    assert_eq!(parse_u64_in(&chars, 2, 2), None);
    assert_eq!(parse_u64_in(&chars, 1, 5), None);
    assert_eq!(parse_u64_in(&chars, 4, 5), Some(3));
}

#[test]
fn what_is_written_reads_back() {
    for n in [0u64, 1, 9, 10, 11, 99, 100, 101, 65535, 1 << 32, u64::MAX - 1, u64::MAX] {
        let chars = to_chars(&u64_to_string(n));
        assert_eq!(parse_u64_in(&chars, 0, chars.len()), Some(n));
    }
}

#[test]
fn white_space_is_what_std_calls_white_space() {
    for code in 0..=0x10ffffu32 {
        if let Some(c) = char::from_u32(code) {
            assert_eq!(char_is_whitespace(c), c.is_whitespace(), "{:x}", code);
        }
    }
}

#[test]
fn spaces_are_taken_out() {
    let stripped: String = strip_spaces(&to_chars("  a b  c\t d ")).into_iter().collect();
    assert_eq!(stripped, "abc\td");
    assert!(strip_spaces(&to_chars("    ")).is_empty());
    assert!(strip_spaces(&to_chars("")).is_empty());
    let kept: String = strip_spaces(&to_chars("a\u{a0}b")).into_iter().collect();
    assert_eq!(kept, "a\u{a0}b");
}

#[test]
fn trimming_is_what_std_does() {
    let texts = [
        "", " ", "a", " a", "a ", " a ", "\t\n a b \r\n", "\u{3000}x\u{2000}", "   ", "\n",
        "a\tb", "\u{feff}a", "\u{200b}a ",
    ];
    for text in texts {
        let chars = to_chars(text);
        let (start, end) = trim_bounds(&chars);
        let trimmed: String = chars[start..end].iter().collect();
        assert_eq!(trimmed, text.trim(), "{:?}", text);
    }
}

#[test]
fn the_only_separator_is_found() {
    let chars = to_chars("a=b=c");
    assert_eq!(find_only(&chars, 0, 5, '='), None);
    assert_eq!(find_only(&chars, 0, 3, '='), Some(1));
    assert_eq!(find_only(&chars, 2, 5, '='), Some(3));
    assert_eq!(find_only(&chars, 0, 1, '='), None);
    assert_eq!(find_only(&chars, 1, 2, '='), Some(1));
    assert_eq!(find_only(&chars, 1, 1, '='), None);
    let chars = to_chars("a===");
    assert_eq!(find_only(&chars, 0, 4, '='), None);
    assert_eq!(find_only(&chars, 0, 2, '='), Some(1));
}

#[test]
fn ranges_are_compared_with_words() {
    let chars = to_chars("time=20");
    assert!(range_is(&chars, 0, 4, "time"));
    assert!(!range_is(&chars, 0, 4, "Time"));
    assert!(!range_is(&chars, 0, 3, "time"));
    assert!(!range_is(&chars, 0, 5, "time"));
    assert!(range_is(&chars, 5, 7, "20"));
    assert!(range_is(&chars, 3, 3, ""));
    let chars = to_chars("süß");
    assert_eq!(chars.len(), 3);
    assert!(range_is(&chars, 1, 3, "üß"));
}

#[test]
fn verbosity_levels() {
    assert_eq!(get_level_filter(0), LevelFilter::Error);
    assert_eq!(get_level_filter(1), LevelFilter::Warn);
    assert_eq!(get_level_filter(2), LevelFilter::Info);
    assert_eq!(get_level_filter(3), LevelFilter::Debug);
    assert_eq!(get_level_filter(4), LevelFilter::Trace);
    assert_eq!(get_level_filter(5), LevelFilter::Trace);
    assert_eq!(get_level_filter(u8::MAX), LevelFilter::Trace);
}
