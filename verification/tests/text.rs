use sunrise::text::{
    contains_text, decimal_text, is_white_space, join_texts, lower_text, parse_number,
    same_text_ignoring_case, split_text, split_text_once, starts_with_text, trim_text, upper_text,
    words_of,
};

const SAMPLES: [&str; 9] = [
    "",
    "a",
    " a\tb ",
    "a\r\nb\r\n",
    "\r\r\n\n",
    "\u{a0}x\u{3000}",
    "a:b:c",
    "aXxbYy\u{c4}\u{e4}",
    "aaab",
];

#[test]
fn white_space_matches_the_standard_library() {
    for c in '\0'..=char::MAX {
        assert_eq!(is_white_space(c), c.is_whitespace());
    }
}

#[test]
fn decimal_numbers_read_back() {
    for n in [0, 9, 10, 48010, u64::MAX] {
        assert_eq!(decimal_text(n), n.to_string());
        assert_eq!(parse_number(&decimal_text(n), u64::MAX), Some(n));
    }
}

#[test]
fn texts_are_cut_like_the_standard_library_does() {
    for s in SAMPLES {
        assert_eq!(trim_text(s), s.trim());
        assert_eq!(lower_text(s), s.to_ascii_lowercase());
        assert_eq!(upper_text(s), s.to_ascii_uppercase());
        assert_eq!(words_of(s), s.split_whitespace().collect::<Vec<_>>());
        for p in ["\r\n", ":", "a", "aa", "x"] {
            assert_eq!(split_text(s, p), s.split(p).collect::<Vec<_>>());
            assert_eq!(join_texts(&split_text(s, p), p), s);
            assert_eq!(contains_text(s, p), s.contains(p));
            assert_eq!(starts_with_text(s, p), s.starts_with(p));
            let once = s.split_once(p).map(|(a, b)| (a.to_string(), b.to_string()));
            assert_eq!(split_text_once(s, p), once);
        }
        for t in SAMPLES {
            assert_eq!(same_text_ignoring_case(s, t), s.eq_ignore_ascii_case(t));
        }
    }
}

#[test]
fn numbers_are_read_like_the_standard_library_does() {
    for s in ["", "+", "-1", "0", "+7", "007", "4294967295", "4294967296", "1 ", "x", "\u{661}"] {
        let expected = s.parse::<u32>().ok().map(u64::from);
        assert_eq!(parse_number(s, u64::from(u32::MAX)), expected);
        assert_eq!(parse_number(s, u64::MAX), s.parse::<u64>().ok());
    }
    assert_eq!(parse_number("18446744073709551616", u64::MAX), None);
}
