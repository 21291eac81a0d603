//! Text.

use container_image_pruner::text::{
    chars_of, decimal_string, has_run, holds_char, joined, parse_u64, pieces, range_of, same_text,
    string_of, trimmed, white, without_back, without_front,
};

fn piece_texts(s: &str, sep: char) -> Vec<String> {
    pieces(&chars_of(s), sep).iter().map(string_of).collect()
}

#[test]
fn white_space_is_that_of_unicode() {
    for n in 0..=0x10ffff_u32 {
        if let Some(c) = char::from_u32(n) {
            assert_eq!(white(c), c.is_whitespace(), "{n:x}");
        }
    }
}

#[test]
fn trims_and_strips() {
    for s in ["", " ", "a", " a b\t", "\u{2003}x\u{85}", "\u{200b}x", "é "] {
        assert_eq!(string_of(&trimmed(&chars_of(s))), s.trim(), "{s:?}");
    }
    for s in ["<<a<", "", "<", "a"] {
        assert_eq!(string_of(&without_front(&chars_of(s), '<')), s.trim_start_matches('<'));
        assert_eq!(string_of(&without_back(&chars_of(s), '<')), s.trim_end_matches('<'));
    }
    assert_eq!(string_of(&range_of(&chars_of("abcd"), 1, 3)), "bc");
}

#[test]
fn splits_like_the_standard_library() {
    for s in ["", "/", "a/b", "/a//b/", "abc", "é/ü"] {
        let expected: Vec<String> = s.split('/').map(|p| p.to_string()).collect();
        assert_eq!(piece_texts(s, '/'), expected, "{s:?}");
    }
}

#[test]
fn joins_and_searches() {
    let v = |items: &[&str]| items.iter().map(|s| s.to_string()).collect::<Vec<String>>();
    assert_eq!(joined(&v(&[]), ", "), "");
    assert_eq!(joined(&v(&["a"]), ", "), "a");
    assert_eq!(joined(&v(&["a", "", "c"]), ", "), "a, , c");
    for (hay, needle) in [("abc", "bc"), ("abc", "cb"), ("", ""), ("", "a"), ("aab", "ab"), ("a", "")] {
        assert_eq!(has_run(hay, needle), hay.contains(needle), "{hay} {needle}");
    }
    assert!(holds_char(&chars_of("a:b"), ':') && !holds_char(&chars_of("ab"), ':'));
    assert!(same_text("é", "é") && !same_text("a", "ab") && !same_text("a", "b"));
}

#[test]
fn numerals() {
    for n in [0, 7, 10, 99, 100, 1_234_567, u64::MAX] {
        assert_eq!(decimal_string(n), n.to_string());
        assert_eq!(parse_u64(&chars_of(&decimal_string(n))), Some(n));
    }
}

#[test]
fn reads_numbers_like_the_standard_library() {
    for s in [
        "", "+", "0", "007", "+12", "-1", "++1", "1+", " 1", "1_0", "12a", "٣",
        "18446744073709551615", "18446744073709551616", "18446744073709551619",
        "99999999999999999999", "000000000000000000000000000001",
    ] {
        assert_eq!(parse_u64(&chars_of(s)), s.parse::<u64>().ok(), "{s:?}");
    }
}
