use visionary::text::{
    comes_before, decimal_text, has_end, has_start, hexadecimal_text, holds, join, lowered, read_number,
    same_text, signed_text, split, strip_end, trimmed,
};

#[test]
fn numbers_have_texts() {
    for n in [0, 7, 10, 99, 100, 1_234_567_890, u64::MAX] {
        assert_eq!(decimal_text(n), n.to_string());
        assert_eq!(hexadecimal_text(n), format!("{n:x}"));
    }
    for i in [0, -1, 42, i64::MIN, i64::MAX] {
        assert_eq!(signed_text(i), i.to_string());
    }
}

#[test]
fn texts_have_numbers() {
    for text in ["0", "65535", "65536", "+7", "007", "", "+", "-1", "1x", " 1"] {
        assert_eq!(
            read_number(text, 65535),
            text.parse::<u16>().ok().map(u64::from),
            "{text:?}"
        );
    }
    for text in ["18446744073709551615", "18446744073709551616", "99999999999999999999999"] {
        assert_eq!(read_number(text, u64::MAX), text.parse::<u64>().ok());
    }
}

#[test]
fn white_space_is_that_of_unicode() {
    for text in [" a b ", "\t\n", "", "\u{a0}x\u{2003}", "\u{200b}x", "\u{85}\u{3000}y"] {
        assert_eq!(trimmed(text), text.trim(), "{text:?}");
    }
}

#[test]
fn only_ascii_letters_are_lowered() {
    for text in ["ABC", "\u{c4}b", "z[Z", ""] {
        assert_eq!(lowered(text), text.to_ascii_lowercase());
    }
}

#[test]
fn starts_and_ends() {
    assert!(has_start("abc", "ab"));
    assert!(has_start("abc", ""));
    assert!(!has_start("abc", "abcd"));
    assert!(has_end("abc", "bc"));
    assert!(!has_end("abc", "ab"));
    assert_eq!(strip_end("a.nuanmb", ".nuanmb").as_deref(), Some("a"));
    assert_eq!(strip_end("a", ".nuanmb"), None);
    assert!(same_text("a", "a"));
    assert!(!same_text("a", "b"));
}

#[test]
fn texts_are_ordered_as_their_bytes_are() {
    let texts = ["", "a", "aa", "b", "Z", "\u{e4}", "\u{ffff}", "\u{10000}"];
    for a in texts {
        for b in texts {
            assert_eq!(comes_before(a, b), a < b, "{a:?} {b:?}");
        }
    }
}

#[test]
fn splitting_and_joining() {
    for text in ["", "a", "a,b", ",", "a,,b,"] {
        let parts: Vec<String> = text.split(',').map(String::from).collect();
        assert_eq!(split(text, ','), parts);
        assert_eq!(join(&parts), text);
    }
}

#[test]
fn a_part_is_found_wherever_it_stands() {
    let texts = ["", "a", "aab", "abab\u{e9}abc", "\u{e9}\u{1f600}x", "\u{c3}\u{a9}", "\"id\":1"];
    let parts = ["", "a", "ab", "abc", "\u{e9}", "\u{1f600}", "\u{a9}", "x", "\"id\":", "aabb"];
    for text in texts {
        for part in parts {
            assert_eq!(holds(text, part), text.contains(part), "{text:?} {part:?}");
        }
    }
}
