use voca::text::{
    chars_of, encode_utf16, is_white_space, join_words, replace_char, same_text, split_words,
    string_of, to_lower, trim,
};

const SAMPLES: [&str; 9] = [
    "",
    " ",
    "one",
    "  one two  ",
    "one\u{a0}two\u{3000}three\u{200b}",
    "\tA-B\nc\u{85}",
    "\u{1F600} smile \u{10FFFF}",
    "Ä-É z",
    "हिंदी में",
];

#[test]
fn white_space_is_that_of_unicode() {
    for n in 0..=0x10ffffu32 {
        if let Some(c) = char::from_u32(n) {
            assert_eq!(is_white_space(c), c.is_whitespace(), "{:x}", n);
        }
    }
}

#[test]
fn words_are_those_between_white_space() {
    for s in SAMPLES {
        let expected: Vec<String> = s.split_whitespace().map(|w| w.to_string()).collect();
        assert_eq!(split_words(s), expected);
    }
    assert_eq!(split_words(" a  b "), vec!["a".to_string(), "b".to_string()]);
}

#[test]
fn joining_and_splitting() {
    let ws = vec!["a".to_string(), "bc".to_string(), "d".to_string()];
    assert_eq!(join_words(&ws), "a bc d");
    assert_eq!(split_words(&join_words(&ws)), ws);
    assert_eq!(join_words(&vec![]), "");
    assert_eq!(join_words(&vec!["x".to_string()]), "x");
}

#[test]
fn trimming_matches_std() {
    for s in SAMPLES {
        assert_eq!(trim(s), s.trim());
        assert_eq!(trim(&trim(s)), s.trim());
    }
}

#[test]
fn lower_case_is_ascii_only() {
    for s in SAMPLES {
        assert_eq!(to_lower(s), s.to_ascii_lowercase());
    }
    assert_eq!(to_lower("AZaz@["), "azaz@[");
}

#[test]
fn replacing_characters() {
    for s in SAMPLES {
        assert_eq!(replace_char(s, '-', '_'), s.replace("-", "_"));
    }
}

#[test]
fn utf16_matches_std() {
    for s in SAMPLES {
        let expected: Vec<u16> = s.encode_utf16().collect();
        assert_eq!(encode_utf16(s), expected);
    }
    assert_eq!(encode_utf16("a\u{1F600}"), vec![0x61, 0xd83d, 0xde00]);
}

#[test]
fn characters_and_strings() {
    let chars = chars_of("aé\u{1F600}");
    assert_eq!(chars, vec!['a', 'é', '\u{1F600}']);
    assert_eq!(string_of(&chars, 1, 3), "é\u{1F600}");
    assert_eq!(string_of(&chars, 2, 2), "");
    assert!(same_text("ab", "ab"));
    assert!(!same_text("ab", "abc"));
}
