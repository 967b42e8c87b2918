use ollama_controls::number::{parse_u32, to_decimal};
use ollama_controls::text::{
    blank, chars_of, find_gap, lines, same_text, split, starts_with, string_of, to_ascii_upper, trim,
    trim_end, trim_start, trim_trailing, white_space, word,
};

const SAMPLES: [&str; 14] = [
    "",
    " ",
    "a",
    " a b ",
    "\n",
    "a\n",
    "a\nb",
    "a\r\nb\r\n",
    "a\r",
    "\r\n\r\n",
    "\u{3000}x\u{85}y\u{2028}",
    "a  b   c",
    "  \t indented",
    "h\u{e9}llo \u{1f600}\n\n",
];

#[test]
fn white_space_is_that_of_unicode() {
    for n in 0..=0x10ffffu32 {
        if let Some(c) = char::from_u32(n) {
            assert_eq!(white_space(c), c.is_whitespace());
        }
    }
}

#[test]
fn capitals_are_those_of_ascii() {
    for n in 0..0x300u32 {
        if let Some(c) = char::from_u32(n) {
            assert_eq!(to_ascii_upper(c), c.to_ascii_uppercase());
        }
    }
}

#[test]
fn texts_are_characters() {
    for s in SAMPLES {
        let chars = chars_of(s);
        assert_eq!(chars, s.chars().collect::<Vec<char>>());
        assert_eq!(string_of(&chars), s);
        assert!(same_text(s, s));
    }
    assert!(!same_text("a", "b"));
}

#[test]
fn trimming_takes_white_space_off() {
    for s in SAMPLES {
        let chars = chars_of(s);
        assert_eq!(string_of(trim(&chars)), s.trim());
        assert_eq!(string_of(trim_start(&chars)), s.trim_start());
        assert_eq!(string_of(trim_end(&chars)), s.trim_end());
        assert_eq!(string_of(trim_trailing(&chars, '\r')), s.trim_end_matches('\r'));
        assert_eq!(blank(&chars), s.trim().is_empty());
    }
}

#[test]
fn texts_are_split() {
    for s in SAMPLES {
        let chars = chars_of(s);
        let pieces: Vec<String> = split(&chars, '\n').into_iter().map(string_of).collect();
        assert_eq!(pieces, s.split('\n').collect::<Vec<&str>>());
        assert_eq!(pieces.join("\n"), s);
        let found: Vec<String> = lines(&chars).into_iter().map(string_of).collect();
        assert_eq!(found, s.lines().collect::<Vec<&str>>());
        assert_eq!(string_of(word(&chars)), s.split_whitespace().next().unwrap_or(""));
        let gap = s.find("  ").map(|b| s[..b].chars().count());
        assert_eq!(find_gap(&chars), gap);
        assert_eq!(starts_with(&chars, "a"), s.starts_with("a"));
    }
}

#[test]
fn decimals_are_read_back() {
    for n in [0u32, 7, 10, 99, 100, 11434, 65535, u32::MAX] {
        let digits = to_decimal(n as u64);
        assert_eq!(string_of(&digits), n.to_string());
        assert_eq!(parse_u32(&digits), Some(n));
    }
    assert_eq!(string_of(&to_decimal(u64::MAX)), u64::MAX.to_string());
    assert_eq!(parse_u32(&chars_of("4294967296")), None);
}
