use ullam::format::fixed_string;
use ullam::text::{
    contains, decimal_string, ends_with, is_whitespace, parse_u32_from, starts_with,
    str_eq, trim_end_string,
};

#[test]
fn string_comparisons() {
    assert!(str_eq("abc", "abc"));
    assert!(!str_eq("abc", "abd"));
    assert!(!str_eq("ab", "abc"));
    assert!(starts_with("PIDR", "PID"));
    assert!(!starts_with("PI", "PID"));
    assert!(starts_with("x", ""));
    assert!(ends_with("m.gguf", ".gguf"));
    assert!(!ends_with("gguf", ".gguf"));
    assert!(contains("llama-vulkan-x64", "vulkan"));
    assert!(contains("abc", ""));
    assert!(contains("abc", "abc"));
    assert!(!contains("abc", "abcd"));
    assert!(!contains("abc", "ac"));
}

#[test]
fn decimal_and_parse() {
    assert_eq!(decimal_string(0), "0");
    assert_eq!(decimal_string(7), "7");
    assert_eq!(decimal_string(10), "10");
    assert_eq!(decimal_string(4_294_967_295), "4294967295");
    assert_eq!(parse_u32_from("x42", 1), Some(42));
    assert_eq!(parse_u32_from("4294967295", 0), Some(u32::MAX));
    assert_eq!(parse_u32_from("4294967296", 0), None);
    assert_eq!(parse_u32_from("+0", 0), Some(0));
    assert_eq!(parse_u32_from("", 0), None);
    assert_eq!(parse_u32_from("1 ", 0), None);
    for n in [0u32, 9, 10, 99, 12345, u32::MAX] {
        let text = decimal_string(n as u64);
        assert_eq!(parse_u32_from(&text, 0), Some(n));
        assert_eq!(text, n.to_string());
    }
}

#[test]
fn whitespace_and_trimming() {
    for c in [' ', '\t', '\n', '\u{b}', '\u{c}', '\r', '\u{a0}', '\u{2003}'] {
        assert_eq!(trim_end_string(&format!("x{c}")), "x");
    }
    assert_eq!(trim_end_string("xa"), "xa");
    assert_eq!(trim_end_string("x\0"), "x\0");
    assert_eq!(trim_end_string("a b \t\n"), "a b");
    assert_eq!(trim_end_string("   "), "");
    assert_eq!(trim_end_string("x\u{a0}"), "x");
    assert_eq!(trim_end_string(" x"), " x");
}

#[test]
fn lossy_decoding_of_fixed_strings() {
    assert_eq!(fixed_string(b"plain\0junk"), "plain");
    assert_eq!(fixed_string(&[0xf0, 0x9f, 0x9a, 0x81, 0, 0]), "\u{1f681}");
    assert_eq!(fixed_string(&[0x80, b'a']), "\u{fffd}a");
    assert_eq!(decimal_string(42), "42");
}

#[test]
fn white_space_is_the_unicode_property() {
    for n in 0u32..=0x10FFFF {
        if let Some(c) = char::from_u32(n) {
            assert_eq!(is_whitespace(c), c.is_whitespace(), "U+{n:04X}");
        }
    }
    assert!(!is_whitespace('\u{180e}'));
    assert!(!is_whitespace('\u{feff}'));
    assert!(!is_whitespace('\u{10ffff}'));
}
