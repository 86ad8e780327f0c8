use ai_guard_gateway::number::{decimal_string, parse_u16, parse_usize};
use ai_guard_gateway::text::{eq_ignore_ascii_case, starts_with, trim, trim_end_matches_char};

#[test]
fn trimming_matches_std() {
    for t in ["  a b  ", "\u{3000}x\u{85}", "", "   ", "\t\nabc", "abc"] {
        assert_eq!(trim(t), t.trim());
    }
    assert_eq!(trim_end_matches_char("https://x/v1///", '/'), "https://x/v1");
    assert_eq!(trim_end_matches_char("///", '/'), "");
}

#[test]
fn comparisons() {
    assert!(eq_ignore_ascii_case("OpenAI", "openai"));
    assert!(!eq_ignore_ascii_case("openai", "openai "));
    assert!(starts_with("gemini-2.0-flash", "gemini"));
    assert!(!starts_with("gem", "gemini"));
}

#[test]
fn decimal_numbers() {
    assert_eq!(decimal_string(0), "0");
    assert_eq!(decimal_string(1234567), "1234567");
    assert_eq!(decimal_string(usize::MAX), usize::MAX.to_string());
    assert_eq!(parse_u16("0042"), Some(42));
    assert_eq!(parse_u16("65536"), None);
    assert_eq!(parse_usize(&usize::MAX.to_string()), Some(usize::MAX));
    assert_eq!(parse_usize("18446744073709551616"), None);
    assert_eq!(parse_usize("+7"), Some(7));
    assert_eq!(parse_usize("++7"), None);
}

#[test]
fn written_numbers_read_back() {
    for n in [0usize, 7, 10, 99, 100, 65535, 4294967296, usize::MAX] {
        assert_eq!(parse_usize(&decimal_string(n)), Some(n));
    }
    assert_eq!(parse_u16(&decimal_string(65535)), Some(65535));
}
