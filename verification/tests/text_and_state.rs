use orb::state::{set_state, State};
use orb::text::{
    decimal_text, nth_field, parse_u32, starts_with, text_eq, trim_text,
};

#[test]
fn state_texts() {
    assert_eq!(State::Idle.as_str(), "IDLE");
    assert_eq!(State::Send.as_str(), "SEND");
    assert_eq!(State::Receive.as_str(), "RECEIVE");
}

#[test]
fn state_from_property_values() {
    assert_eq!(State::from_property(Some("SEND")), State::Send);
    assert_eq!(State::from_property(Some("RECEIVE")), State::Receive);
    assert_eq!(State::from_property(Some("IDLE")), State::Idle);
    assert_eq!(State::from_property(Some("send")), State::Idle);
    assert_eq!(State::from_property(Some("")), State::Idle);
    assert_eq!(State::from_property(None), State::Idle);
}

#[test]
fn state_text_roundtrip() {
    for s in [State::Idle, State::Send, State::Receive] {
        assert_eq!(State::from_property(Some(s.as_str())), s);
    }
}

#[test]
fn set_state_replaces() {
    let mut s = State::Idle;
    set_state(&mut s, State::Receive);
    assert_eq!(s, State::Receive);
    set_state(&mut s, State::Idle);
    assert_eq!(s, State::Idle);
}

#[test]
fn trim_ascii_and_unicode_whitespace() {
    assert_eq!(trim_text("  hi \t\n"), "hi");
    assert_eq!(trim_text("\u{3000}x y\u{a0}\u{2029}"), "x y");
    assert_eq!(trim_text(" \r\n "), "");
    assert_eq!(trim_text(""), "");
    assert_eq!(trim_text("a"), "a");
    for s in ["  x ", "\u{85}z\u{1680}", "q"] {
        assert_eq!(trim_text(s), s.trim());
    }
}

#[test]
fn decimal_values() {
    assert_eq!(decimal_text(0), "0");
    assert_eq!(decimal_text(7), "7");
    assert_eq!(decimal_text(10), "10");
    assert_eq!(decimal_text(1234567890123), "1234567890123");
    assert_eq!(decimal_text(u64::MAX), u64::MAX.to_string());
}

#[test]
fn parse_u32_like_std() {
    assert_eq!(parse_u32("42"), Some(42));
    assert_eq!(parse_u32("+42"), Some(42));
    assert_eq!(parse_u32("007"), Some(7));
    assert_eq!(parse_u32("4294967295"), Some(u32::MAX));
    assert_eq!(parse_u32("4294967296"), None);
    assert_eq!(parse_u32(""), None);
    assert_eq!(parse_u32("+"), None);
    assert_eq!(parse_u32("-1"), None);
    assert_eq!(parse_u32("-0"), None);
    assert_eq!(parse_u32("12a"), None);
    assert_eq!(parse_u32(" 1"), None);
    for s in ["0", "+0", "99", "4294967295", "4294967296", "x", "++1"] {
        assert_eq!(parse_u32(s), s.parse::<u32>().ok());
    }
}

#[test]
fn decimal_parse_roundtrip() {
    for n in [0u32, 1, 9, 10, 65535, 4294967295] {
        assert_eq!(parse_u32(&decimal_text(n as u64)), Some(n));
    }
}

#[test]
fn fields_and_prefixes() {
    assert_eq!(nth_field("a|b|c", '|', 0), Some("a".to_string()));
    assert_eq!(nth_field("a|b|c", '|', 2), Some("c".to_string()));
    assert_eq!(nth_field("a|b|c", '|', 3), None);
    assert_eq!(nth_field("", '|', 0), Some(String::new()));
    assert_eq!(nth_field("a||", '|', 2), Some(String::new()));
    assert!(starts_with("OK|x", "OK|"));
    assert!(!starts_with("OK", "OK|"));
    assert!(starts_with("abc", ""));
    assert!(text_eq("same", "same"));
    assert!(!text_eq("same", "sane"));
    assert!(!text_eq("a", "ab"));
}
