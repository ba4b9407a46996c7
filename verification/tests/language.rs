use heartbeat::i18n::I18n;
use heartbeat::i18n::Lang;
use heartbeat::text::chars_of;
use heartbeat::text::decimal_text;
use heartbeat::text::find_from;
use heartbeat::text::has_text;
use heartbeat::text::hex_text;
use heartbeat::text::joined;
use heartbeat::text::lines_of;
use heartbeat::text::list_entries;
use heartbeat::text::padded_text;
use heartbeat::text::parse_unsigned;
use heartbeat::text::pieces;
use heartbeat::text::replaced;
use heartbeat::text::take_chars;
use heartbeat::text::to_ascii_lower;
use heartbeat::text::trimmed;
use heartbeat::text::white;
use heartbeat::text::without_trailing;
use heartbeat::text::words_of;
use heartbeat::weburl::Url;
use std::collections::BTreeSet;

#[test]
fn catalogs_are_valid_and_have_the_same_keys() {
    let spanish: BTreeSet<_> = I18n::new(Lang::Es).keys().into_iter().collect();
    let english: BTreeSet<_> = I18n::new(Lang::En).keys().into_iter().collect();
    let missing_in_english: Vec<_> = spanish.difference(&english).collect();
    let missing_in_spanish: Vec<_> = english.difference(&spanish).collect();
    assert!(
        missing_in_english.is_empty() && missing_in_spanish.is_empty(),
        "missing in en: {missing_in_english:?}, missing in es: {missing_in_spanish:?}"
    );
    assert!(I18n::load(Lang::Es).is_some() && I18n::load(Lang::En).is_some());
}

#[test]
fn text_interpolates_and_falls_back_to_the_key() {
    let es = I18n::new(Lang::Es);
    assert_eq!(es.text("does.not.exist", &[]), "does.not.exist");
    let throttled = es.text("login.throttled", &[("minutes", "15")]);
    assert!(throttled.contains("15") && !throttled.contains("{minutes}"));
}

#[test]
fn languages_have_codes() {
    assert_eq!(Lang::Es.code(), "es");
    assert_eq!(Lang::En.code(), "en");
    assert_eq!("en".parse(), Ok(Lang::En));
    assert_eq!(Lang::parse(" ES "), Some(Lang::Es));
    assert_eq!(Lang::parse("fr"), None);
    assert_eq!(Lang::default(), Lang::Es);
}

#[test]
fn white_space_is_what_unicode_says() {
    for c in '\0'..=char::MAX {
        assert_eq!(white(c), c.is_whitespace(), "{:x}", u32::from(c));
    }
}

#[test]
fn text_helpers_agree_with_the_standard_ones() {
    for s in ["", " a b ", "a\r\nb\n\nc", "ñandú,, x ,", "\u{3000}x\u{a0}", "aaa"] {
        assert_eq!(trimmed(s), s.trim());
        assert_eq!(lines_of(s), s.lines().collect::<Vec<_>>());
        assert_eq!(words_of(s), s.split_whitespace().collect::<Vec<_>>());
        assert_eq!(pieces(s, ','), s.split(',').collect::<Vec<_>>());
        assert_eq!(replaced(s, "a", "aa"), s.replace('a', "aa"));
        assert_eq!(replaced(s, "aa", "b"), s.replace("aa", "b"));
        assert_eq!(take_chars(s, 2), s.chars().take(2).collect::<String>());
        assert_eq!(to_ascii_lower("AÑz"), "aÑz");
        assert_eq!(has_text(s, "a"), s.contains('a'));
    }
    assert_eq!(list_entries("a, ,b"), ["a", "b"]);
    assert_eq!(joined(&vec!["a".to_string(), "b".to_string()], "-"), "a-b");
    assert_eq!(without_trailing("x//", '/'), "x");
    assert_eq!(
        find_from(&chars_of("abcabc"), &chars_of("bc"), 2),
        Some(4)
    );
}

#[test]
fn numbers_are_written_and_read() {
    assert_eq!(decimal_text(0), "0");
    assert_eq!(decimal_text(u64::MAX), u64::MAX.to_string());
    assert_eq!(hex_text(0), "0");
    assert_eq!(hex_text(0xdead_beef), "deadbeef");
    assert_eq!(padded_text(7, 3), "007");
    assert_eq!(padded_text(1234, 3), "1234");
    assert_eq!(parse_unsigned("42", 100), Some(42));
    assert_eq!(parse_unsigned("+42", 100), Some(42));
    assert_eq!(parse_unsigned("101", 100), None);
    assert_eq!(parse_unsigned("", 100), None);
    assert_eq!(parse_unsigned("-1", 100), None);
    assert_eq!(parse_unsigned(&u64::MAX.to_string(), u64::MAX), Some(u64::MAX));
    assert_eq!(parse_unsigned("18446744073709551616", u64::MAX), None);
}

#[test]
fn urls_are_normalized_and_joined() {
    let url = Url::parse("HTTPS://API.Example.com:443/a/../b?q#f").unwrap();
    assert_eq!(url.scheme, "https");
    assert_eq!(url.host.as_deref(), Some("api.example.com"));
    assert_eq!(url.port, None);
    assert_eq!(url.path, "/b");
    assert_eq!(url.text, "https://api.example.com/b?q#f");
    assert_eq!(
        url.join("/c").map(|u| u.text).as_deref(),
        Some("https://api.example.com/c")
    );
    assert_eq!(Url::parse("tcp://h:5432").unwrap().port, Some(5432));
    assert!(Url::parse("nonsense").is_err());
}
