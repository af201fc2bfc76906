use oas_sync::text::{contains_str, parse_u64_dec, starts_with, str_eq, str_lt, strip_all, u64_to_dec};

fn s(text: &str) -> String {
    String::from(text)
}

#[test]
fn decimal_codec_round_trips() {
    for n in [0u64, 1, 9, 10, 86400, u64::MAX] {
        let text = u64_to_dec(n);
        assert_eq!(parse_u64_dec(&text), Some(n));
    }
    assert_eq!(u64_to_dec(86400), s("86400"));
}

#[test]
fn decimal_reader_is_strict() {
    assert_eq!(parse_u64_dec(""), None);
    assert_eq!(parse_u64_dec("007"), None);
    assert_eq!(parse_u64_dec("1e3"), None);
    assert_eq!(parse_u64_dec("-5"), None);
    assert_eq!(parse_u64_dec("18446744073709551615"), Some(u64::MAX));
    assert_eq!(parse_u64_dec("18446744073709551616"), None);
    assert_eq!(parse_u64_dec("0"), Some(0));
}

#[test]
fn string_utilities_behave() {
    assert!(str_eq("abc", "abc"));
    assert!(!str_eq("abc", "abd"));
    assert!(str_lt("abc", "abd"));
    assert!(str_lt("ab", "abc"));
    assert!(!str_lt("b", "abc"));
    assert!(starts_with("http://x", "http://"));
    assert!(!starts_with("https://x", "http://"));
    assert!(contains_str("a/../b", ".."));
    assert!(!contains_str("a/.b/c.", ".."));
}

#[test]
fn occurrence_stripping_matches_replacement() {
    assert_eq!(strip_all("#/definitions/User", "#/definitions/"), s("User"));
    assert_eq!(
        strip_all("#/components/schemas/Pet", "#/components/schemas/"),
        s("Pet")
    );
    assert_eq!(strip_all("aXbXc", "X"), s("abc"));
    assert_eq!(strip_all("aaa", "aa"), s("a"));
    assert_eq!(strip_all("plain", "zz"), s("plain"));
}
