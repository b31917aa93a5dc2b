use windash::search::build_search_ms_uri;
use windash::text::{is_control_char, is_whitespace_char};

#[test]
fn test_search_uri_empty_or_none() {
    assert_eq!(build_search_ms_uri(None), "search-ms:");
    assert_eq!(build_search_ms_uri(Some("")), "search-ms:");
    assert_eq!(build_search_ms_uri(Some("   ")), "search-ms:");
    assert_eq!(build_search_ms_uri(Some("\r\n\t")), "search-ms:");
}

#[test]
fn test_search_uri_alphanumeric_and_spaces() {
    assert_eq!(build_search_ms_uri(Some("rust")), "search-ms:query=rust");
    assert_eq!(
        build_search_ms_uri(Some("rust cargo")),
        "search-ms:query=rust%20cargo"
    );
}

#[test]
fn test_search_uri_quotes_and_control_stripped() {
    assert_eq!(
        build_search_ms_uri(Some("hello \"world\" 'test'")),
        "search-ms:query=hello%20world%20test"
    );
    assert_eq!(
        build_search_ms_uri(Some("cmd\x00\r\n/c calc")),
        "search-ms:query=cmd%2Fc%20calc"
    );
}

#[test]
fn test_search_uri_special_characters_encoded() {
    assert_eq!(
        build_search_ms_uri(Some("c++ & rust=fast")),
        "search-ms:query=c%2B%2B%20%26%20rust%3Dfast"
    );
}

#[test]
fn test_search_uri_cjk_and_emoji() {
    assert_eq!(
        build_search_ms_uri(Some("日本語")),
        "search-ms:query=%E6%97%A5%E6%9C%AC%E8%AA%9E"
    );
    assert_eq!(
        build_search_ms_uri(Some("🦀")),
        "search-ms:query=%F0%9F%A6%80"
    );
}

#[test]
fn search_uri_trims_unicode_white_space_and_keeps_inner_space() {
    // U+3000 ideographic space and U+00A0 no-break space are white space; they are trimmed.
    assert_eq!(
        build_search_ms_uri(Some("\u{3000}\u{a0}a b\u{2003}")),
        "search-ms:query=a%20b"
    );
    // A C1 control character (U+0085) is stripped before trimming.
    assert_eq!(build_search_ms_uri(Some("\u{85}x\u{85}")), "search-ms:query=x");
    // Only quotes: nothing left.
    assert_eq!(build_search_ms_uri(Some("\"''\"")), "search-ms:");
}

#[test]
fn search_uri_keeps_unreserved_characters() {
    assert_eq!(build_search_ms_uri(Some("a-b_c.d~E9")), "search-ms:query=a-b_c.d~E9");
    assert_eq!(build_search_ms_uri(Some("a%b")), "search-ms:query=a%25b");
}

#[test]
fn search_uri_is_always_uri_safe() {
    let samples = ["", "plain", "x y\tz", "100% \u{7f}", "é", "\u{10ffff}", "<>&|^"];
    for s in samples.iter() {
        let uri = build_search_ms_uri(Some(s));
        assert!(uri.starts_with("search-ms:"));
        assert!(uri
            .chars()
            .all(|c| c.is_ascii_alphanumeric() || "-_.~%:=".contains(c)));
    }
}

#[test]
fn char_classes_match_std() {
    for u in 0u32..=0x10ffff {
        if let Some(c) = char::from_u32(u) {
            assert_eq!(is_control_char(c), c.is_control(), "control {:x}", u);
            assert_eq!(is_whitespace_char(c), c.is_whitespace(), "whitespace {:x}", u);
        }
    }
}

fn decode(s: &str) -> Vec<u8> {
    let b = s.as_bytes();
    let mut out = Vec::new();
    let mut i = 0;
    while i < b.len() {
        if b[i] == b'%' && i + 2 < b.len() {
            out.push(u8::from_str_radix(&s[i + 1..i + 3], 16).unwrap());
            i += 3;
        } else {
            out.push(b[i]);
            i += 1;
        }
    }
    out
}

#[test]
fn search_uri_decodes_to_the_cleaned_query() {
    for q in ["c++ & rust=fast", " 日本語 🦀 ", "a\"b'c\u{7}d", "100%/50%"] {
        let uri = build_search_ms_uri(Some(q));
        let rest = uri.strip_prefix("search-ms:query=").unwrap();
        let cleaned: String = q.chars().filter(|c| !c.is_control() && *c != '"' && *c != '\'').collect();
        assert_eq!(String::from_utf8(decode(rest)).unwrap(), cleaned.trim());
    }
}
