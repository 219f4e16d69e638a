use jetctx::text::{
    decimal, hex16, is_whitespace, join_strings, less_str, sorted_unique, trim_str,
};

#[test]
fn whitespace_matches_char_is_whitespace() {
    for code in 0u32..0x3100 {
        if let Some(c) = char::from_u32(code) {
            assert_eq!(is_whitespace(c), c.is_whitespace(), "code point {code:#x}");
        }
    }
    for c in ['\u{feff}', '\u{180e}', '\u{200b}', 'a', '\u{10ffff}'] {
        assert_eq!(is_whitespace(c), c.is_whitespace());
    }
}

#[test]
fn trim_matches_str_trim() {
    for s in ["", "  ", " a ", "\t\nx y\u{3000}", "\u{a0}z", "plain"] {
        assert_eq!(trim_str(s), s.trim());
    }
}

#[test]
fn decimal_and_hex_match_format() {
    for n in [0u64, 7, 10, 255, 1024, 99_999, u64::MAX] {
        assert_eq!(decimal(n), format!("{n}"));
        assert_eq!(hex16(n), format!("{n:016x}"));
    }
}

#[test]
fn join_strings_matches_slice_join() {
    let parts = vec!["a".to_string(), String::new(), "c".to_string()];
    assert_eq!(join_strings(&parts, ", "), parts.join(", "));
    assert_eq!(join_strings(&Vec::new(), " "), "");
}

#[test]
fn string_order_matches_std() {
    let words = ["", "a", "b", "ab", "a.b", "a-b", "é", "z", "\u{10000}", "\u{ffff}", "aa"];
    for a in words {
        for b in words {
            assert_eq!(less_str(a, b), a < b, "{a:?} < {b:?}");
        }
    }
}

#[test]
fn sorted_unique_matches_sort_and_dedup() {
    let keys: Vec<String> = ["b", "a.x", "a-b", "b", "", "a.x", "c"]
        .iter()
        .map(|s| s.to_string())
        .collect();
    let mut expected = keys.clone();
    expected.sort();
    expected.dedup();
    assert_eq!(sorted_unique(&keys), expected);
}
