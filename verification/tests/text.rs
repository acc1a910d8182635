use sage::text::{
    chars_of, is_whitespace, join_strings, join_strs, replace_str, split_trimmed_lines, str_eq,
    trim_str,
};

#[test]
fn whitespace_matches_std() {
    for c in ['\t', '\n', '\u{b}', '\u{c}', '\r', ' ', '\u{85}', '\u{a0}', '\u{1680}', '\u{2000}', '\u{200a}', '\u{2028}', '\u{2029}', '\u{202f}', '\u{205f}', '\u{3000}', 'a', '\u{200b}', '\u{feff}', '#', '\u{180e}'] {
        assert_eq!(is_whitespace(c), c.is_whitespace(), "{:?}", c);
    }
}

#[test]
fn trimming_matches_std() {
    for s in ["", "  ", " a ", "\u{3000}x\u{2028}", "a b", "\r\n"] {
        assert_eq!(trim_str(s), s.trim());
    }
}

#[test]
fn lines_match_std() {
    for s in ["", "\n", "a\n", "a\n\nb", "a\r\nb\r\n", " x \n\n", "\n\n"] {
        let expected: Vec<&str> = s.lines().map(str::trim).collect();
        assert_eq!(split_trimmed_lines(s), expected, "{:?}", s);
    }
}

#[test]
fn replacing_matches_std() {
    for (s, p, r) in [("aaa", "aa", "b"), ("xabyab", "ab", "\n"), ("", "a", "b"), ("abc", "abcd", "x"), ("héllo wörld", "ö", "o")] {
        assert_eq!(replace_str(s, p, r), s.replace(p, r));
    }
}

#[test]
fn joining_and_comparing() {
    assert_eq!(join_strs(&vec!["a", "b", "c"], ", "), "a, b, c");
    assert_eq!(join_strs(&vec![], "-"), "");
    assert_eq!(join_strings(&vec!["x".to_string()], "-"), "x");
    assert!(str_eq("abc", "abc"));
    assert!(!str_eq("abc", "abd"));
    assert!(!str_eq("ab", "abc"));
    assert_eq!(chars_of("héllo"), vec!['h', 'é', 'l', 'l', 'o']);
}
