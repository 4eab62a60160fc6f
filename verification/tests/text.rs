use snowflake::text;

#[test]
fn white_space_is_what_std_says() {
    for c in '\0'..=char::MAX {
        assert_eq!(text::white_space(c), c.is_whitespace(), "{c:?}");
        assert_eq!(text::lower_char(c), c.to_ascii_lowercase());
        assert_eq!(text::upper_char(c), c.to_ascii_uppercase());
    }
}

#[test]
fn trimming_is_what_std_does() {
    for s in ["", " ", "a", " a ", "\t a b \u{2003}", "\u{180e}a", "\u{3000}\u{85}", "\u{200b} x"] {
        assert_eq!(text::trim(s), s.trim());
        assert_eq!(text::trim(text::trim(s)), s.trim());
    }
    for s in ["", "/", "//a/", "a/", "///"] {
        assert_eq!(text::trim_leading(s, '/'), s.trim_start_matches('/'));
    }
}

#[test]
fn searching_is_what_std_does() {
    for s in ["", "a", "aba", "a.b.c", "..", "xa.b", "\u{e4}.\u{fc}"] {
        assert_eq!(text::head(s, '.'), s.split('.').next().unwrap());
        assert_eq!(text::tail(s, '.'), s.split_once('.').map(|(_, rest)| rest));
        assert_eq!(text::without_tail(s, '.'), s.rsplit_once('.').map_or(s, |(start, _)| start));
        for part in ["", "a", "a.", "b", "ba", "a.b.c.d", "\u{fc}"] {
            assert_eq!(text::contains(s, part), s.contains(part));
            assert_eq!(text::starts_with(s, part), s.starts_with(part));
            assert_eq!(text::same(s, part), s == part);
            assert_eq!(text::eq_ignore_ascii_case(s, part), s.eq_ignore_ascii_case(part));
        }
    }
    assert!(text::eq_ignore_ascii_case("aRRow", "ArrOW"));
    assert!(!text::eq_ignore_ascii_case("\u{e4}", "\u{c4}"));
    assert_eq!(text::to_lower("AbC\u{c4}9"), "abc\u{c4}9");
    assert_eq!(text::to_upper("AbC\u{e4}9"), "ABC\u{e4}9");
    assert_eq!(text::join(&["a", "", "b"], ", "), "a, , b");
    assert_eq!(text::join(&["a"], ", "), "a");
    assert_eq!(text::join(&[], ", "), "");
}
