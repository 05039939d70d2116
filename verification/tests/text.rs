use agent_collab::text;

#[test]
fn white_space_is_that_of_unicode() {
    for n in 0..=0x10ffffu32 {
        if let Some(c) = char::from_u32(n) {
            assert_eq!(text::is_whitespace(c), c.is_whitespace(), "{n:x}");
        }
    }
}

#[test]
fn trimming_agrees_with_std() {
    for s in ["", "   ", "a", " a ", "\t a b \u{3000}\r\n", "\u{a0}x\u{2028}", "é "] {
        assert_eq!(text::trim(s), s.trim());
    }
    for s in ["", "/", "a//", "//a/b/", "a"] {
        assert_eq!(text::trim_end_char(s, '/'), s.trim_end_matches('/'));
    }
}

#[test]
fn lines_agree_with_std() {
    for s in ["", "\n", "a", "a\n", "a\nb", "a\r\nb\r\n", "a\r", "\r\n\n x\n", "a\rb\n"] {
        let want: Vec<String> = s.lines().map(str::to_owned).collect();
        assert_eq!(text::lines(s), want, "{s:?}");
    }
}

#[test]
fn words_agree_with_std() {
    for s in ["", "  ", "a", " a  b\tc\u{2003}d ", "x\ny"] {
        let want: Vec<String> = s.split_whitespace().map(str::to_owned).collect();
        assert_eq!(text::words(s), want, "{s:?}");
    }
}

#[test]
fn first_word_is_split_at_one_space() {
    assert_eq!(text::split_first_word("write  notes"), ("write".to_owned(), " notes".to_owned()));
    assert_eq!(text::split_first_word("write"), ("write".to_owned(), String::new()));
    assert_eq!(text::split_first_word(""), (String::new(), String::new()));
}

#[test]
fn searching_agrees_with_std() {
    for s in ["", "a", "aab", "abab", "naïve", "..", "a.b"] {
        for t in ["", "a", "ab", "bab", "ï", "..", "abc"] {
            assert_eq!(text::contains(s, t), s.contains(t), "{s:?} {t:?}");
            assert_eq!(text::starts_with(s, t), s.starts_with(t), "{s:?} {t:?}");
            assert_eq!(text::strip_prefix(s, t).as_deref(), s.strip_prefix(t));
            assert_eq!(text::strip_suffix(s, t).as_deref(), s.strip_suffix(t));
            assert_eq!(text::same(s, t), s == t);
            assert_eq!(text::is_before(s, t), s < t, "{s:?} {t:?}");
        }
    }
}

#[test]
fn numbers_are_written_in_decimal() {
    for n in [0u64, 7, 10, 99, 100, 86_400, u64::MAX] {
        assert_eq!(text::decimal_text(n), n.to_string());
    }
    assert_eq!(text::digit_char(9), '9');
    assert_eq!(text::digit_char(15), 'f');
}

#[test]
fn joining_puts_separators_between() {
    let v = |parts: &[&str]| -> Vec<String> { parts.iter().map(|p| (*p).to_owned()).collect() };
    assert_eq!(text::join(&v(&[]), ", "), "");
    assert_eq!(text::join(&v(&["a"]), ", "), "a");
    assert_eq!(text::join(&v(&["a", "", "c"]), ", "), "a, , c");
    assert_eq!(text::concat("a", "b"), "ab");
    assert_eq!(text::wrap("a", "b", "c"), "abc");
}
