use jetexe::text::{
    contains_str, decimal_string, last_line_of, repeat_char, same_text, trim_str, white_space,
};

const TEXTS: &[&str] = &[
    "", " ", "abc", "  abc  ", "\tabc\n", "\u{3000}全角\u{3000}", "\u{85}x\u{a0}", "a\r\n",
    "line1\nline2", "line1\nline2\n", "line1\nline2\n\n", "\n", "\r\n", "x\r", "x\r\r\n",
    "合計：29.920000，平均：9.973333\n", "a\nb\r\nc\r", "\u{200b}zero width\u{200b}",
];

#[test]
fn white_space_follows_std() {
    for code in 0u32..0x3100 {
        if let Some(c) = char::from_u32(code) {
            assert_eq!(white_space(c), c.is_whitespace(), "{:?}", c);
        }
    }
    for c in ['\u{feff}', '\u{200b}', '\u{2060}', '\u{10ffff}'] {
        assert_eq!(white_space(c), c.is_whitespace(), "{:?}", c);
    }
}

#[test]
fn trim_follows_std() {
    for t in TEXTS {
        assert_eq!(trim_str(t), t.trim(), "{:?}", t);
    }
}

#[test]
fn contains_follows_std() {
    for a in TEXTS {
        for b in TEXTS {
            assert_eq!(contains_str(a, b), a.contains(b), "{:?} {:?}", a, b);
        }
    }
    assert!(contains_str("合計：29.920000，平均：9.973333", "平均：9.97"));
    assert!(!contains_str("abc", "abd"));
}

#[test]
fn last_line_follows_std() {
    for t in TEXTS {
        assert_eq!(last_line_of(t), t.lines().last().map(|s| s.to_string()), "{:?}", t);
    }
}

#[test]
fn decimal_follows_std() {
    for n in [0usize, 1, 9, 10, 11, 99, 100, 12345, 1000000, usize::MAX] {
        assert_eq!(decimal_string(n), n.to_string());
    }
}

#[test]
fn repeat_and_compare() {
    assert_eq!(repeat_char('=', 5), "=====");
    assert_eq!(repeat_char('=', 0), "");
    assert!(same_text("watch", "watch"));
    assert!(!same_text("watch", "watc"));
    assert!(!same_text("none", "nonE"));
}
