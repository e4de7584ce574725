use vectorcxx::text::{
    chars_of, digit, escape, push_decimal, push_text, str_eq, text_before, unescape,
};

fn decimal(n: usize) -> String {
    let mut out = String::new();
    push_decimal(&mut out, n);
    out
}

#[test]
fn escape_puts_a_backslash_before_each_dot() {
    assert_eq!(escape(""), "");
    assert_eq!(escape("abc"), "abc");
    assert_eq!(escape("c.d"), "c\\.d");
    assert_eq!(escape("."), "\\.");
    assert_eq!(escape("..a."), "\\.\\.a\\.");
    assert_eq!(escape("a\\b"), "a\\b");
    assert_eq!(escape("a\\.b"), "a\\\\.b");
}

#[test]
fn unescape_takes_the_backslash_before_a_dot_out() {
    assert_eq!(unescape(""), "");
    assert_eq!(unescape("abc"), "abc");
    assert_eq!(unescape("c\\.d"), "c.d");
    assert_eq!(unescape("c.d"), "c.d");
    assert_eq!(unescape("\\."), ".");
    assert_eq!(unescape("\\"), "\\");
    assert_eq!(unescape("a\\b"), "a\\b");
    assert_eq!(unescape("a\\\\.b"), "a\\.b");
    assert_eq!(unescape("\\.\\.a\\."), "..a.");
    assert_eq!(unescape("\u{e9}\\.\u{4e2d}"), "\u{e9}.\u{4e2d}");
}

#[test]
fn unescape_is_what_replace_does() {
    for s in ["", ".", "\\", "\\.", "\\\\.", "a\\.b\\.c", "\\.\\", "x\\y.z", "\\\\\\...\\"] {
        assert_eq!(unescape(s), s.replace("\\.", "."));
    }
}

#[test]
fn unescape_undoes_escape() {
    for s in ["", ".", "\\", "\\.", "a.b", "a\\.b", "..", "\\\\", "x\\", "\u{e9}.\u{4e2d}"] {
        assert_eq!(unescape(&escape(s)), s);
    }
}

#[test]
fn decimal_digits() {
    assert_eq!(decimal(0), "0");
    assert_eq!(decimal(7), "7");
    assert_eq!(decimal(10), "10");
    assert_eq!(decimal(1203), "1203");
    assert_eq!(decimal(usize::MAX), usize::MAX.to_string());
    for d in 0..10usize {
        assert_eq!(digit(d).to_string(), d.to_string());
    }
}

#[test]
fn text_helpers() {
    assert!(str_eq("abc", "abc"));
    assert!(!str_eq("abc", "abd"));
    assert!(!str_eq("abc", "ab"));
    assert!(str_eq("", ""));
    assert_eq!(chars_of("a\u{e9}z"), vec!['a', '\u{e9}', 'z']);
    assert!(chars_of("").is_empty());
    let mut out = "ab".to_string();
    push_text(&mut out, "c\u{e9}");
    assert_eq!(out, "abc\u{e9}");
    push_text(&mut out, "");
    assert_eq!(out, "abc\u{e9}");
}

#[test]
fn escaped_text_has_no_bare_dot() {
    for s in ["a.b.c", ".", "..", "x\\.y", "\\", "plain", ".\\."] {
        let escaped: Vec<char> = escape(s).chars().collect();
        for (i, c) in escaped.iter().enumerate() {
            if *c == '.' {
                assert!(i > 0 && escaped[i - 1] == '\\');
            }
        }
    }
}

#[test]
fn order_of_texts_is_the_order_of_strings() {
    let texts = [
        "", "a", "A", "aa", "ab", "b", "ba", "_", "0", "9", "a0", "\u{e9}", "\u{e9}a", "e",
        "\u{4e2d}", "\u{1f600}", "\u{7f}", "\u{80}", "\u{7ff}", "\u{800}", "\u{ffff}",
        "\u{10000}", "z\u{10000}", "z",
    ];
    for a in texts {
        for b in texts {
            assert_eq!(text_before(a, b), a < b, "{:?} before {:?}", a, b);
        }
    }
    assert!(text_before("", "a"));
    assert!(!text_before("", ""));
    assert!(text_before("a", "aa"));
    assert!(!text_before("aa", "a"));
    assert!(text_before("Z", "a"));
}
