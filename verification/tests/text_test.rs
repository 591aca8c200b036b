use tagami::number::{decimal_text, hours_minutes_text, pad_right, parse_number, two_digit_text};
use tagami::order::{is_before, TextSet};
use tagami::text::{
    behind_last_char, blank, contains, copy, find_chars, flattened, joined, line_list, part,
    same_chars, same_text, starts_with, strip_back_chars, strip_chars, strip_front_chars, to_chars,
    to_text, trimmed, truncate, up_to_char, white, Edge,
};

fn chars(s: &str) -> Vec<char> {
    s.chars().collect()
}

#[test]
fn text_and_characters() {
    assert_eq!(to_chars("aあ𠮷"), vec!['a', 'あ', '𠮷']);
    assert_eq!(to_text(&vec!['a', 'あ', '𠮷']), "aあ𠮷");
    assert_eq!(part(&chars("abcdef"), 2, 5), vec!['c', 'd', 'e']);
    assert_eq!(copy("abc"), "abc");
    assert_eq!(tagami::text::concat("ab", "cd"), "abcd");
    assert!(same_text("abc", "abc"));
    assert!(!same_text("abc", "abd"));
    assert!(same_chars(&chars("x"), &chars("x")));
    assert!(!same_chars(&chars("x"), &chars("xx")));
}

#[test]
fn finding_text() {
    assert_eq!(find_chars(&chars("ababc"), &chars("abc"), 0), Some(2));
    assert_eq!(find_chars(&chars("ababc"), &chars("ab"), 1), Some(2));
    assert_eq!(find_chars(&chars("ababc"), &chars("x"), 0), None);
    assert_eq!(find_chars(&chars("ab"), &chars(""), 2), Some(2));
    for (s, p) in [("hello", "ell"), ("hello", "elx"), ("", ""), ("a", ""), ("", "a"), ("日本語", "本")] {
        assert_eq!(contains(s, p), s.contains(p));
        assert_eq!(starts_with(s, p), s.starts_with(p));
    }
    assert!(starts_with("--ai", "--"));
}

#[test]
fn white_space_is_that_of_unicode() {
    let mut n: u32 = 0;
    while n <= 0x10FFFF {
        if let Some(c) = char::from_u32(n) {
            assert_eq!(white(c), c.is_whitespace(), "{:x}", n);
        }
        n += 1;
    }
}

#[test]
fn trimming() {
    for s in ["", " ", "  a b  ", "\u{3000}あ\u{3000}", "\n\tx\r\n", "x", "a "] {
        assert_eq!(trimmed(s), s.trim());
        assert_eq!(blank(s), s.trim().is_empty());
    }
    assert_eq!(to_text(&strip_chars(&chars("\"\"a\"b\"\""), Edge::Quote)), "a\"b");
    assert_eq!(to_text(&strip_back_chars(&chars("slack.exe\0\0"), Edge::Nul)), "slack.exe");
    assert_eq!(to_text(&strip_front_chars(&chars("：: -。、\n本文-"), Edge::Lead)), "本文-");
}

#[test]
fn lines_of_text() {
    for s in ["", "\n", "a", "a\n", "a\r\nb", "a\rb\n\nc", "x\r", "\r\n\r\n", "a\n\r"] {
        let got: Vec<String> = line_list(&chars(s)).iter().map(to_text).collect();
        let want: Vec<String> = s.lines().map(String::from).collect();
        assert_eq!(got, want, "{:?}", s);
    }
}

#[test]
fn joining_and_shortening() {
    let parts: Vec<String> = vec!["a".into(), "b".into(), "c".into()];
    assert_eq!(joined(&parts, "--"), "a--b--c");
    assert_eq!(joined(&Vec::new(), "--"), "");
    assert_eq!(truncate("  a \n b\u{3000}c  ", 10), "a b c");
    assert_eq!(truncate("abcdef", 3), "abc");
    assert_eq!(truncate("日本語です", 2), "日本");
    assert_eq!(truncate("abc", 3), "abc");
    assert_eq!(truncate("abc", 0), "");
}

#[test]
fn shortened_text_fits() {
    for max in 0..12 {
        assert!(truncate("one two three 四五六", max).chars().count() <= max);
    }
}

#[test]
fn flat_text_is_one_line() {
    assert_eq!(flattened("a\nb\r\nc\td", true), "a b  c d");
    assert_eq!(flattened("a\nb\r\nc\td", false), "a b  c\td");
    let once = flattened("x\n\ty", true);
    assert_eq!(flattened(&once, true), once);
    assert!(!once.contains('\n'));
}

#[test]
fn numbers_as_text() {
    for n in [0u64, 7, 10, 99, 100, 12345, u64::MAX] {
        assert_eq!(decimal_text(n), n.to_string());
        assert_eq!(parse_number(&chars(&n.to_string())), Some(n));
    }
    for s in ["", "+", "-1", "+5", "007", "12a", " 1", "18446744073709551616", "１"] {
        assert_eq!(parse_number(&chars(s)), s.parse::<u64>().ok(), "{:?}", s);
    }
    for n in [0u64, 5, 9, 10, 59, 99, 100] {
        assert_eq!(two_digit_text(n), format!("{:02}", n));
    }
    assert_eq!(pad_right("1h05m", 7), "1h05m  ");
    assert_eq!(pad_right("123h05m", 7), "123h05m");
    assert_eq!(pad_right("1234h05m", 7), "1234h05m");
}

#[test]
fn hours_and_minutes() {
    assert_eq!(hours_minutes_text(0), "0h00m");
    assert_eq!(hours_minutes_text(59), "0h00m");
    assert_eq!(hours_minutes_text(3725), "1h02m");
    assert_eq!(hours_minutes_text(36000 + 59 * 60 + 59), "10h59m");
}

#[test]
fn order_of_texts() {
    let list = ["", "a", "aa", "ab", "b", "日", "本", "𠮷"];
    for a in list {
        for b in list {
            assert_eq!(is_before(a, b), a < b, "{} {}", a, b);
        }
    }
}

#[test]
fn sets_of_texts() {
    let mut s = TextSet::new();
    for t in ["b", "a", "c", "a", "b"] {
        s.insert(t.to_string());
    }
    let mut other = TextSet::new();
    other.insert("0".to_string());
    other.insert("c".to_string());
    s.extend(&other);
    assert_eq!(s.into_list(), vec!["0", "a", "b", "c"]);
}

#[test]
fn shortened_text_is_one_line() {
    let s = truncate("a\r\nb\u{85}c\u{2028}d\u{3000}\te", 100);
    assert_eq!(s, "a b c d e");
    assert!(s.chars().all(|c| !c.is_whitespace() || c == ' '));
}

#[test]
fn shortening_again() {
    let s = "  one \n two\u{3000}three  four";
    for n in 0..25 {
        let r = truncate(s, n);
        assert_eq!(truncate(&r, n), r.trim_end());
        assert_eq!(truncate("one two three four\t", n), r);
        for m in 0..n {
            let first: String = r.chars().take(m).collect();
            assert_eq!(truncate(s, m), first);
        }
    }
    assert_eq!(truncate(s, 4), "one ");
}

#[test]
fn parts_of_texts() {
    assert_eq!(up_to_char(&chars("a/b/c"), '/'), chars("a"));
    assert_eq!(up_to_char(&chars("abc"), '/'), chars("abc"));
    assert_eq!(behind_last_char(&chars("a/b/c"), '/'), chars("c"));
    assert_eq!(behind_last_char(&chars("abc/"), '/'), chars(""));
    assert_eq!(behind_last_char(&chars("abc"), '/'), chars("abc"));
}

#[test]
fn shortened_text_is_tidy() {
    for n in 0..20 {
        let r = truncate(" \u{3000}one \t two\n\nthree ", n);
        assert!(!r.starts_with(' ') && !r.contains("  "));
    }
}
