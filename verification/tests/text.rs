use cargo_tribute::number::decimal;
use cargo_tribute::scan::{has_prefix, has_text, join, lines, parts, replace, trim, words};
use cargo_tribute::sets::{add_text, sort_texts, Table};
use cargo_tribute::text::{before, cat5, same};

fn names(list: &[&str]) -> Vec<String> {
    list.iter().map(|s| s.to_string()).collect()
}

#[test]
fn texts_are_split_as_std_does() {
    for s in ["", "a", "a\n", "\n", "a\r\nb", "a\r\n", "a\rb\n\n", "\r\n\r", "x\u{2028}y\n"] {
        let want: Vec<&str> = s.lines().collect();
        assert_eq!(lines(s), want, "{s:?}");
    }
    for s in ["", "  ", "a b", " a\t\u{a0}b\u{3000}", "\u{200b}x", "\u{85}y\u{2029}"] {
        let want: Vec<&str> = s.split_whitespace().collect();
        assert_eq!(words(s), want, "{s:?}");
        assert_eq!(trim(s), s.trim(), "{s:?}");
    }
    for s in ["", "/", "a/b", "//a/"] {
        let want: Vec<&str> = s.split('/').collect();
        assert_eq!(parts(s, '/'), want, "{s:?}");
    }
}

#[test]
fn texts_are_searched_as_std_does() {
    for (s, p) in [("abc", "bc"), ("abc", ""), ("", "a"), ("aab", "ab"), ("ab", "abc")] {
        assert_eq!(has_text(s, p), s.contains(p));
        assert_eq!(has_prefix(s, p), s.starts_with(p));
    }
    for (s, p, q) in [("aaa", "aa", "b"), ("a(c)(c)", "(c)", " "), ("\r\n\r\r\n", "\r\n", "\n"), ("x", "y", "z")] {
        assert_eq!(replace(s, p, q), s.replace(p, q));
    }
    assert_eq!(join(&names(&["a", "b", "c"]), ", "), "a, b, c");
    assert_eq!(join(&names(&[]), ", "), "");
}

#[test]
fn texts_are_ordered_as_std_does() {
    for (a, b) in [("", "a"), ("a", "ab"), ("Z", "a"), ("é", "z"), ("\u{ffff}", "\u{10000}"), ("a", "a")] {
        assert_eq!(before(a, b), a < b);
        assert_eq!(before(b, a), b < a);
        assert_eq!(same(a, b), a == b);
    }
    assert_eq!(sort_texts(names(&["b", "a", "b", "A"])), names(&["A", "a", "b", "b"]));
    assert_eq!(cat5("a", "b", "", "c", "d"), "abcd");
}

#[test]
fn sets_hold_each_text_once() {
    let mut s = Vec::new();
    for t in ["b", "a", "b", "c", "a"] {
        add_text(&mut s, t);
    }
    assert_eq!(s, names(&["a", "b", "c"]));
    let mut t: Table<String> = Table::new();
    t.put("k", "1".to_string());
    t.put("a", "2".to_string());
    t.put("k", "3".to_string());
    assert_eq!(t.rows, vec![("a".to_string(), "2".to_string()), ("k".to_string(), "3".to_string())]);
    assert_eq!(t.get("k").map(String::as_str), Some("3"));
    assert!(t.get("x").is_none() && t.has_key("a"));
}

#[test]
fn numbers_are_written_out() {
    for n in [0u128, 7, 10, 99, 100, 12345678901234567890] {
        assert_eq!(decimal(n), n.to_string());
    }
}
