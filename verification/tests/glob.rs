use libabbs::apml::ast::{GlobPart, GlobPattern};

fn pattern(parts: Vec<GlobPart>) -> GlobPattern {
    GlobPattern(parts)
}

fn text(s: &str) -> GlobPart {
    GlobPart::String(s.to_string())
}

fn class(s: &str) -> GlobPart {
    GlobPart::Range(s.to_string())
}

#[test]
fn glob_empty_pattern_matches_empty_text_only() {
    let p = pattern(vec![]);
    assert!(p.matches(""));
    assert!(!p.matches("a"));
    assert_eq!(p.shortest_prefix("abc"), Some(0));
    assert_eq!(p.longest_prefix("abc"), Some(0));
    assert_eq!(p.find("abc", 1), Some((1, 1)));
}

#[test]
fn glob_literal_and_escape() {
    let p = pattern(vec![text("ab"), GlobPart::Escaped('*'), text("c")]);
    assert!(p.matches("ab*c"));
    assert!(!p.matches("abxc"));
    assert!(!p.matches("ab*"));
    assert!(!p.matches("ab*cd"));
}

#[test]
fn glob_any_char_and_any_string() {
    let p = pattern(vec![text("a"), GlobPart::AnyChar, GlobPart::AnyString, text("z")]);
    assert!(p.matches("abz"));
    assert!(p.matches("abcdz"));
    assert!(!p.matches("az"));
    assert!(!p.matches("abzy"));
    let star = pattern(vec![GlobPart::AnyString]);
    assert!(star.matches(""));
    assert!(star.matches("anything"));
}

#[test]
fn glob_classes() {
    let digits = pattern(vec![class("0-9")]);
    assert!(digits.matches("0"));
    assert!(digits.matches("5"));
    assert!(digits.matches("9"));
    assert!(!digits.matches("a"));
    assert!(!digits.matches("55"));
    let not_digits = pattern(vec![class("!0-9")]);
    assert!(not_digits.matches("a"));
    assert!(!not_digits.matches("5"));
    let caret = pattern(vec![class("^abc")]);
    assert!(caret.matches("d"));
    assert!(!caret.matches("b"));
    let mixed = pattern(vec![class("a-cx-")]);
    assert!(mixed.matches("b"));
    assert!(mixed.matches("x"));
    assert!(mixed.matches("-"));
    assert!(!mixed.matches("d"));
    let empty = pattern(vec![class("")]);
    assert!(!empty.matches("a"));
    assert!(!empty.matches(""));
}

#[test]
fn glob_shortest_and_longest_prefix() {
    let p = pattern(vec![GlobPart::AnyString, text("/")]);
    assert_eq!(p.shortest_prefix("a/b/c"), Some(2));
    assert_eq!(p.longest_prefix("a/b/c"), Some(4));
    assert_eq!(p.shortest_prefix("abc"), None);
    assert_eq!(p.longest_prefix("abc"), None);
}

#[test]
fn glob_shortest_and_longest_suffix() {
    let p = pattern(vec![text("."), GlobPart::AnyString]);
    assert_eq!(p.shortest_suffix("a.tar.gz"), Some(3));
    assert_eq!(p.longest_suffix("a.tar.gz"), Some(7));
    assert_eq!(p.shortest_suffix("abc"), None);
    assert_eq!(p.longest_suffix("abc"), None);
    let any = pattern(vec![GlobPart::AnyString]);
    assert_eq!(any.shortest_suffix("abc"), Some(0));
    assert_eq!(any.longest_suffix("abc"), Some(3));
}

#[test]
fn glob_find_is_leftmost_then_longest() {
    let p = pattern(vec![text("b"), GlobPart::AnyString, text("d")]);
    assert_eq!(p.find("abcdbcd", 0), Some((1, 7)));
    assert_eq!(p.find("abcdbcd", 2), Some((4, 7)));
    assert_eq!(p.find("abcdbcd", 5), None);
    assert_eq!(p.find("abcdbcd", 99), None);
    let q = pattern(vec![GlobPart::AnyChar]);
    assert_eq!(q.find("xyz", 0), Some((0, 1)));
    assert_eq!(q.find("xyz", 3), None);
}

#[test]
fn glob_counts_characters_not_bytes() {
    let p = pattern(vec![GlobPart::AnyChar, text("b")]);
    assert!(p.matches("\u{e9}b"));
    assert_eq!(p.find("a\u{e9}bc", 0), Some((1, 3)));
}

#[test]
fn glob_to_string() {
    let p = pattern(vec![
        text("a"),
        GlobPart::Escaped('?'),
        GlobPart::AnyString,
        GlobPart::AnyChar,
        class("0-9"),
    ]);
    assert_eq!(p.to_string(), "a\\?*?[0-9]");
    assert_eq!(GlobPart::AnyString.to_string(), "*");
}

#[test]
fn glob_find_all_goes_from_left_to_right() {
    let a = pattern(vec![text("a")]);
    assert_eq!(a.find_all("banana"), vec![(1, 2), (3, 4), (5, 6)]);
    assert_eq!(a.find_all("xyz"), vec![]);
    let an = pattern(vec![text("an"), GlobPart::AnyString, text("a")]);
    assert_eq!(an.find_all("banana ana"), vec![(1, 10)]);
    let aa = pattern(vec![text("aa")]);
    assert_eq!(aa.find_all("aaaaa"), vec![(0, 2), (2, 4)]);
}

#[test]
fn glob_find_all_steps_over_empty_matches() {
    let nothing = pattern(vec![]);
    assert_eq!(nothing.find_all("ab"), vec![(0, 0), (1, 1), (2, 2)]);
    let star = pattern(vec![GlobPart::AnyString]);
    assert_eq!(star.find_all("ab"), vec![(0, 2), (2, 2)]);
    assert_eq!(star.find_all(""), vec![(0, 0)]);
}
