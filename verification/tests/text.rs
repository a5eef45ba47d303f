use minigrep_pack::find::contains;
use minigrep_pack::lines::split_first_line;
use minigrep_pack::trim::trim;

fn lines(text: &str) -> Vec<&str> {
    let mut found = Vec::new();
    let mut rest = text;
    while let Some((line, tail)) = split_first_line(rest) {
        found.push(line);
        rest = tail;
    }
    assert!(rest.is_empty());
    found
}

#[test]
fn empty_needle_occurs_everywhere() {
    assert!(contains("", ""));
    assert!(contains("abc", ""));
}

#[test]
fn needle_is_found_at_every_place() {
    assert!(contains("abc", "a"));
    assert!(contains("abc", "b"));
    assert!(contains("abc", "c"));
    assert!(contains("abc", "ab"));
    assert!(contains("abc", "bc"));
    assert!(contains("abc", "abc"));
    assert!(!contains("abc", "ac"));
    assert!(!contains("abc", "abcd"));
    assert!(!contains("", "a"));
    assert!(contains("aab", "ab"));
    assert!(!contains("abab", "abb"));
}

#[test]
fn needle_is_matched_by_whole_characters() {
    assert!(contains("caf\u{e9}", "\u{e9}"));
    assert!(!contains("caf\u{e9}", "\u{e8}"));
    assert!(!contains("\u{65e5}", "\u{672c}"));
    assert!(contains("a\u{1f600}b", "\u{1f600}b"));
}

#[test]
fn contains_agrees_with_the_standard_library() {
    let words = ["", "a", "ab", "ba", "aba", "abab", "b\u{e9}b", "\u{e9}", "\u{e9}b", " ", "a b"];
    for hay in words {
        for needle in words {
            assert_eq!(contains(hay, needle), hay.contains(needle), "{:?} in {:?}", needle, hay);
        }
    }
}

#[test]
fn trim_removes_whitespace_at_both_ends_only() {
    assert_eq!(trim("  a b  "), "a b");
    assert_eq!(trim("a b"), "a b");
    assert_eq!(trim("\t\r\n a"), "a");
    assert_eq!(trim("a \u{b}\u{c}"), "a");
    assert_eq!(trim(""), "");
    assert_eq!(trim("   "), "");
    assert_eq!(trim("\u{3000}\u{a0}x\u{2009}\u{85}"), "x");
    assert_eq!(trim("\u{200b}x\u{200b}"), "\u{200b}x\u{200b}");
    assert_eq!(trim(" \u{e9} "), "\u{e9}");
    assert_eq!(trim(" \u{1f600}\u{1f600} "), "\u{1f600}\u{1f600}");
}

#[test]
fn trim_knows_whitespace_as_the_standard_library_does() {
    let mut buffer = String::new();
    for c in '\0'..=char::MAX {
        buffer.clear();
        buffer.push(c);
        assert_eq!(trim(&buffer).is_empty(), c.is_whitespace(), "{:?}", c);
        if c > '\u{3100}' && c < '\u{10ff00}' {
            continue;
        }
        buffer.clear();
        buffer.push('a');
        buffer.push(c);
        buffer.push(' ');
        buffer.push(c);
        assert_eq!(trim(&buffer), buffer.trim(), "{:?}", c);
        buffer.insert(0, c);
        buffer.push('b');
        assert_eq!(trim(&buffer), buffer.trim(), "{:?}", c);
    }
}

#[test]
fn first_line_ends_at_the_first_line_feed() {
    assert_eq!(split_first_line(""), None);
    assert_eq!(split_first_line("a"), Some(("a", "")));
    assert_eq!(split_first_line("a\n"), Some(("a", "")));
    assert_eq!(split_first_line("a\nb"), Some(("a", "b")));
    assert_eq!(split_first_line("a\r\nb\n"), Some(("a", "b\n")));
    assert_eq!(split_first_line("\nb"), Some(("", "b")));
    assert_eq!(split_first_line("\r\n"), Some(("", "")));
    assert_eq!(split_first_line("a\r"), Some(("a\r", "")));
    assert_eq!(split_first_line("a\r\r\n"), Some(("a\r", "")));
    assert_eq!(split_first_line("\u{e9}\r\n\u{e9}"), Some(("\u{e9}", "\u{e9}")));
}

#[test]
fn lines_agree_with_the_standard_library() {
    let texts = [
        "",
        "\n",
        "\r",
        "\r\n",
        "\n\n",
        "a",
        "a\n",
        "a\r",
        "a\r\n",
        "a\n\r",
        "a\rb\nc",
        "foo\nbar\n\r\nbaz\r",
        "foo\r\nbar\n\nbaz\n",
        "\u{e9}\n\u{65e5}\u{672c}\r\n\u{1f600}",
        "\u{2028}\n\u{85}\n",
    ];
    for text in texts {
        let expected: Vec<&str> = text.lines().collect();
        assert_eq!(lines(text), expected, "{:?}", text);
    }
}
