use tmux_gui::text::{
    chars_of, join_str, contains_str, decimal_string, is_blank, lines_of, parse_u32_chars, string_of,
    trim_newlines_str, trim_str,
};

fn lines(s: &str) -> Vec<String> {
    lines_of(s).iter().map(|l| string_of(l)).collect()
}

fn parse(s: &str) -> Option<u32> {
    parse_u32_chars(&chars_of(s))
}

#[test]
fn trim_drops_unicode_white_space_at_both_ends() {
    assert_eq!(trim_str("  a b \n"), "a b");
    assert_eq!(trim_str("\u{3000}x\u{a0}"), "x");
    assert_eq!(trim_str("   "), "");
    assert_eq!(trim_str(""), "");
    for s in ["\t x\u{2028}", " a\u{85}", "\u{1680}b c\u{205f}"] {
        assert_eq!(trim_str(s), s.trim());
    }
}

#[test]
fn trim_newlines_only_drops_line_feeds() {
    assert_eq!(trim_newlines_str("\n\nabc\n \n\n"), "abc\n ");
    assert_eq!(trim_newlines_str("\n"), "");
    assert_eq!(trim_newlines_str(" a "), " a ");
}

#[test]
fn blank_means_only_white_space() {
    assert!(is_blank(""));
    assert!(is_blank(" \t\n"));
    assert!(!is_blank(" a "));
}

#[test]
fn lines_match_str_lines() {
    for s in ["", "a", "a\n", "a\r\nb", "a\r", "\n\n", "x\r\n\r\ny\n", "a\rb\n"] {
        let expected: Vec<String> = s.lines().map(|l| l.to_string()).collect();
        assert_eq!(lines(s), expected, "lines of {s:?}");
    }
}

#[test]
fn parse_u32_matches_str_parse() {
    for s in ["0", "12", "+12", "-1", "+", "", "4294967295", "4294967296", "99999999999999", "1a", " 1", "007", "++1"] {
        assert_eq!(parse(s), s.parse::<u32>().ok(), "parsing {s:?}");
    }
}

#[test]
fn contains_finds_substrings() {
    assert!(contains_str("error: no server running on /tmp/tmux-1000/default", "no server running"));
    assert!(contains_str("abc", ""));
    assert!(!contains_str("ab", "abc"));
    assert!(!contains_str("No such fil", "No such file"));
}

#[test]
fn decimal_strings() {
    assert_eq!(decimal_string(0), "0");
    assert_eq!(decimal_string(7), "7");
    assert_eq!(decimal_string(1234), "1234");
    assert_eq!(decimal_string(u32::MAX as u128), "4294967295");
}

#[test]
fn concatenation() {
    assert_eq!(join_str("ab", "cd"), "abcd");
    assert_eq!(join_str("", "cd"), "cd");
}
