use magicrate::lines::{join_texts, split_lines, trim_text};
use magicrate::text::{
    decimal_text, ends_with, find, parse_i32, parse_usize, starts_with, strip_prefix,
    strip_suffix, text_eq, text_le_exec,
};

#[test]
fn parses_like_std() {
    for s in ["0", "+7", "-7", "12a", "", "+", "-", "2147483647", "2147483648", "-2147483648", "-2147483649", "007", " 1", "١"] {
        assert_eq!(parse_i32(s), s.parse::<i32>().ok(), "{s}");
    }
    for s in ["0", "+7", "-0", "18446744073709551615", "18446744073709551616", "", "+", "9x"] {
        assert_eq!(parse_usize(s), s.parse::<usize>().ok(), "{s}");
    }
}

#[test]
fn decimal_text_matches_format() {
    for n in [0usize, 7, 10, 99, 100, 123456789, usize::MAX] {
        assert_eq!(decimal_text(n), format!("{n}"));
        assert_eq!(parse_usize(&decimal_text(n)), Some(n));
    }
}

#[test]
fn splits_lines_like_std() {
    for s in ["", "a", "a\n", "a\r\nb", "a\rb\n", "\n\n", "x\r", "a\n\r\nb\r\n"] {
        let expected: Vec<String> = s.lines().map(|l| l.to_string()).collect();
        assert_eq!(split_lines(s), expected, "{s:?}");
    }
}

#[test]
fn trims_like_std() {
    for s in ["", "  ", " a b ", "\u{3000}x\u{2029}", "\ta\n", "a"] {
        assert_eq!(trim_text(s), s.trim());
    }
}

#[test]
fn joins_with_separator() {
    let parts = vec!["a".to_string(), "".to_string(), "c".to_string()];
    assert_eq!(join_texts(&parts, "\r\n"), "a\r\n\r\nc");
    assert_eq!(join_texts(&Vec::new(), ","), "");
}

#[test]
fn prefix_suffix_and_search() {
    assert!(starts_with("Room_1", "Room_"));
    assert!(!starts_with("Roo", "Room_"));
    assert!(ends_with("a.scn", ".scn"));
    assert!(!ends_with("a.tscn", ".scn."));
    assert_eq!(strip_prefix("Room_1_2", "Room_"), Some("1_2"));
    assert_eq!(strip_suffix("a.scn", ".scn"), Some("a"));
    assert_eq!(strip_suffix("a.scn", ".tscn"), None);
    assert_eq!(find("a_b_c", '_'), Some(1));
    assert_eq!(find("abc", '_'), None);
    assert!(text_eq("abc", "abc"));
    assert!(!text_eq("abc", "abd"));
}

#[test]
fn text_order_matches_str_cmp() {
    let words = ["", "a", "ab", "b", "Room_0_1.scn", "Room_0_1.tscn", "é", "z"];
    for a in words {
        for b in words {
            assert_eq!(text_le_exec(a, b), a <= b, "{a} {b}");
        }
    }
}
