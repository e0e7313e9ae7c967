use rusty_jenkins::output::{begin, say, warn, Line, Stream, Style};
use rusty_jenkins::text::{
    contains, ends_with, head_line, join, pad, parse_u64, replace_char, same_text, show_u64, split, split_once,
    starts_with, text_after_last, text_before, to_lower, trim, trim_end_char, trim_end_text, trim_start_char,
    trim_start_text,
};

#[test]
fn numbers_are_written_and_read_back() {
    for n in [0, 7, 10, 99, 1_000_000_007, u64::MAX - 1, u64::MAX] {
        assert_eq!(show_u64(n), n.to_string());
        assert_eq!(parse_u64(&show_u64(n)), Some(n));
    }
}

#[test]
fn numbers_are_read_as_std_reads_them() {
    for s in [
        "", "+", "-", "+1", "-1", "007", "18446744073709551615", "18446744073709551616", "99999999999999999999999",
        " 1", "1 ", "1.0", "0x1", "١", "++1", "+18446744073709551615",
    ] {
        assert_eq!(parse_u64(s), s.parse::<u64>().ok(), "{s}");
    }
}

#[test]
fn trimming_agrees_with_std() {
    for s in ["", " ", "a", " a ", "\t\n\r\u{b}\u{c}x y\u{85}\u{a0}", "\u{2003}é\u{3000}", "\u{200b}z\u{feff}", "\u{1680}\u{2028}q\u{202f}\u{205f}"] {
        assert_eq!(trim(s), s.trim(), "{s:?}");
    }
    for c in (0..0x3100u32).filter_map(char::from_u32) {
        let s = format!("{c}a{c}");
        assert_eq!(trim(&s), s.trim(), "{c:?}");
    }
}

#[test]
fn repeated_ends_are_trimmed() {
    assert_eq!(trim_end_char("http://a///", '/'), "http://a");
    assert_eq!(trim_end_char("///", '/'), "");
    assert_eq!(trim_start_char("//a/", '/'), "a/");
    assert_eq!(trim_start_text("ababc", "ab"), "c");
    assert_eq!(trim_start_text("abc", ""), "abc");
    assert_eq!(trim_end_text("blue_anime_anime", "_anime"), "blue");
    assert_eq!(trim_end_text("_anime", "_anime"), "");
    assert_eq!(trim_end_text("abc", ""), "abc");
}

#[test]
fn splitting_agrees_with_std() {
    for s in ["", "/", "a", "a/b", "/a//b/", "é/ü"] {
        let expected: Vec<&str> = s.split('/').collect();
        assert_eq!(split(s, '/'), expected, "{s}");
        assert_eq!(text_before(s, '/'), expected[0]);
        assert_eq!(text_after_last(s, '/'), s.rsplit('/').next().unwrap());
        assert_eq!(join(&split(s, '/'), "/"), s);
    }
    assert_eq!(split_once("a=b=c", '='), Some(("a".to_string(), "b=c".to_string())));
    assert_eq!(split_once("=", '='), Some((String::new(), String::new())));
    assert_eq!(split_once("abc", '='), None);
    assert_eq!(join(&vec![], ", "), "");
}

#[test]
fn searching_agrees_with_std() {
    for (s, n) in [("abcabd", "abd"), ("abc", ""), ("", ""), ("", "a"), ("aaa", "aaaa"), ("xFolderx", "Folder")] {
        assert_eq!(contains(s, n), s.contains(n));
        assert_eq!(starts_with(s, n), s.starts_with(n));
        assert_eq!(ends_with(s, n), s.ends_with(n));
    }
    assert!(same_text("é", "é") && !same_text("a", "b"));
}

#[test]
fn first_lines_agree_with_std() {
    for s in ["", "\n", "a", "a\nb", "a\r\nb", "a\r", "\r\nb", "a\r\r\n", "é\n"] {
        assert_eq!(head_line(s).as_deref(), s.lines().next(), "{s:?}");
    }
}

#[test]
fn characters_are_replaced_and_padded() {
    assert_eq!(replace_char("a/b/c", '/', "__"), "a__b__c");
    assert_eq!(replace_char("a", '/', "__"), "a");
    assert_eq!(to_lower("ABCxyzÄ"), "abcxyzÄ");
    assert_eq!(pad("ab", 5), format!("{:<5}", "ab"));
    assert_eq!(pad("äö", 4), format!("{:<4}", "äö"));
    assert_eq!(pad("abcdef", 3), "abcdef");
}

#[test]
fn lines_have_streams_and_styles() {
    let line = say("hello");
    assert_eq!((line.stream, line.closed, line.text().as_str()), (Stream::Output, true, "hello"));
    assert_eq!(warn("x").stream, Stream::Error);
    assert!(!begin("x").closed);
    let mut line = Line::new(Stream::Output);
    line.add(Style::Cyan, "a");
    line.add(Style::Dimmed, "b");
    assert_eq!(line.text(), "ab");
    assert_eq!(line.spans[1].style, Style::Dimmed);
}
