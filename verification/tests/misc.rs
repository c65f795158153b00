use render_core::painting::color::Color;
use render_core::painting::command::DisplayCommand;
use render_core::painting::primitive::{RRect, Rect};
use render_core::render::version;
use render_core::text::{from_chars, same_text, to_chars};
use render_core::url::encode::{PercentEncodeSet, URLPercentEncode};
use render_core::url::host_parser::HostParser;
use render_core::url::helper::{
    is_double_dot_path_segment, is_single_dot_path_segment, is_start_with_windows_drive_letter,
    is_window_drive_letter, trimmed_bounds,
};

fn chars(s: &str) -> Vec<char> {
    s.chars().collect()
}

#[test]
fn version_is_stated() {
    assert_eq!(version(), "0.1.0");
}

#[test]
fn text_conversions() {
    assert_eq!(to_chars("a\u{e9}\u{20ac}"), vec!['a', '\u{e9}', '\u{20ac}']);
    assert_eq!(from_chars(&vec!['a', '\u{e9}']), "a\u{e9}");
    assert!(same_text("abc", "abc"));
    assert!(!same_text("abc", "abd"));
    assert!(!same_text("abc", "ab"));
    assert!(same_text("", ""));
}

#[test]
fn percent_encoding() {
    assert_eq!(URLPercentEncode::encode(b"a b", PercentEncodeSet::C0Control, false), "a b");
    assert_eq!(URLPercentEncode::encode(b"a b", PercentEncodeSet::Fragment, false), "a%20b");
    assert_eq!(URLPercentEncode::encode(b"a b", PercentEncodeSet::Fragment, true), "a+b");
    assert_eq!(URLPercentEncode::encode(b"\x00\x1f\x7f\xff", PercentEncodeSet::C0Control, false), "%00%1F%7F%FF");
    assert_eq!(URLPercentEncode::encode(b"~", PercentEncodeSet::Userinfo, false), "~");
    assert_eq!(URLPercentEncode::encode(b"a#b?c", PercentEncodeSet::Fragment, false), "a#b?c");
    assert_eq!(URLPercentEncode::encode(b"a#b?c", PercentEncodeSet::Query, false), "a%23b?c");
    assert_eq!(URLPercentEncode::encode(b"a'b", PercentEncodeSet::Query, false), "a'b");
    assert_eq!(URLPercentEncode::encode(b"a'b", PercentEncodeSet::SpecialQuery, false), "a%27b");
    assert_eq!(URLPercentEncode::encode(b"?`{}^", PercentEncodeSet::Path, false), "%3F%60%7B%7D%5E");
    assert_eq!(URLPercentEncode::encode(b"/:;=@[\\]|", PercentEncodeSet::Path, false), "/:;=@[\\]|");
    assert_eq!(
        URLPercentEncode::encode(b"/:;=@[\\]|", PercentEncodeSet::Userinfo, false),
        "%2F%3A%3B%3D%40%5B%5C%5D%7C"
    );
    assert_eq!(URLPercentEncode::encode(b"", PercentEncodeSet::Path, false), "");
    assert_eq!(URLPercentEncode::encode_char('\u{e9}', PercentEncodeSet::Path), "%C3%A9");
    assert_eq!(URLPercentEncode::encode_chars(&chars("a \u{20ac}"), PercentEncodeSet::Query), "a%20%E2%82%AC");
    assert!(PercentEncodeSet::Path.contains(b'?'));
    assert!(!PercentEncodeSet::Query.contains(b'?'));
}

#[test]
fn hosts() {
    assert_eq!(HostParser::parse("google.com"), Some("google.com".to_string()));
    assert_eq!(HostParser::parse(""), Some(String::new()));
    assert_eq!(HostParser::parse("[::1]"), Some("[::1]".to_string()));
    assert_eq!(HostParser::parse("[::1"), None);
    assert_eq!(HostParser::parse("["), None);
    assert_eq!(HostParser::parse("a b"), None);
    assert_eq!(HostParser::parse("a:b"), None);
    assert_eq!(HostParser::parse("a]"), None);
    assert_eq!(HostParser::parse("caf\u{e9}"), Some("caf%C3%A9".to_string()));
    assert_eq!(HostParser::parse("a%b"), Some("a%b".to_string()));
    assert_eq!(HostParser::parse("a\u{7f}"), Some("a%7F".to_string()));
}

#[test]
fn path_segment_predicates() {
    for s in [".", "%2e", "%2E"] {
        assert!(is_single_dot_path_segment(&chars(s)));
        assert!(!is_double_dot_path_segment(&chars(s)));
    }
    for s in ["..", ".%2e", ".%2E", "%2e.", "%2E.", "%2e%2e", "%2E%2e", "%2e%2E"] {
        assert!(is_double_dot_path_segment(&chars(s)));
        assert!(!is_single_dot_path_segment(&chars(s)));
    }
    for s in ["", "a", "...", "%2f", ".%2", "%2e%2", "%2e%2e."] {
        assert!(!is_single_dot_path_segment(&chars(s)));
        assert!(!is_double_dot_path_segment(&chars(s)));
    }
}

#[test]
fn drive_letters() {
    assert!(is_window_drive_letter(&chars("C:")));
    assert!(is_window_drive_letter(&chars("c|")));
    assert!(!is_window_drive_letter(&chars("C:/")));
    assert!(!is_window_drive_letter(&chars("1:")));
    assert!(!is_window_drive_letter(&chars("C")));
    assert!(is_start_with_windows_drive_letter(&chars("xxC:"), 2));
    assert!(is_start_with_windows_drive_letter(&chars("C:/a"), 0));
    assert!(is_start_with_windows_drive_letter(&chars("C|\\a"), 0));
    assert!(is_start_with_windows_drive_letter(&chars("C:?a"), 0));
    assert!(is_start_with_windows_drive_letter(&chars("C:#a"), 0));
    assert!(!is_start_with_windows_drive_letter(&chars("C:a"), 0));
    assert!(!is_start_with_windows_drive_letter(&chars("C:/a"), 1));
    assert!(!is_start_with_windows_drive_letter(&chars("C"), 0));
    assert!(!is_start_with_windows_drive_letter(&chars("C:"), 2));
}

#[test]
fn trimming() {
    assert_eq!(trimmed_bounds(&chars("  a b \n")), (2, 5));
    assert_eq!(trimmed_bounds(&chars("a")), (0, 1));
    assert_eq!(trimmed_bounds(&chars(" \t ")), (3, 3));
    assert_eq!(trimmed_bounds(&chars("")), (0, 0));
}

#[test]
fn display_commands() {
    let rect = Rect::new(-5, 10, 20, 30);
    let red = Color::rgb(255, 0, 0);
    let fill = DisplayCommand::FillRect(rect, red);
    let round = DisplayCommand::FillRRect(RRect::uniform(rect, 4), Color::new(0, 0, 0, 128));
    let stroke = DisplayCommand::StrokeRect(rect, red);

    assert_eq!(fill.color(), red);
    assert_eq!(fill.bounds(), rect);
    assert_eq!(round.bounds(), rect);
    assert_eq!(round.color().a, 128);
    assert_eq!(stroke.bounds(), rect);
    assert_ne!(fill, stroke);
    assert!(rect.contains(-5, 10));
    assert!(rect.contains(14, 39));
    assert!(!rect.contains(15, 10));
    assert!(!rect.contains(-5, 40));
    assert!(!rect.contains(-6, 10));
    assert!(Rect::new(i32::MAX - 1, 0, u32::MAX, 1).contains(i32::MAX, 0));
}
