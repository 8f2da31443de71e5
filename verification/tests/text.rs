use wifiscanner::text::{
    chars_of, find, is_space_char, remove_prefix, split_lines, take_before, trim,
};

fn chars(s: &str) -> Vec<char> {
    s.chars().collect()
}

#[test]
fn chars_of_gives_every_character() {
    assert_eq!(chars_of(""), Vec::<char>::new());
    assert_eq!(chars_of("a\u{e9}\u{4e2d}\u{1f600}"), vec!['a', '\u{e9}', '\u{4e2d}', '\u{1f600}']);
}

#[test]
fn whitespace_is_what_std_calls_whitespace() {
    let mut code: u32 = 0;
    while code <= 0x10FFFF {
        if let Some(c) = char::from_u32(code) {
            assert_eq!(is_space_char(c), c.is_whitespace(), "U+{:04X}", code);
        }
        code += 1;
    }
}

#[test]
fn trim_removes_surrounding_whitespace() {
    assert_eq!(trim("  a b \t\r\n"), "a b");
    assert_eq!(trim("a"), "a");
    assert_eq!(trim(""), "");
    assert_eq!(trim(" \t "), "");
    assert_eq!(trim("\u{a0}\u{3000}x\u{2003}y\u{2028}"), "x\u{2003}y");
    assert_eq!(trim("\u{200b}x\u{200b}"), "\u{200b}x\u{200b}");
}

#[test]
fn trim_agrees_with_std() {
    for s in ["", " ", "a", " a", "a ", "  a  b  ", "\n\u{e9} \u{85}", "\u{1680}\u{180e}x"] {
        assert_eq!(trim(s), s.trim());
    }
}

#[test]
fn find_gives_the_leftmost_position() {
    assert_eq!(find(&chars("SSID BSSID RSSI"), &chars("SSID")), Some(0));
    assert_eq!(find(&chars("SSID BSSID RSSI"), &chars("BSSID")), Some(5));
    assert_eq!(find(&chars("SSID BSSID RSSI"), &chars("RSSI")), Some(11));
    assert_eq!(find(&chars("aaab"), &chars("ab")), Some(2));
    assert_eq!(find(&chars("abab"), &chars("ab")), Some(0));
    assert_eq!(find(&chars("ab"), &chars("ab")), Some(0));
}

#[test]
fn find_reports_absence() {
    assert_eq!(find(&chars("SSID BSSID"), &chars("RSSI")), None);
    assert_eq!(find(&chars("ab"), &chars("abc")), None);
    assert_eq!(find(&chars(""), &chars("a")), None);
    assert_eq!(find(&chars("HT"), &chars("ht")), None);
}

#[test]
fn find_of_nothing_is_at_the_start() {
    assert_eq!(find(&chars("abc"), &chars("")), Some(0));
    assert_eq!(find(&chars(""), &chars("")), Some(0));
}

#[test]
fn find_agrees_with_std_on_ascii() {
    let hay = "the cat sat on the mat at last";
    for needle in ["the", "at", "mat", "last", "t", " ", "dog", "lastly", ""] {
        assert_eq!(find(&chars(hay), &chars(needle)), hay.find(needle));
    }
}

#[test]
fn remove_prefix_takes_one_prefix() {
    assert_eq!(remove_prefix("abcabc", "abc"), "abc");
    assert_eq!(remove_prefix("abc", "abc"), "");
    assert_eq!(remove_prefix("ab", "abc"), "ab");
    assert_eq!(remove_prefix("xabc", "abc"), "xabc");
    assert_eq!(remove_prefix("abc", ""), "abc");
    assert_eq!(remove_prefix("\u{e9}t\u{e9}", "\u{e9}"), "t\u{e9}");
}

#[test]
fn take_before_stops_at_the_first_separator() {
    assert_eq!(take_before("a/b/c", '/'), "a");
    assert_eq!(take_before("abc", '/'), "abc");
    assert_eq!(take_before("/abc", '/'), "");
    assert_eq!(take_before("", '/'), "");
    assert_eq!(take_before("\u{e9}\u{e9}/x", '/'), "\u{e9}\u{e9}");
}

#[test]
fn split_lines_splits_at_line_feeds() {
    assert_eq!(split_lines("a\nb\nc"), vec!["a", "b", "c"]);
    assert_eq!(split_lines("a\nb\n"), vec!["a", "b"]);
    assert_eq!(split_lines("a\n\nb"), vec!["a", "", "b"]);
    assert_eq!(split_lines("\n"), vec![""]);
    assert_eq!(split_lines("\n\n"), vec!["", ""]);
    assert_eq!(split_lines("abc"), vec!["abc"]);
}

#[test]
fn split_lines_of_nothing_is_nothing() {
    assert_eq!(split_lines(""), Vec::<String>::new());
}

#[test]
fn split_lines_takes_carriage_return_with_the_line_feed() {
    assert_eq!(split_lines("a\r\nb\r\n"), vec!["a", "b"]);
    assert_eq!(split_lines("a\r\r\nb"), vec!["a\r", "b"]);
    assert_eq!(split_lines("a\rb\nc"), vec!["a\rb", "c"]);
    assert_eq!(split_lines("a\r"), vec!["a\r"]);
    assert_eq!(split_lines("\r\n"), vec![""]);
    assert_eq!(split_lines("\r"), vec!["\r"]);
}

#[test]
fn split_lines_agrees_with_std() {
    for s in [
        "",
        "\n",
        "\r\n",
        "a",
        "a\n",
        "a\r\n",
        "a\r",
        "a\n\r",
        "a\nb",
        "a\r\nb\r",
        "\n\na\n\n",
        "\u{e9}\n\u{4e2d}\r\n\u{1f600}",
    ] {
        let expected: Vec<String> = s.lines().map(|line| line.to_string()).collect();
        assert_eq!(split_lines(s), expected, "{:?}", s);
    }
}
