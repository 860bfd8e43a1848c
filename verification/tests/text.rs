use ropener::text::{chars_of, find_in, find_last_char, is_space_char, starts_with, trim};

fn chars(s: &str) -> Vec<char> {
    s.chars().collect()
}

#[test]
fn chars_of_gives_each_character_once() {
    assert_eq!(chars_of("a b"), vec!['a', ' ', 'b']);
    assert_eq!(chars_of("é€"), vec!['é', '€']);
    assert_eq!(chars_of(""), Vec::<char>::new());
}

#[test]
fn white_space_is_what_the_standard_library_calls_white_space() {
    let mut code: u32 = 0;
    while code <= 0x10ffff {
        if let Some(c) = char::from_u32(code) {
            assert_eq!(is_space_char(c), c.is_whitespace(), "U+{:04X}", code);
        }
        code += 1;
    }
}

#[test]
fn trim_removes_white_space_at_both_ends_only() {
    assert_eq!(trim("  text \n"), "text");
    assert_eq!(trim("\ta b\r\n"), "a b");
    assert_eq!(trim("plain"), "plain");
    assert_eq!(trim(" \t\n "), "");
    assert_eq!(trim(""), "");
    assert_eq!(trim("\u{3000}x\u{a0}"), "x");
}

#[test]
fn trim_agrees_with_the_standard_library() {
    for s in ["", " ", "a", " a", "a ", " a ", "\n\ta  b\u{2003}", "  é  ", "\u{85}x\u{1680}"] {
        assert_eq!(trim(s), s.trim());
    }
}

#[test]
fn find_in_gives_the_first_position() {
    assert_eq!(find_in(&chars("a: b: c"), &chars(": ")), Some(1));
    assert_eq!(find_in(&chars("a:b"), &chars(": ")), None);
    assert_eq!(find_in(&chars("é: x"), &chars(": ")), Some(1));
    assert_eq!(find_in(&chars("abc"), &chars("")), Some(0));
    assert_eq!(find_in(&chars(""), &chars("")), Some(0));
    assert_eq!(find_in(&chars("a"), &chars("ab")), None);
    assert_eq!(find_in(&chars("aab"), &chars("ab")), Some(1));
    assert_eq!(find_in(&chars("xx:"), &chars(": ")), None);
}

#[test]
fn find_last_char_gives_the_last_position() {
    assert_eq!(find_last_char(&chars("/a/b/c"), '/'), Some(4));
    assert_eq!(find_last_char(&chars("/"), '/'), Some(0));
    assert_eq!(find_last_char(&chars("abc"), '/'), None);
    assert_eq!(find_last_char(&chars(""), '/'), None);
}

#[test]
fn starts_with_tests_the_prefix() {
    assert!(starts_with("file:///tmp", "file://"));
    assert!(!starts_with("file:/tmp", "file://"));
    assert!(!starts_with("file", "file://"));
    assert!(starts_with("anything", ""));
    assert!(!starts_with(" file://x", "file://"));
}
