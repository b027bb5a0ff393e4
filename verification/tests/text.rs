use yapper::lines::{line_one, nonblank_lines, read_lines};
use yapper::number::{push_decimal, push_signed, push_two_digits};
use yapper::text::{
    characters, contains, is_blank, is_whitespace, joined, joined3, same, starts_with, string_of,
    trim,
};

#[test]
fn white_space_is_what_unicode_says_it_is() {
    for n in 0..=0x10ffff_u32 {
        if let Some(c) = char::from_u32(n) {
            assert_eq!(is_whitespace(c), c.is_whitespace(), "U+{n:04X}");
        }
    }
}

#[test]
fn trimming_takes_the_white_space_around() {
    for text in ["", " ", "a", " a b ", "\t\n x\u{a0}", "\u{3000}ü\u{2003}", "\u{85}\u{1680}"] {
        assert_eq!(trim(text), text.trim(), "{text:?}");
        assert_eq!(is_blank(text), text.trim().is_empty(), "{text:?}");
    }
}

#[test]
fn lines_end_as_lines_do() {
    for text in ["", "\n", "a", "a\n", "a\nb", "a\r\nb", "a\r", "\r\n", "a\rb\n", "a\n\n b \n\n"] {
        assert_eq!(line_one(text), text.lines().next().unwrap_or(""), "{text:?}");
        let expected: Vec<String> = text
            .lines()
            .filter(|line| !line.trim().is_empty())
            .map(|line| line.to_string())
            .collect();
        assert_eq!(nonblank_lines(text), expected, "{text:?}");
    }
}

#[test]
fn numbers_are_written_in_decimal() {
    for n in [0, 1, 9, 10, 11, 99, 100, 12_345, u64::MAX] {
        let mut text = "n=".to_string();
        push_decimal(&mut text, n);
        assert_eq!(text, format!("n={n}"));
    }
    for n in [0, -1, 7, -10, i64::MIN, i64::MAX] {
        let mut text = String::new();
        push_signed(&mut text, n);
        assert_eq!(text, format!("{n}"));
    }
    for n in [0, 5, 9, 10, 59, 123] {
        let mut text = String::new();
        push_two_digits(&mut text, n);
        assert_eq!(text, format!("{n:02}"));
    }
}

#[test]
fn strings_hold_other_strings_where_they_do() {
    for (text, part) in [
        ("", ""),
        ("a", ""),
        ("", "a"),
        ("abc", "abc"),
        ("abc", "bc"),
        ("abab", "bab"),
        ("ababc", "abc"),
        ("naïve", "ïv"),
        ("abc", "abcd"),
        ("abc", "x"),
    ] {
        assert_eq!(contains(text, part), text.contains(part), "{text} {part}");
        assert_eq!(starts_with(text, part), text.starts_with(part), "{text} {part}");
        assert_eq!(same(text, part), text == part);
    }
}

#[test]
fn strings_come_apart_and_together() {
    let chars = characters("naïve");
    assert_eq!(chars, ['n', 'a', 'ï', 'v', 'e']);
    assert_eq!(string_of(&chars, 1, 4), "aïv");
    assert_eq!(joined("a", "ü"), "aü");
    assert_eq!(joined3("a", "", "c"), "ac");
}

#[test]
fn bytes_are_read_line_by_line() {
    let text = |s: &str| Some(s.to_string());
    assert_eq!(read_lines(b""), Vec::<Option<String>>::new());
    assert_eq!(read_lines(b"\n \n\r\n"), Vec::<Option<String>>::new());
    assert_eq!(read_lines(b"a\r\nb\n\nc\r"), [text("a"), text("b"), text("c\r")]);
    assert_eq!(read_lines(b"a\n\xff\n \xff\nb"), [text("a"), None, None, text("b")]);
    assert_eq!(read_lines("\u{e9}t\u{e9}\n\u{3000}\n\u{1f600}".as_bytes()), [text("\u{e9}t\u{e9}"), text("\u{1f600}")]);
    // The halves of one character on two lines are text on neither.
    assert_eq!(read_lines(b"\xc3\n\xa9"), [None, None]);
}
