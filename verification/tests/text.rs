use tiny_msg::text::{
    append_chars, chars_of, copy_range, find_chars, lines_of, same_chars, split_chars,
    starts_with, stripped_len, trim_chars, whitespace,
};

fn chars(s: &str) -> Vec<char> {
    s.chars().collect()
}

fn strings(pieces: Vec<Vec<char>>) -> Vec<String> {
    pieces.into_iter().map(|p| p.into_iter().collect()).collect()
}

#[test]
fn chars_of_gives_each_character() {
    assert_eq!(chars_of("a\u{e9}\u{1f600}"), vec!['a', '\u{e9}', '\u{1f600}']);
    assert_eq!(chars_of(""), Vec::<char>::new());
}

#[test]
fn copy_range_takes_the_middle() {
    assert_eq!(copy_range(&chars("abcdef"), 2, 4), chars("cd"));
    assert_eq!(copy_range(&chars("abcdef"), 3, 3), chars(""));
    assert_eq!(copy_range(&chars("abcdef"), 0, 6), chars("abcdef"));
}

#[test]
fn append_chars_adds_at_the_end() {
    let mut v = chars("ab");
    append_chars(&mut v, &chars("cd"));
    assert_eq!(v, chars("abcd"));
}

#[test]
fn same_chars_compares_contents() {
    assert!(same_chars(&chars("john"), &chars("john")));
    assert!(!same_chars(&chars("john"), &chars("josh")));
    assert!(!same_chars(&chars("john"), &chars("joh")));
    assert!(same_chars(&chars(""), &chars("")));
}

#[test]
fn find_chars_gives_first_position() {
    assert_eq!(find_chars(&chars("Date: a: b"), &chars(": ")), Some(4));
    assert_eq!(find_chars(&chars("abc"), &chars("c")), Some(2));
    assert_eq!(find_chars(&chars("abc"), &chars("abc")), Some(0));
    assert_eq!(find_chars(&chars("abc"), &chars("")), Some(0));
}

#[test]
fn find_chars_gives_none_without_occurrence() {
    assert_eq!(find_chars(&chars("Date:x"), &chars(": ")), None);
    assert_eq!(find_chars(&chars("ab"), &chars("abc")), None);
    assert_eq!(find_chars(&chars(""), &chars("a")), None);
}

#[test]
fn starts_with_tests_the_prefix() {
    assert!(starts_with(&chars("__recip_version1.0_#00000000"), &chars("__recip_version1.0_")));
    assert!(!starts_with(&chars("__attach_version1.0_#00000000"), &chars("__recip_version1.0_")));
    assert!(!starts_with(&chars("Dat"), &chars("Date")));
    assert!(starts_with(&chars("Date"), &chars("")));
}

#[test]
fn stripped_len_drops_trailing_run() {
    assert_eq!(stripped_len(&chars("abc\0\0"), '\0'), 3);
    assert_eq!(stripped_len(&chars("a\0b"), '\0'), 3);
    assert_eq!(stripped_len(&chars("\0\0"), '\0'), 0);
    assert_eq!(stripped_len(&chars(""), '\0'), 0);
}

#[test]
fn whitespace_is_the_unicode_property() {
    for c in ['\t', '\n', '\u{b}', '\u{c}', '\r', ' ', '\u{85}', '\u{a0}', '\u{1680}', '\u{2000}',
        '\u{200a}', '\u{2028}', '\u{2029}', '\u{202f}', '\u{205f}', '\u{3000}']
    {
        assert!(whitespace(c));
        assert!(c.is_whitespace());
    }
    for c in ['a', '0', '\0', '\u{8}', '\u{e}', '\u{200b}', '\u{feff}', '\u{180e}', ';'] {
        assert!(!whitespace(c));
        assert!(!c.is_whitespace());
    }
}

#[test]
fn whitespace_agrees_with_std_on_every_char() {
    let mut n: u32 = 0;
    while n <= 0x10ffff {
        if let Some(c) = char::from_u32(n) {
            assert_eq!(whitespace(c), c.is_whitespace());
        }
        n += 1;
    }
}

#[test]
fn trim_chars_drops_both_ends() {
    assert_eq!(trim_chars(&chars("  john smith \t")), chars("john smith"));
    assert_eq!(trim_chars(&chars("john")), chars("john"));
    assert_eq!(trim_chars(&chars(" \u{a0} ")), chars(""));
    assert_eq!(trim_chars(&chars("")), chars(""));
}

#[test]
fn split_chars_gives_one_piece_more_than_separators() {
    assert_eq!(strings(split_chars(&chars("a;b;c"), ';')), vec!["a", "b", "c"]);
    assert_eq!(strings(split_chars(&chars("a;"), ';')), vec!["a", ""]);
    assert_eq!(strings(split_chars(&chars(";a"), ';')), vec!["", "a"]);
    assert_eq!(strings(split_chars(&chars(";;"), ';')), vec!["", "", ""]);
    assert_eq!(strings(split_chars(&chars("abc"), ';')), vec!["abc"]);
    assert_eq!(strings(split_chars(&chars(""), ';')), vec![""]);
}

#[test]
fn split_chars_agrees_with_std() {
    for s in ["john; karen", "a;;b;", ";", "no separator", ""] {
        let expected: Vec<String> = s.split(';').map(|p| p.to_string()).collect();
        assert_eq!(strings(split_chars(&chars(s), ';')), expected);
    }
}

#[test]
fn lines_of_ends_lines_at_line_feeds() {
    assert_eq!(strings(lines_of(&chars("a\nb\nc"))), vec!["a", "b", "c"]);
    assert_eq!(strings(lines_of(&chars("a\r\nb\r\n"))), vec!["a", "b"]);
    assert_eq!(strings(lines_of(&chars("a\n\nb"))), vec!["a", "", "b"]);
    assert_eq!(strings(lines_of(&chars("\n"))), vec![""]);
    assert_eq!(strings(lines_of(&chars(""))), Vec::<String>::new());
}

#[test]
fn lines_of_keeps_a_carriage_return_that_no_line_feed_follows() {
    assert_eq!(strings(lines_of(&chars("a\rb\nc\r"))), vec!["a\rb", "c\r"]);
    assert_eq!(strings(lines_of(&chars("a\r\r\nb"))), vec!["a\r", "b"]);
}

#[test]
fn lines_of_agrees_with_std() {
    for s in ["", "\n", "\r\n", "x", "x\n", "x\r", "x\r\ny", "\n\n", "a\nb\r\n\r\nc\r", "\r"] {
        let expected: Vec<String> = s.lines().map(|p| p.to_string()).collect();
        assert_eq!(strings(lines_of(&chars(s))), expected);
    }
}
