use payinfo::text::{
    append, char_is_whitespace, chars_of, copy_range, find_char, range_starts_with, split_lines,
    string_of, string_of_range, trim_range, vec_ends_with,
};

fn text_chars(text: &str) -> Vec<char> {
    text.chars().collect()
}

fn trimmed(text: &str) -> String {
    let chars = text_chars(text);
    let (a, b) = trim_range(&chars, 0, chars.len());
    string_of_range(&chars, a, b)
}

fn lines_of(text: &str) -> Vec<String> {
    split_lines(&text_chars(text)).iter().map(string_of).collect()
}

#[test]
fn chars_of_counts_characters_not_bytes() {
    assert_eq!(chars_of("a\u{e9}\u{4e2d}\u{1F600}z"), vec!['a', '\u{e9}', '\u{4e2d}', '\u{1F600}', 'z']);
    assert_eq!(chars_of(""), Vec::<char>::new());
}

#[test]
fn string_of_gives_the_characters_back() {
    let chars = text_chars("Caf\u{e9} 9:00");
    assert_eq!(string_of(&chars), "Caf\u{e9} 9:00");
    assert_eq!(string_of_range(&chars, 0, 4), "Caf\u{e9}");
    assert_eq!(string_of_range(&chars, 5, 9), "9:00");
    assert_eq!(string_of_range(&chars, 3, 3), "");
    assert_eq!(copy_range(&chars, 5, 9), vec!['9', ':', '0', '0']);
}

#[test]
fn append_adds_at_the_end() {
    let mut buf = text_chars("ab");
    append(&mut buf, &text_chars("cd"));
    append(&mut buf, &Vec::new());
    assert_eq!(buf, vec!['a', 'b', 'c', 'd']);
}

#[test]
fn whitespace_is_what_unicode_classes_as_such() {
    for c in [
        ' ', '\t', '\n', '\u{0B}', '\u{0C}', '\r', '\u{85}', '\u{A0}', '\u{1680}', '\u{2000}',
        '\u{2005}', '\u{200A}', '\u{2028}', '\u{2029}', '\u{202F}', '\u{205F}', '\u{3000}',
    ] {
        assert!(char_is_whitespace(c), "{:?}", c);
    }
    for c in ['a', '0', '\u{08}', '\u{0E}', '\u{1F}', '\u{200B}', '\u{180E}', '\u{FEFF}', '_'] {
        assert!(!char_is_whitespace(c), "{:?}", c);
    }
}

#[test]
fn whitespace_agrees_with_the_standard_library() {
    for u in 0..=0x3100u32 {
        if let Some(c) = char::from_u32(u) {
            assert_eq!(char_is_whitespace(c), c.is_whitespace(), "{:?}", c);
        }
    }
}

#[test]
fn trim_removes_both_ends_only() {
    assert_eq!(trimmed("  a b  "), "a b");
    assert_eq!(trimmed("\t\r\n x \u{A0}\u{3000}"), "x");
    assert_eq!(trimmed("x"), "x");
    assert_eq!(trimmed(""), "");
    assert_eq!(trimmed("   "), "");
}

#[test]
fn trim_of_a_range_stays_inside_it() {
    let chars = text_chars("ab  cd  ef");
    assert_eq!(trim_range(&chars, 2, 8), (4, 6));
    assert_eq!(trim_range(&chars, 2, 4), (4, 4));
    assert_eq!(trim_range(&chars, 0, 10), (0, 10));
}

#[test]
fn find_char_gives_first_or_end() {
    let chars = text_chars("a:b:c");
    assert_eq!(find_char(&chars, 0, 5, ':'), 1);
    assert_eq!(find_char(&chars, 2, 5, ':'), 3);
    assert_eq!(find_char(&chars, 4, 5, ':'), 5);
    assert_eq!(find_char(&chars, 0, 1, ':'), 1);
    assert_eq!(find_char(&chars, 0, 0, ':'), 0);
}

#[test]
fn prefix_and_suffix_tests() {
    let chars = text_chars("Week 1 Totals");
    assert!(range_starts_with(&chars, 0, chars.len(), &text_chars("Week")));
    assert!(range_starts_with(&chars, 0, chars.len(), &text_chars("")));
    assert!(!range_starts_with(&chars, 0, 3, &text_chars("Week")));
    assert!(!range_starts_with(&chars, 1, chars.len(), &text_chars("Week")));
    assert!(range_starts_with(&chars, 5, chars.len(), &text_chars("1 T")));
    assert!(vec_ends_with(&chars, &text_chars("Totals")));
    assert!(vec_ends_with(&chars, &text_chars("")));
    assert!(!vec_ends_with(&chars, &text_chars("Total")));
    assert!(!vec_ends_with(&text_chars("als"), &text_chars("Totals")));
}

#[test]
fn lines_split_at_line_feeds() {
    assert_eq!(lines_of("a\nb\nc"), vec!["a", "b", "c"]);
    assert_eq!(lines_of("a\nb\n"), vec!["a", "b"]);
    assert_eq!(lines_of("a\n\nb"), vec!["a", "", "b"]);
    assert_eq!(lines_of("\n"), vec![""]);
    assert_eq!(lines_of("\n\n"), vec!["", ""]);
    assert_eq!(lines_of(""), Vec::<String>::new());
    assert_eq!(lines_of("single"), vec!["single"]);
}

#[test]
fn lines_drop_one_carriage_return_before_a_line_feed() {
    assert_eq!(lines_of("a\r\nb\r\n"), vec!["a", "b"]);
    assert_eq!(lines_of("a\r\r\nb"), vec!["a\r", "b"]);
    assert_eq!(lines_of("a\rb\nc"), vec!["a\rb", "c"]);
    assert_eq!(lines_of("a\nb\r"), vec!["a", "b\r"]);
    assert_eq!(lines_of("\r\n"), vec![""]);
    assert_eq!(lines_of("\r"), vec!["\r"]);
}

#[test]
fn lines_agree_with_the_standard_library() {
    let samples = [
        "", "\n", "\r", "\r\n", "a", "a\n", "a\r\n", "a\n\r", "\na", "\n\n\n", "a\r\r\n\r\nb\r",
        "x\ny\r\nz\n", "one\n\ntwo\n\n", "\u{e9}\n\u{4e2d}\r\n",
    ];
    for s in samples {
        let expected: Vec<String> = s.lines().map(str::to_owned).collect();
        assert_eq!(lines_of(s), expected, "{:?}", s);
    }
}

#[test]
fn trim_agrees_with_the_standard_library() {
    let samples = ["", " ", "a", " a", "a ", " a b ", "\u{2003}x\u{2003}", "\u{200B}x ", "\r\nx\t"];
    for s in samples {
        assert_eq!(trimmed(s), s.trim(), "{:?}", s);
    }
}
