use crystal_cell::text::{
    blank, chars_of, contains, copy_range, is_whitespace, matches_at, split_lines, split_tokens,
    starts_with, string_of,
};

fn lines(s: &str) -> Vec<String> {
    split_lines(&chars_of(s)).iter().map(string_of).collect()
}

fn tokens(s: &str) -> Vec<String> {
    split_tokens(&chars_of(s)).iter().map(string_of).collect()
}

#[test]
fn characters_and_back() {
    let v = chars_of("Åb c");
    assert_eq!(v, vec!['Å', 'b', ' ', 'c']);
    assert_eq!(string_of(&v), "Åb c");
    assert_eq!(copy_range(&v, 1, 3), vec!['b', ' ']);
    assert_eq!(copy_range(&v, 2, 2), Vec::<char>::new());
}

#[test]
fn lines_end_at_line_feeds() {
    assert_eq!(lines(""), Vec::<String>::new());
    assert_eq!(lines("abc"), vec!["abc"]);
    assert_eq!(lines("abc\n"), vec!["abc"]);
    assert_eq!(lines("\n"), vec![""]);
    assert_eq!(lines("a\n\nb"), vec!["a", "", "b"]);
    assert_eq!(lines("a\nb\n\n"), vec!["a", "b", ""]);
}

#[test]
fn a_carriage_return_before_a_line_feed_is_dropped() {
    assert_eq!(lines("a\r\nb\r\n"), vec!["a", "b"]);
    assert_eq!(lines("a\r\r\nb"), vec!["a\r", "b"]);
    assert_eq!(lines("a\rb\n"), vec!["a\rb"]);
    assert_eq!(lines("a\r"), vec!["a\r"]);
    assert_eq!(lines("\r\n"), vec![""]);
    assert_eq!(lines("\n\r\n"), vec!["", ""]);
}

#[test]
fn lines_are_those_of_std() {
    for s in ["", "x", "x\n", "\n\n", "a\r\nb", "a\n\rb\r", "\r", "\r\n\r\n", "one\ntwo\r\n\nthree"] {
        let expected: Vec<String> = s.lines().map(|l| l.to_string()).collect();
        assert_eq!(lines(s), expected, "{:?}", s);
    }
}

#[test]
fn tokens_are_runs_without_white_space() {
    assert_eq!(tokens(""), Vec::<String>::new());
    assert_eq!(tokens("   \t "), Vec::<String>::new());
    assert_eq!(tokens("a"), vec!["a"]);
    assert_eq!(tokens("  a  bc\td \r"), vec!["a", "bc", "d"]);
    assert_eq!(tokens("_cell_length_a    5.4307"), vec!["_cell_length_a", "5.4307"]);
    assert_eq!(tokens("a\u{a0}b\u{3000}c\u{2003}d\u{85}e"), vec!["a", "b", "c", "d", "e"]);
    assert_eq!(tokens("a\u{200b}b"), vec!["a\u{200b}b"]);
}

#[test]
fn tokens_are_those_of_std() {
    for s in ["", " ", "a b", "  a\tb\u{1680}c  ", "x\u{2028}y\u{2029}z\u{202f}w\u{205f}v", "\u{b}a\u{c}b"] {
        let expected: Vec<String> = s.split_whitespace().map(|l| l.to_string()).collect();
        assert_eq!(tokens(s), expected, "{:?}", s);
    }
}

#[test]
fn white_space_is_that_of_std() {
    let mut c = 0u32;
    while c <= 0x11000 {
        if let Some(ch) = char::from_u32(c) {
            assert_eq!(is_whitespace(ch), ch.is_whitespace(), "{:x}", c);
        }
        c += 1;
    }
}

#[test]
fn blank_lines() {
    assert!(blank(&chars_of("")));
    assert!(blank(&chars_of(" \t\r")));
    assert!(!blank(&chars_of("  x ")));
}

#[test]
fn prefixes() {
    let line = chars_of("_cell_length_a 5");
    assert!(starts_with(&line, "_cell_length_a"));
    assert!(starts_with(&line, ""));
    assert!(starts_with(&line, "_cell_length_a 5"));
    assert!(!starts_with(&line, "_cell_length_a 5 "));
    assert!(!starts_with(&line, "_cell_length_b"));
    assert!(!starts_with(&line, "cell"));
    assert!(!starts_with(&chars_of(" _cell_length_a 5"), "_cell_length_a"));
}

#[test]
fn infixes() {
    let line = chars_of("   End final coordinates  ");
    assert!(contains(&line, "End final coordinates"));
    assert!(contains(&line, ""));
    assert!(contains(&line, "  "));
    assert!(contains(&line, "s  "));
    assert!(!contains(&line, "End  final"));
    assert!(!contains(&line, "end final"));
    assert!(!contains(&chars_of("ab"), "abc"));
    assert!(contains(&chars_of("aab"), "ab"));
    assert!(matches_at(&chars_of("aab"), &chars_of("ab"), 1));
    assert!(!matches_at(&chars_of("aab"), &chars_of("ab"), 0));
    assert!(!matches_at(&chars_of("aab"), &chars_of("ab"), 2));
    assert!(!matches_at(&chars_of("aab"), &chars_of("ab"), usize::MAX));
    assert!(matches_at(&chars_of("aab"), &chars_of(""), 3));
    assert!(!matches_at(&chars_of("aab"), &chars_of(""), 4));
}
