use piow::text::{
    chars_of, contains, matches_at, number_text, replace_chars, split_chars, string_of,
};

fn chars(s: &str) -> Vec<char> {
    s.chars().collect()
}

fn replaced(s: &str, pat: &str, to: &str) -> String {
    replace_chars(&chars(s), &chars(pat), &chars(to)).into_iter().collect()
}

#[test]
fn chars_of_gives_each_character() {
    assert_eq!(chars_of("a🦊b"), vec!['a', '🦊', 'b']);
    assert_eq!(chars_of(""), Vec::<char>::new());
}

#[test]
fn string_of_puts_characters_together() {
    assert_eq!(string_of(&vec!['2', ':', ' ', '🦊']), "2: 🦊");
    assert_eq!(string_of(&Vec::new()), "");
}

#[test]
fn string_of_undoes_chars_of() {
    let text = "rename workspace '1' to '1: é'";
    assert_eq!(string_of(&chars_of(text)), text);
}

#[test]
fn matches_at_finds_pattern_only_where_it_stands() {
    let s = chars("a%nb");
    let pat = chars("%n");
    assert!(!matches_at(&s, &pat, 0));
    assert!(matches_at(&s, &pat, 1));
    assert!(!matches_at(&s, &pat, 2));
    assert!(!matches_at(&s, &pat, 3));
    assert!(!matches_at(&s, &pat, 4));
    assert!(!matches_at(&s, &pat, usize::MAX));
}

#[test]
fn matches_at_empty_pattern_stands_everywhere_within() {
    let s = chars("ab");
    assert!(matches_at(&s, &Vec::new(), 0));
    assert!(matches_at(&s, &Vec::new(), 2));
    assert!(!matches_at(&s, &Vec::new(), 3));
}

#[test]
fn contains_agrees_with_std() {
    let cases = [
        ("firefox", "fire"),
        ("firefox", "fox"),
        ("firefox", "firefox"),
        ("firefox", "firefoxy"),
        ("firefox", "ef"),
        ("firefox", "fx"),
        ("", ""),
        ("", "a"),
        ("abc", ""),
        ("aab", "ab"),
        ("org.mozilla.firefox", "firefox"),
    ];
    for (s, pat) in cases {
        assert_eq!(contains(s, pat), s.contains(pat), "{:?} in {:?}", pat, s);
    }
}

#[test]
fn replace_puts_replacement_for_each_occurrence() {
    assert_eq!(replaced("%n: %n", "%n", "12"), "12: 12");
    assert_eq!(replaced("abc", "%n", "12"), "abc");
    assert_eq!(replaced("", "%n", "12"), "");
    assert_eq!(replaced("%n", "%n", ""), "");
    assert_eq!(replaced("%", "%n", "1"), "%");
}

#[test]
fn replace_does_not_overlap_and_does_not_search_again() {
    assert_eq!(replaced("aaa", "aa", "b"), "ba");
    assert_eq!(replaced("aaaa", "aa", "a"), "aa");
    assert_eq!(replaced("ab", "a", "aa"), "aab");
    assert_eq!(replaced("HH[[", "H[", ""), "H[");
}

#[test]
fn replace_agrees_with_std_for_nonempty_patterns() {
    let cases = [
        ("%n: %i", "%n", "3"),
        ("%n%n%i", "%i", "x y"),
        ("H[V[a b] c]", "[", ""),
        ("xxxxx", "xx", "y"),
        ("été", "é", "e"),
    ];
    for (s, pat, to) in cases {
        assert_eq!(replaced(s, pat, to), s.replace(pat, to));
    }
}

#[test]
fn replace_with_empty_pattern_keeps_the_text() {
    assert_eq!(replaced("abc", "", "x"), "abc");
}

#[test]
fn split_gives_one_more_piece_than_separators() {
    assert_eq!(split_chars(&chars("a b c"), ' '), vec!["a", "b", "c"]);
    assert_eq!(split_chars(&chars("abc"), ' '), vec!["abc"]);
    assert_eq!(split_chars(&chars(""), ' '), vec![""]);
    assert_eq!(split_chars(&chars(" "), ' '), vec!["", ""]);
    assert_eq!(split_chars(&chars("a  b "), ' '), vec!["a", "", "b", ""]);
}

#[test]
fn split_agrees_with_std() {
    for s in ["firefox Alacritty", " x", "x ", "  ", "a b  c   d"] {
        let expected: Vec<String> = s.split(' ').map(String::from).collect();
        assert_eq!(split_chars(&chars(s), ' '), expected);
    }
}

#[test]
fn number_text_is_the_decimal_form() {
    assert_eq!(number_text(0), "0");
    assert_eq!(number_text(2), "2");
    assert_eq!(number_text(10), "10");
    assert_eq!(number_text(1234567890), "1234567890");
    assert_eq!(number_text(-1), "-1");
    assert_eq!(number_text(-120), "-120");
    assert_eq!(number_text(i32::MAX), "2147483647");
    assert_eq!(number_text(i32::MIN), "-2147483648");
}

#[test]
fn number_text_agrees_with_to_string() {
    for n in [-1000, -99, -10, -9, 0, 9, 10, 99, 100, 101, 65535, 1000000] {
        assert_eq!(number_text(n), n.to_string());
    }
}
