use piow::iconset::{dedup_texts, icon_string, join_texts, le_text, sort_texts};

fn strings(items: &[&str]) -> Vec<String> {
    items.iter().map(|s| s.to_string()).collect()
}

#[test]
fn le_text_orders_by_code_point() {
    assert!(le_text("", ""));
    assert!(le_text("", "a"));
    assert!(!le_text("a", ""));
    assert!(le_text("a", "a"));
    assert!(le_text("a", "b"));
    assert!(!le_text("b", "a"));
    assert!(le_text("ab", "abc"));
    assert!(!le_text("abc", "ab"));
    assert!(le_text("Z", "a"));
    assert!(le_text("z", "é"));
    assert!(le_text("é", "🦊"));
    assert!(!le_text("🦊", "?"));
}

#[test]
fn le_text_agrees_with_string_order() {
    let items = ["", "a", "ab", "b", "B", "é", "e", "🦊", "🦀", "\u{ffff}", "\u{10000}", "?"];
    for a in items {
        for b in items {
            assert_eq!(le_text(a, b), a <= b, "{:?} <= {:?}", a, b);
        }
    }
}

#[test]
fn sort_texts_sorts_and_keeps_duplicates() {
    assert_eq!(sort_texts(&strings(&["c", "a", "b", "a"])), strings(&["a", "a", "b", "c"]));
    assert_eq!(sort_texts(&strings(&[])), strings(&[]));
    assert_eq!(sort_texts(&strings(&["x"])), strings(&["x"]));
}

#[test]
fn sort_texts_agrees_with_std_sort() {
    let items = strings(&["🦊", "", "b", "é", "a", "ab", "B", "🦀", "a", "?"]);
    let mut expected = items.clone();
    expected.sort();
    assert_eq!(sort_texts(&items), expected);
}

#[test]
fn dedup_texts_removes_equal_neighbours_only() {
    assert_eq!(dedup_texts(&strings(&["a", "a", "b", "a", "a", "a"])), strings(&["a", "b", "a"]));
    assert_eq!(dedup_texts(&strings(&[])), strings(&[]));
    assert_eq!(dedup_texts(&strings(&["a"])), strings(&["a"]));
    assert_eq!(dedup_texts(&strings(&["a", "b"])), strings(&["a", "b"]));
}

#[test]
fn join_texts_puts_separator_between_parts() {
    assert_eq!(join_texts(&strings(&[]), ", "), "");
    assert_eq!(join_texts(&strings(&["a"]), ", "), "a");
    assert_eq!(join_texts(&strings(&["a", "b", "c"]), ", "), "a, b, c");
    assert_eq!(join_texts(&strings(&["a", "", "c"]), "-"), "a--c");
    assert_eq!(join_texts(&strings(&["a", "b"]), ""), "ab");
}

#[test]
fn icon_string_sorts_and_removes_duplicates() {
    assert_eq!(icon_string(&strings(&["b", "a", "b", "c", "a"]), " "), "a b c");
    assert_eq!(icon_string(&strings(&[]), " "), "");
    assert_eq!(icon_string(&strings(&["x", "x", "x"]), "|"), "x");
}

#[test]
fn icon_string_does_not_depend_on_order() {
    let a = icon_string(&strings(&["🦊", "?", "T", "?"]), " ");
    let b = icon_string(&strings(&["?", "T", "?", "🦊"]), " ");
    let c = icon_string(&strings(&["T", "🦊", "?", "?"]), " ");
    assert_eq!(a, "? T 🦊");
    assert_eq!(a, b);
    assert_eq!(a, c);
}

#[test]
fn normal_form_is_kept_by_a_second_pass() {
    let once = dedup_texts(&sort_texts(&strings(&["b", "a", "c", "a", "b"])));
    let twice = dedup_texts(&sort_texts(&once));
    assert_eq!(once, strings(&["a", "b", "c"]));
    assert_eq!(twice, once);
}
