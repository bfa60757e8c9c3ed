use extension_installer::text::{chars_of, first_char, last_char, text_eq, text_less};

#[test]
fn text_equality_is_by_characters() {
    assert!(text_eq("", ""));
    assert!(text_eq("foo", "foo"));
    assert!(!text_eq("foo", "fo"));
    assert!(!text_eq("fo", "foo"));
    assert!(!text_eq("foo", "fob"));
    assert!(text_eq("héllo", "héllo"));
}

#[test]
fn text_order_is_by_code_point() {
    assert!(text_less("", "a"));
    assert!(!text_less("", ""));
    assert!(!text_less("a", ""));
    assert!(text_less("a", "b"));
    assert!(text_less("a", "ab"));
    assert!(!text_less("ab", "a"));
    assert!(text_less("B", "a"));
    assert!(!text_less("a", "B"));
    assert!(text_less("z", "é"));
}

#[test]
fn text_order_agrees_with_std() {
    let samples = ["", "a", "A", "ab", "b", "foo", "foo-bar", "foo_bar", "é", "z", "日本", "\u{10000}", "\u{ffff}"];
    for a in samples {
        for b in samples {
            assert_eq!(text_less(a, b), a < b, "{:?} < {:?}", a, b);
            assert_eq!(text_eq(a, b), a == b);
        }
    }
}

#[test]
fn first_and_last_characters() {
    assert_eq!(first_char(""), None);
    assert_eq!(last_char(""), None);
    assert_eq!(first_char("abc"), Some('a'));
    assert_eq!(last_char("abc"), Some('c'));
    assert_eq!(last_char("x"), Some('x'));
    assert_eq!(last_char("né"), Some('é'));
}

#[test]
fn chars_are_listed_in_order() {
    assert_eq!(chars_of(""), Vec::<char>::new());
    assert_eq!(chars_of("a.é"), vec!['a', '.', 'é']);
}
