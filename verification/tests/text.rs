use quote_tables::text::{copy_texts, is_whitespace, same_texts, split_list, trimmed};

fn texts(list: &[&str]) -> Vec<String> {
    list.iter().map(|s| s.to_string()).collect()
}

#[test]
fn items_are_trimmed_and_blanks_dropped() {
    assert_eq!(split_list("AAPL, MSFT ,,  ,GOOG"), texts(&["AAPL", "MSFT", "GOOG"]));
    assert_eq!(split_list("AAPL"), texts(&["AAPL"]));
    assert_eq!(split_list(""), texts(&[]));
    assert_eq!(split_list(" , ,, "), texts(&[]));
    assert_eq!(split_list(",a"), texts(&["a"]));
    assert_eq!(split_list("a,"), texts(&["a"]));
    assert_eq!(split_list("a b , c"), texts(&["a b", "c"]));
}

#[test]
fn every_character_is_white_space_or_not_as_in_the_standard_library() {
    let mut count = 0;
    for code in 0..=0x10FFFFu32 {
        if let Some(c) = char::from_u32(code) {
            assert_eq!(is_whitespace(c), c.is_whitespace(), "U+{:04X}", code);
            if is_whitespace(c) {
                count += 1;
            }
        }
    }
    assert_eq!(count, 25);
    assert!(is_whitespace(' '));
    assert!(is_whitespace('\t'));
    assert!(is_whitespace('\u{3000}'));
    assert!(!is_whitespace('A'));
    assert!(!is_whitespace(','));
    assert!(!is_whitespace('\u{200b}'));
    assert!(!is_whitespace('\u{180e}'));
}

#[test]
fn a_list_with_blanks_is_read_without_them() {
    let items = split_list(" AAA, ,BBB ,");
    assert_eq!(items, texts(&["AAA", "BBB"]));
}

#[test]
fn white_space_is_what_the_standard_library_calls_so() {
    assert_eq!(split_list("\ta\n,\u{a0}b\u{2003},\u{3000}"), texts(&["a", "b"]));
    assert_eq!(split_list("_a_,\u{200b}"), texts(&["_a_", "\u{200b}"]));
    assert_eq!(trimmed("  x y \r\n"), "x y");
    assert_eq!(trimmed("\u{2028}"), "");
    assert_eq!(trimmed(""), "");
    assert_eq!(trimmed("é "), "é");
    for s in ["a , b,c", "  ", ",,", " x", "日本, 語 ,", "a\u{85},b"] {
        let want: Vec<String> =
            s.split(',').map(|p| p.trim().to_owned()).filter(|p| !p.is_empty()).collect();
        assert_eq!(split_list(s), want);
        assert_eq!(trimmed(s), s.trim());
    }
}

#[test]
fn lists_of_texts_are_compared_and_copied() {
    let a = texts(&["x", "y"]);
    assert!(same_texts(&a, &texts(&["x", "y"])));
    assert!(!same_texts(&a, &texts(&["y", "x"])));
    assert!(!same_texts(&a, &texts(&["x"])));
    assert!(!same_texts(&a, &texts(&["x", "y", ""])));
    assert!(same_texts(&texts(&[]), &texts(&[])));
    assert_eq!(copy_texts(&a), a);
}
