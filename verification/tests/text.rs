use market_maker::text::{decimal_text, joined, remove_text, starts_with};

#[test]
fn numbers_are_written_in_decimal() {
    assert_eq!(decimal_text(0), "0");
    assert_eq!(decimal_text(7), "7");
    assert_eq!(decimal_text(1576074319000), "1576074319000");
    assert_eq!(decimal_text(u128::MAX), u128::MAX.to_string());
}

#[test]
fn prefixes_are_recognised() {
    assert!(starts_with("book.BTC-20DEC24.raw", "book."));
    assert!(starts_with("book.", "book."));
    assert!(starts_with("anything", ""));
    assert!(!starts_with("book", "book."));
    assert!(!starts_with("a book.", "book."));
}

#[test]
fn texts_are_joined() {
    assert_eq!(joined("book.", "BTC", ".raw"), "book.BTC.raw");
    assert_eq!(joined("", "", ""), "");
}

#[test]
fn every_occurrence_is_removed() {
    let mut list = vec!["a".to_string(), "b".to_string(), "a".to_string(), "c".to_string()];
    remove_text(&mut list, "a");
    assert_eq!(list, vec!["b".to_string(), "c".to_string()]);
    remove_text(&mut list, "a");
    assert_eq!(list.len(), 2);
}
