use element_search::feed::{parse_elements, parse_id, parse_line, split_fields};
use element_search::models::Element;

fn feed_element(id: u32, name: &str, emoji: &str) -> Element {
    Element { id, name: name.to_string(), emoji: emoji.to_string() }
}

#[test]
fn line_with_three_fields_is_a_record() {
    assert_eq!(parse_line("1\tCat\t🐱"), Some(feed_element(1, "Cat", "🐱")));
}

#[test]
fn fields_may_be_empty() {
    assert_eq!(parse_line("7\t\t"), Some(feed_element(7, "", "")));
}

#[test]
fn escaped_tab_is_part_of_the_field() {
    assert_eq!(parse_line("2\t\u{1}a\tb\u{1}\tX"), Some(feed_element(2, "a\tb", "X")));
}

#[test]
fn escape_marker_is_dropped_and_toggles() {
    assert_eq!(
        split_fields("\u{1}a\tb\u{1}\tc\u{1}\td"),
        vec!["a\tb".to_string(), "c\td".to_string()]
    );
    assert_eq!(split_fields("\u{1}\u{1}a\tb"), vec!["a".to_string(), "b".to_string()]);
}

#[test]
fn split_fields_of_plain_text() {
    assert_eq!(split_fields(""), vec!["".to_string()]);
    assert_eq!(split_fields("abc"), vec!["abc".to_string()]);
    assert_eq!(
        split_fields("a\t\tb\t"),
        vec!["a".to_string(), "".to_string(), "b".to_string(), "".to_string()]
    );
}

#[test]
fn line_with_wrong_field_count_is_dropped() {
    assert_eq!(parse_line(""), None);
    assert_eq!(parse_line("1\tCat"), None);
    assert_eq!(parse_line("1\tCat\t🐱\textra"), None);
    assert_eq!(parse_line("1\t\u{1}Cat\t🐱"), None);
}

#[test]
fn line_with_non_numeric_id_is_dropped() {
    assert_eq!(parse_line("x\tCat\t🐱"), None);
    assert_eq!(parse_line("\tCat\t🐱"), None);
    assert_eq!(parse_line("-1\tCat\t🐱"), None);
    assert_eq!(parse_line("1 \tCat\t🐱"), None);
    assert_eq!(parse_line("4294967296\tCat\t🐱"), None);
}

#[test]
fn parse_id_agrees_with_the_standard_parser() {
    for text in [
        "", "0", "7", "007", "42", "+42", "+", "++1", "-0", "-", "4294967295", "4294967296",
        "+4294967295", "99999999999999999999999", "12a", "a12", " 1", "1 ", "١٢", "1+", "+0",
        "00000000000000000000001", "42949672950",
    ] {
        assert_eq!(parse_id(text), text.parse::<u32>().ok(), "{:?}", text);
    }
}

#[test]
fn parse_id_values() {
    assert_eq!(parse_id("0"), Some(0));
    assert_eq!(parse_id("+15"), Some(15));
    assert_eq!(parse_id("4294967295"), Some(u32::MAX));
    assert_eq!(parse_id("4294967296"), None);
    assert_eq!(parse_id(""), None);
}

#[test]
fn parse_elements_keeps_the_records_in_order() {
    let lines = vec![
        "1\tCat\t🐱".to_string(),
        "".to_string(),
        "broken line".to_string(),
        "2\tDog\t🐶".to_string(),
        "x\tBird\t🐦".to_string(),
        "3\tCaterpillar\t🐛".to_string(),
    ];
    assert_eq!(
        parse_elements(&lines),
        vec![
            feed_element(1, "Cat", "🐱"),
            feed_element(2, "Dog", "🐶"),
            feed_element(3, "Caterpillar", "🐛"),
        ]
    );
}

#[test]
fn parse_elements_of_nothing() {
    assert_eq!(parse_elements(&Vec::new()), Vec::new());
}
