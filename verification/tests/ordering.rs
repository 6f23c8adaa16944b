use quote_ingest::text::{chars_of, precedes, sort_texts};

fn strings(items: &[&str]) -> Vec<String> {
    items.iter().map(|s| s.to_string()).collect()
}

fn le(a: &str, b: &str) -> bool {
    precedes(&chars_of(a), &chars_of(b))
}

#[test]
fn chars_of_gives_the_characters_in_order() {
    assert_eq!(chars_of("MSFT"), vec!['M', 'S', 'F', 'T']);
    assert_eq!(chars_of(""), Vec::<char>::new());
    assert_eq!(chars_of("aé€"), vec!['a', 'é', '€']);
}

#[test]
fn precedes_orders_by_first_difference() {
    assert!(le("AAPL", "MSFT"));
    assert!(!le("MSFT", "AAPL"));
    assert!(le("AAPL", "AAPM"));
    assert!(!le("AAPM", "AAPL"));
}

#[test]
fn precedes_puts_a_prefix_first() {
    assert!(le("AA", "AAPL"));
    assert!(!le("AAPL", "AA"));
    assert!(le("", "A"));
    assert!(!le("A", ""));
}

#[test]
fn precedes_holds_of_equal_texts() {
    assert!(le("GOOG", "GOOG"));
    assert!(le("", ""));
}

#[test]
fn precedes_goes_by_code_point() {
    assert!(le("Z", "a"));
    assert!(!le("a", "Z"));
    assert!(le("9", "A"));
    assert!(le("z", "é"));
}

#[test]
fn precedes_agrees_with_the_order_of_strings() {
    let samples = ["", "A", "AA", "AAPL", "BRK.B", "BRK-A", "a", "é", "€", "𝄞", "Z", "^GSPC", "0", "z"];
    for a in samples {
        for b in samples {
            assert_eq!(le(a, b), a <= b, "{:?} against {:?}", a, b);
        }
    }
}

#[test]
fn sort_texts_sorts_ascending() {
    let sorted = sort_texts(&strings(&["MSFT", "AAPL", "TSLA", "GOOG"]));
    assert_eq!(sorted, strings(&["AAPL", "GOOG", "MSFT", "TSLA"]));
}

#[test]
fn sort_texts_of_nothing_is_nothing() {
    assert_eq!(sort_texts(&Vec::new()), Vec::<String>::new());
}

#[test]
fn sort_texts_keeps_every_occurrence() {
    let sorted = sort_texts(&strings(&["B", "A", "B", "A", "C"]));
    assert_eq!(sorted, strings(&["A", "A", "B", "B", "C"]));
}

#[test]
fn sort_texts_leaves_its_input_alone() {
    let items = strings(&["B", "A"]);
    let sorted = sort_texts(&items);
    assert_eq!(items, strings(&["B", "A"]));
    assert_eq!(sorted, strings(&["A", "B"]));
}

#[test]
fn sort_texts_agrees_with_the_standard_sort() {
    let items = strings(&["msft", "MSFT", "AAPL", "é", "BRK.B", "", "BRK-A", "€uro", "AA", "^GSPC", "𝄞", "AAPL"]);
    let mut expected = items.clone();
    expected.sort();
    assert_eq!(sort_texts(&items), expected);
}
