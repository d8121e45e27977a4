use buffers::naming::digit;
use buffers::registry::Registry;
use buffers::search::{find_lines_in, occurs_in, string_of};
use buffers::text::{chars_of, find_from};

#[test]
fn chars_of_gives_the_characters_in_order() {
    assert_eq!(chars_of(""), Vec::<char>::new());
    assert_eq!(chars_of("aé\nz"), vec!['a', 'é', '\n', 'z']);
}

#[test]
fn find_from_gives_the_first_position_at_or_after_the_start() {
    let text = chars_of("a b c");
    assert_eq!(find_from(&text, 0, ' '), 1);
    assert_eq!(find_from(&text, 1, ' '), 1);
    assert_eq!(find_from(&text, 2, ' '), 3);
    assert_eq!(find_from(&text, 4, ' '), 5);
    assert_eq!(find_from(&text, 5, ' '), 5);
    assert_eq!(find_from(&text, 0, 'x'), 5);
}

#[test]
fn occurs_in_looks_only_at_the_part_given() {
    let hay = chars_of("abcabd");
    assert!(occurs_in(&hay, 0, 6, &chars_of("abd")));
    assert!(!occurs_in(&hay, 0, 5, &chars_of("abd")));
    assert!(occurs_in(&hay, 3, 6, &chars_of("abd")));
    assert!(!occurs_in(&hay, 4, 6, &chars_of("abd")));
    assert!(occurs_in(&hay, 2, 2, &chars_of("")));
    assert!(!occurs_in(&hay, 2, 2, &chars_of("c")));
    assert!(occurs_in(&hay, 0, 6, &chars_of("abcabd")));
    assert!(!occurs_in(&hay, 0, 6, &chars_of("abcabda")));
}

#[test]
fn string_of_copies_a_part() {
    let text = chars_of("héllo");
    assert_eq!(string_of(&text, 0, 5), "héllo");
    assert_eq!(string_of(&text, 1, 3), "él");
    assert_eq!(string_of(&text, 4, 4), "");
}

#[test]
fn find_lines_in_strips_the_carriage_return_of_a_terminated_line() {
    let text = chars_of("one\r\ntwo\r");
    assert_eq!(find_lines_in(&text, &chars_of("")), vec![String::from("one"), String::from("two\r")]);
    assert_eq!(find_lines_in(&text, &chars_of("e\r")), Vec::<String>::new());
    assert_eq!(find_lines_in(&text, &chars_of("o\r")), vec![String::from("two\r")]);
}

#[test]
fn digits_are_ascii() {
    assert_eq!(digit(0), '0');
    assert_eq!(digit(5), '5');
    assert_eq!(digit(9), '9');
}

#[test]
fn get_finds_only_names_that_were_opened() {
    let mut registry = Registry::new();
    registry.fetch_or_create(Some(String::from("notes")));
    assert!(registry.get("notes").is_some());
    assert!(registry.get("note").is_none());
    assert!(registry.get("notes ").is_none());
    assert!(registry.get("").is_none());
}

#[test]
fn the_empty_name_is_a_name() {
    let mut registry = Registry::new();
    registry.fetch_or_create(Some(String::new()));
    assert!(registry.get("").is_some());
    assert_eq!(registry.len(), 1);
}
