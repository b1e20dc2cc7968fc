use nanobot::text::{
    begins_with, chars_of, decimal_string, find_first, find_last, join_strings, lacks_char,
    parse_decimal, push_decimal, spells, text_between,
};

#[test]
fn decimal_form_of_numbers() {
    assert_eq!(decimal_string(0), "0");
    assert_eq!(decimal_string(7), "7");
    assert_eq!(decimal_string(10), "10");
    assert_eq!(decimal_string(1234567890), "1234567890");
    assert_eq!(decimal_string(usize::MAX), usize::MAX.to_string());
    let mut out = "n=".to_string();
    push_decimal(&mut out, 405);
    assert_eq!(out, "n=405");
}

#[test]
fn strings_are_joined_with_a_separator() {
    let none: Vec<String> = vec![];
    assert_eq!(join_strings(&none, "&"), "");
    assert_eq!(join_strings(&vec!["a".to_string()], "&"), "a");
    assert_eq!(
        join_strings(&vec!["a".to_string(), "".to_string(), "c".to_string()], ", "),
        "a, , c"
    );
}

#[test]
fn characters_are_found() {
    let chars = chars_of("a=b=c");
    assert_eq!(chars, vec!['a', '=', 'b', '=', 'c']);
    assert_eq!(find_first(&chars, 0, 5, '='), 1);
    assert_eq!(find_first(&chars, 2, 5, '='), 3);
    assert_eq!(find_first(&chars, 4, 5, '='), 5);
    assert_eq!(find_first(&chars, 0, 1, '='), 1);
    assert_eq!(find_last(&chars, 0, 5, '='), Some(3));
    assert_eq!(find_last(&chars, 0, 3, '='), Some(1));
    assert_eq!(find_last(&chars, 4, 5, '='), None);
    assert_eq!(find_last(&chars, 2, 2, '='), None);
    assert!(lacks_char("abc", '='));
    assert!(!lacks_char("a=c", '='));
    assert!(lacks_char("", '='));
}

#[test]
fn decimal_text_is_read() {
    let chars = chars_of("x0042y");
    assert_eq!(parse_decimal(&chars, 1, 5), Some(42));
    assert_eq!(parse_decimal(&chars, 1, 2), Some(0));
    assert_eq!(parse_decimal(&chars, 0, 5), None);
    assert_eq!(parse_decimal(&chars, 1, 6), None);
    assert_eq!(parse_decimal(&chars, 3, 3), None);
    let max = usize::MAX.to_string();
    let chars = chars_of(&max);
    assert_eq!(parse_decimal(&chars, 0, chars.len()), Some(usize::MAX));
    let over = format!("{}0", max);
    let chars = chars_of(&over);
    assert_eq!(parse_decimal(&chars, 0, chars.len()), None);
    let mut digits: Vec<char> = max.chars().collect();
    let last = digits.len() - 1;
    digits[last] = '9';
    assert_eq!(parse_decimal(&digits, 0, digits.len()), None);
}

#[test]
fn words_are_matched() {
    let chars = chars_of("order=eq.x");
    assert!(spells(&chars, 0, 5, "order"));
    assert!(!spells(&chars, 0, 6, "order"));
    assert!(!spells(&chars, 0, 4, "order"));
    assert!(!spells(&chars, 1, 6, "order"));
    assert!(begins_with(&chars, 6, 10, "eq."));
    assert!(begins_with(&chars, 6, 9, "eq."));
    assert!(!begins_with(&chars, 6, 8, "eq."));
    assert!(!begins_with(&chars, 5, 10, "eq."));
    assert!(begins_with(&chars, 3, 3, ""));
}

#[test]
fn text_is_cut_by_characters() {
    assert_eq!(text_between("caf\u{e9}=\u{e5}r", 0, 4), "caf\u{e9}");
    assert_eq!(text_between("caf\u{e9}=\u{e5}r", 5, 7), "\u{e5}r");
    assert_eq!(text_between("abc", 1, 1), "");
    assert_eq!(chars_of("caf\u{e9}").len(), 4);
}
