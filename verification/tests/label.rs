use mygrep::label::{decimal_text, label};

#[test]
fn numerals_have_no_leading_zeros() {
    assert_eq!(decimal_text(0), "0");
    assert_eq!(decimal_text(7), "7");
    assert_eq!(decimal_text(9), "9");
    assert_eq!(decimal_text(10), "10");
    assert_eq!(decimal_text(99), "99");
    assert_eq!(decimal_text(100), "100");
    assert_eq!(decimal_text(1234567890), "1234567890");
}

#[test]
fn the_largest_number_is_written_in_full() {
    assert_eq!(decimal_text(u128::MAX), "340282366920938463463374607431768211455");
}

#[test]
fn numerals_agree_with_the_standard_library() {
    for n in [0u128, 1, 9, 10, 11, 19, 20, 101, 999, 1000, 65535, 65536, 4294967295] {
        assert_eq!(decimal_text(n), format!("{}", n));
    }
}

#[test]
fn a_label_is_the_one_based_number_a_colon_and_a_space() {
    assert_eq!(label(true, 0, "x".to_string()), "1: x");
    assert_eq!(label(true, 1, "bar foo baz".to_string()), "2: bar foo baz");
    assert_eq!(label(true, 9, "".to_string()), "10: ");
    assert_eq!(label(true, 122, "  y".to_string()), "123:   y");
}

#[test]
fn without_numbers_the_text_is_handed_back() {
    assert_eq!(label(false, 0, "x".to_string()), "x");
    assert_eq!(label(false, 41, "".to_string()), "");
}

#[test]
fn the_last_index_can_be_labelled() {
    let expected = format!("{}: x", (usize::MAX as u128) + 1);
    assert_eq!(label(true, usize::MAX, "x".to_string()), expected);
}
