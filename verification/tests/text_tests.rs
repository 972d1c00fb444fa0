use pinterest_parser::text::{chars_of, decimal_chars, replace_all_str, string_of, zero_padded_chars};

fn s(v: Vec<char>) -> String {
    v.into_iter().collect()
}

#[test]
fn decimal_of_zero_is_one_digit() {
    assert_eq!(s(decimal_chars(0)), "0");
}

#[test]
fn decimal_has_no_leading_zeros() {
    assert_eq!(s(decimal_chars(9)), "9");
    assert_eq!(s(decimal_chars(10)), "10");
    assert_eq!(s(decimal_chars(1234)), "1234");
    assert_eq!(s(decimal_chars(u64::MAX)), u64::MAX.to_string());
}

#[test]
fn zero_padding_fills_to_width() {
    assert_eq!(s(zero_padded_chars(7, 3)), "007");
    assert_eq!(s(zero_padded_chars(42, 3)), "042");
    assert_eq!(s(zero_padded_chars(999, 3)), "999");
    assert_eq!(s(zero_padded_chars(0, 3)), "000");
}

#[test]
fn zero_padding_never_cuts_digits() {
    assert_eq!(s(zero_padded_chars(1234, 3)), "1234");
    assert_eq!(s(zero_padded_chars(5, 0)), "5");
}

#[test]
fn zero_padding_agrees_with_format() {
    for n in [0u64, 1, 9, 10, 99, 100, 101, 999, 1000, 65535] {
        assert_eq!(s(zero_padded_chars(n, 3)), format!("{:03}", n));
    }
}

#[test]
fn string_round_trip_keeps_every_character() {
    let text = "Найдено: ab/c?d 日本";
    let chars = chars_of(text);
    assert_eq!(chars.len(), text.chars().count());
    assert_eq!(string_of(&chars), text);
}

#[test]
fn string_of_builds_in_order() {
    assert_eq!(string_of(&vec!['a', 'b', 'c']), "abc");
    assert_eq!(string_of(&vec![]), "");
}

#[test]
fn replace_swaps_the_size_marker() {
    assert_eq!(
        replace_all_str("https://i.pinimg.com/236x/35/60/3b/abc.jpg", "236x", "736x"),
        "https://i.pinimg.com/736x/35/60/3b/abc.jpg"
    );
}

#[test]
fn replace_swaps_every_occurrence() {
    assert_eq!(replace_all_str("236x/236x/a236xb", "236x", "736x"), "736x/736x/a736xb");
}

#[test]
fn replace_leaves_text_without_the_pattern() {
    assert_eq!(replace_all_str("https://i.pinimg.com/originals/a.png", "236x", "736x"), "https://i.pinimg.com/originals/a.png");
    assert_eq!(replace_all_str("", "236x", "736x"), "");
    assert_eq!(replace_all_str("236", "236x", "736x"), "236");
}

#[test]
fn replace_takes_occurrences_left_to_right_without_overlap() {
    assert_eq!(replace_all_str("aaa", "aa", "b"), "aaa".replace("aa", "b"));
    assert_eq!(replace_all_str("aaaa", "aa", "b"), "bb");
    assert_eq!(replace_all_str("abc", "b", ""), "ac");
    assert_eq!(replace_all_str("xax", "a", "long"), "xlongx");
}
