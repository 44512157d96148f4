use number_double_float::text::{
    exponential_text, fraction_zeros, large_fixed_text, pad_end, strip_points,
    zero_exponential_text, zero_fixed_text,
};

#[test]
fn pad_end_repeats_and_cuts_the_filler() {
    assert_eq!(pad_end(String::from("ab"), 7, String::from("xyz")), "abxyzxy");
}

#[test]
fn pad_end_keeps_a_long_enough_string() {
    assert_eq!(pad_end(String::from("abcd"), 3, String::from("0")), "abcd");
    assert_eq!(pad_end(String::from("abc"), 3, String::from("0")), "abc");
}

#[test]
fn pad_end_with_empty_filler_uses_spaces() {
    assert_eq!(pad_end(String::from("a"), 4, String::new()), "a   ");
}

#[test]
fn pad_end_of_empty_string() {
    assert_eq!(pad_end(String::new(), 3, String::from("0")), "000");
    assert_eq!(pad_end(String::new(), 0, String::from("0")), "");
}

#[test]
fn pad_end_counts_characters_not_bytes() {
    assert_eq!(pad_end(String::from("é"), 3, String::from("ü")), "éüü");
}

#[test]
fn fraction_zeros_forms() {
    assert_eq!(fraction_zeros(0), "");
    assert_eq!(fraction_zeros(1), ".0");
    assert_eq!(fraction_zeros(3), ".000");
}

#[test]
fn zero_texts() {
    assert_eq!(zero_fixed_text(0), "0");
    assert_eq!(zero_fixed_text(2), "0.00");
    assert_eq!(zero_exponential_text(0), "0e+0");
    assert_eq!(zero_exponential_text(2), "0.00e+0");
}

#[test]
fn strip_points_keeps_digits_and_sign() {
    assert_eq!(strip_points("1.2345"), "12345");
    assert_eq!(strip_points("-9.5"), "-95");
    assert_eq!(strip_points("7"), "7");
    assert_eq!(strip_points(""), "");
}

#[test]
fn exponential_text_of_large_exponent() {
    assert_eq!(exponential_text("1.00", "400"), "1.00e+400");
}

#[test]
fn exponential_text_of_negative_exponent() {
    assert_eq!(exponential_text("2.5", "-7"), "2.5e-7");
    assert_eq!(exponential_text("3", "0"), "3e+0");
}

#[test]
fn large_fixed_text_pads_digits() {
    assert_eq!(large_fixed_text("1.2345", 20, 0), "12345000000000000000");
    assert_eq!(large_fixed_text("1.5", 18, 2), "150000000000000000.00");
    assert_eq!(large_fixed_text("-2", 3, 0), "-200");
    assert_eq!(large_fixed_text("-1.5", 21, 0), "-150000000000000000000");
    assert_eq!(large_fixed_text("-1.5", 18, 1), "-150000000000000000.0");
}
