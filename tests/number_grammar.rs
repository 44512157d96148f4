use number_double_float::grammar::{scan_number, NumberText, ParseError};

fn scientific(m: &str, e: &str) -> NumberText {
    NumberText::Scientific { mantissa: String::from(m), exponent: String::from(e) }
}

#[test]
fn scan_nan_token() {
    assert_eq!(scan_number("NaN"), Ok(NumberText::NotANumber));
    assert_eq!(scan_number("nan"), Err(ParseError::Malformed));
}

#[test]
fn scan_plain_decimals() {
    assert_eq!(scan_number("123"), Ok(NumberText::Plain));
    assert_eq!(scan_number("-12.5"), Ok(NumberText::Plain));
    assert_eq!(scan_number("+.25"), Ok(NumberText::Plain));
    assert_eq!(scan_number("3."), Ok(NumberText::Plain));
    assert_eq!(scan_number("-0.0"), Ok(NumberText::Plain));
}

#[test]
fn scan_scientific_splits_at_e() {
    assert_eq!(scan_number("1e400"), Ok(scientific("1", "400")));
    assert_eq!(scan_number("-2.5e-7"), Ok(scientific("-2.5", "-7")));
    assert_eq!(scan_number("1.5e+3"), Ok(scientific("1.5", "+3")));
}

#[test]
fn scan_rejects_empty_text() {
    assert_eq!(scan_number(""), Err(ParseError::Empty));
}

#[test]
fn scan_rejects_malformed_text() {
    for s in ["abc", ".", "-", "1.2.3", "1e", "e5", "1e5e3", "1e2.5", "++1", "1 ", "1E5", "Infinity"] {
        assert_eq!(scan_number(s), Err(ParseError::Malformed), "{}", s);
    }
}
