use local_bite::numbers::{read_decimal, DecimalReading, Number};
use local_bite::text::{ascii_lower_eq, blank, starts_with, str_eq, trim, trim_end_char};

#[test]
fn decimals_read_in_thousandths() {
    assert_eq!(read_decimal("2"), DecimalReading::Milli(2000));
    assert_eq!(read_decimal("2.50"), DecimalReading::Milli(2500));
    assert_eq!(read_decimal("0.001"), DecimalReading::Milli(1));
    assert_eq!(read_decimal("-1.5"), DecimalReading::Milli(-1500));
    assert_eq!(read_decimal("1.2000"), DecimalReading::Milli(1200));
    assert_eq!(read_decimal("1e3"), DecimalReading::Milli(1_000_000));
    assert_eq!(read_decimal("0.0009"), DecimalReading::Fractional { negative: false });
    assert_eq!(read_decimal("-1.2345"), DecimalReading::Fractional { negative: true });
    assert_eq!(read_decimal("99999999999999999999"), DecimalReading::Huge { negative: false });
    assert_eq!(read_decimal("-99999999999999999999"), DecimalReading::Huge { negative: true });
    assert_eq!(read_decimal("abc"), DecimalReading::Malformed);
    assert_eq!(read_decimal(""), DecimalReading::Malformed);
}

#[test]
fn numbers_from_floats_and_stored_amounts() {
    let n = Number::from_float(true, false, true, &2.5f64.to_string());
    assert_eq!(n.stored, DecimalReading::Milli(2500));
    let inf = Number::from_float(false, false, true, &f64::INFINITY.to_string());
    assert_eq!(inf.stored, DecimalReading::Milli(0));
    let m = Number::from_milli(-3);
    assert!(m.negative && !m.positive && m.finite);
    assert_eq!(m.stored, DecimalReading::Milli(-3));
}

#[test]
fn text_helpers_match_std() {
    for s in ["", "  a b  ", "\t\nx\u{3000}", "plain", "\u{a0}y"] {
        assert_eq!(trim(s), s.trim());
        assert_eq!(blank(s), s.trim().is_empty());
    }
    assert!(str_eq("kg", "kg"));
    assert!(!str_eq("kg", "Kg"));
    assert!(ascii_lower_eq("Food", "food"));
    assert!(!ascii_lower_eq("Food", "foods"));
    assert!(starts_with("image/png", "image/"));
    assert!(!starts_with("im", "image/"));
    assert_eq!(trim_end_char("a///", '/'), "a");
    assert_eq!(local_bite::text::concat("ab", "cd"), "abcd");
}
