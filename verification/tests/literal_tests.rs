use pascal_front::literal::{
    parse_bool, parse_char, parse_int, parse_int_bin, parse_int_hex, parse_real, parse_real_bin,
    parse_real_hex, FromStrRadix, IntParseError, ParseFloatError, RealValue,
};

fn real_approx(v: &RealValue) -> f64 {
    (v.radix as f64).powf(-(v.scale as f64)) * v.mantissa as f64
}

#[test]
fn hexadecimal_integer_literal() {
    assert_eq!(parse_int_hex("0H1F"), Ok(31));
}

#[test]
fn binary_integer_literal() {
    assert_eq!(parse_int_bin("0B101"), Ok(5));
}

#[test]
fn decimal_integer_literals() {
    assert_eq!(parse_int("123"), Ok(123));
    assert_eq!(parse_int("0"), Ok(0));
    assert_eq!(parse_int("-5"), Ok(-5));
    assert_eq!(parse_int("+17"), Ok(17));
}

#[test]
fn integer_error_cases() {
    assert_eq!(parse_int(""), Err(IntParseError::Empty));
    assert_eq!(parse_int("-"), Err(IntParseError::Empty));
    assert_eq!(parse_int("12a"), Err(IntParseError::InvalidDigit));
    assert_eq!(parse_int("99999999999999999999"), Err(IntParseError::Overflow));
    assert_eq!(parse_int("-99999999999999999999"), Err(IntParseError::Overflow));
}

#[test]
fn extreme_integers_parse_exactly() {
    assert_eq!(parse_int("9223372036854775807"), Ok(i64::MAX));
    assert_eq!(parse_int("-9223372036854775808"), Ok(i64::MIN));
    assert_eq!(parse_int("9223372036854775808"), Err(IntParseError::Overflow));
}

#[test]
fn dotted_real_literal() {
    let v = parse_real("3.14").unwrap();
    assert_eq!(v, RealValue { mantissa: 314, scale: 2, radix: 10 });
    assert!((real_approx(&v) - 3.14).abs() < 1e-12);
}

#[test]
fn real_without_point_or_exponent_is_rejected() {
    assert_eq!(parse_real("314"), Err(ParseFloatError::MissingPoint));
}

#[test]
fn exponent_real_literal_scales_down() {
    // the exponent is read in decimal and scales the mantissa down
    let v = parse_real("2e3").unwrap();
    assert_eq!(v, RealValue { mantissa: 2, scale: 3, radix: 10 });
    let w = parse_real("7E-2").unwrap();
    assert_eq!(w, RealValue { mantissa: 7, scale: -2, radix: 10 });
}

#[test]
fn hexadecimal_real_literal() {
    let v = parse_real_hex("0H1F.8").unwrap();
    assert_eq!(v, RealValue { mantissa: 0x1F8, scale: 1, radix: 16 });
}

#[test]
fn binary_real_literal() {
    let v = parse_real_bin("0B101.1").unwrap();
    assert_eq!(v, RealValue { mantissa: 0b1011, scale: 1, radix: 2 });
    assert!((real_approx(&v) - 5.5).abs() < 1e-12);
}

#[test]
fn dotted_real_with_bad_digit_reports_the_integer_error() {
    assert_eq!(
        parse_real("3.x4"),
        Err(ParseFloatError::IntError(IntParseError::InvalidDigit))
    );
}

#[test]
fn boolean_literal_is_the_exact_lowercase_word() {
    assert!(parse_bool("true"));
    assert!(!parse_bool("false"));
    assert!(!parse_bool("True"));
    assert!(!parse_bool(""));
}

#[test]
fn character_literals_and_escapes() {
    assert_eq!(parse_char("'a'"), 'a');
    assert_eq!(parse_char("'\\n'"), '\n');
    assert_eq!(parse_char("'\\''"), '\'');
    assert_eq!(parse_char("'\\\\'"), '\\');
    assert_eq!(parse_char("'\\r'"), '\r');
    assert_eq!(parse_char("'\\b'"), '\x08');
    assert_eq!(parse_char("'\\v'"), '\x0b');
    assert_eq!(parse_char("'\\f'"), '\x0c');
}

#[test]
fn parse_failures_render_their_messages() {
    assert_eq!(
        ParseFloatError::MissingPoint.describe(),
        "Missing floating point"
    );
    assert_eq!(
        ParseFloatError::IntError(IntParseError::Overflow).describe(),
        "number too large to fit in target type"
    );
    assert_eq!(IntParseError::Empty.describe(), "cannot parse integer from empty string");
    assert_eq!(IntParseError::InvalidDigit.describe(), "invalid digit found in string");
}

#[test]
fn parsing_through_the_radix_trait() {
    assert_eq!(<i64 as FromStrRadix>::from_str_radix("ff", 16), Ok(255));
    assert_eq!(<i64 as FromStrRadix>::from_str_radix("101", 2), Ok(5));
    let v = <RealValue as FromStrRadix>::from_str_radix("1.5", 10).unwrap();
    assert_eq!(v, RealValue { mantissa: 15, scale: 1, radix: 10 });
}
