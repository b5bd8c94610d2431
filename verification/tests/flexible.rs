use num_rational::Ratio;
use num_rational_parse::parser::parse_flexible;
use num_rational_parse::{ParseRatioError, RatioErrorKind, RationalParse};

const I32_MAX: i64 = 2147483647;

fn pair(s: &str) -> (i64, i64) {
    parse_flexible(s, I32_MAX).unwrap_or_else(|_| panic!("Failed to parse {}", s))
}

fn err_kind(s: &str) -> RatioErrorKind {
    *parse_flexible(s, I32_MAX).unwrap_err().kind()
}

#[test]
fn test_integer_round_trip() {
    assert_eq!((314, 1), pair("314"));
    assert_eq!((0, 1), pair("0"));
    assert_eq!((-7, 1), pair("-7"));
    assert_eq!((7, 1), pair("+7"));
    assert_eq!((2147483647, 1), pair("2147483647"));
}

#[test]
fn test_fraction_pair_unreduced() {
    // The parser hands the pair over exactly as written; reduction is the
    // value type's job.
    assert_eq!((1000, 2000), pair("1_000/2_000"));
    assert_eq!((-1000, 2000), pair("-1_000/2_000"));
    assert_eq!(
        Ratio::<i32>::from_str_flex("-1_000/2_000").unwrap(),
        Ratio::new(-1, 2)
    );
}

#[test]
fn test_decimal_pair_unreduced() {
    assert_eq!((31415, 10000), pair("3.1415"));
    assert_eq!((225, 100), pair("2.25"));
}

#[test]
fn test_trailing_zero_trimming() {
    assert_eq!((1, 1), pair("1.0000000000"));
    assert_eq!((150, 100), pair("1.50_0"));
}

#[test]
fn test_scientific_pair() {
    assert_eq!((-47, 100), pair("-47e-2"));
    assert_eq!((1230000, 100), pair("1.23e4"));
    assert_eq!((32, 100000), pair("32.e-5"));
}

#[test]
fn test_whitespace_ends_only() {
    assert_eq!(pair("3/2"), pair(" \t\n 3/2 \n "));
    assert_eq!(pair("-3.2"), pair("  -3.2  "));
    assert_eq!(RatioErrorKind::ParseError, err_kind("3.2 e1"));
    assert_eq!(RatioErrorKind::ParseError, err_kind("+ 3"));
}

#[test]
fn test_underscore_rules() {
    assert_eq!((123, 1), pair("1_2_3"));
    assert_eq!(RatioErrorKind::ParseError, err_kind("_1"));
    assert_eq!(RatioErrorKind::ParseError, err_kind("1_"));
    assert_eq!(RatioErrorKind::ParseError, err_kind("1__2"));
    assert_eq!(RatioErrorKind::ParseError, err_kind("_"));
}

#[test]
fn test_overflow_boundary_bounds() {
    // Eight-bit target
    assert_eq!(Ok((127, 1)), parse_flexible("127", 127).map_err(|_| ()));
    assert_eq!(
        RatioErrorKind::Overflow,
        *parse_flexible("128", 127).unwrap_err().kind()
    );
    // Thirty-two-bit target
    assert_eq!((2147483647, 1), pair("2147483647"));
    assert_eq!(RatioErrorKind::Overflow, err_kind("2147483648"));
}

#[test]
fn test_zero_denominator_distinct() {
    assert_eq!(RatioErrorKind::ZeroDenominator, err_kind("1/0"));
    assert_eq!(RatioErrorKind::ParseError, err_kind("1/"));
    assert_ne!(err_kind("1/0"), err_kind("1/"));
}

#[test]
fn test_error_kind_idempotent() {
    let inputs = ["invalid", "1/0", "2147483648", "1__2", "1e99999999999999999999"];
    for s in inputs {
        assert_eq!(err_kind(s), err_kind(s));
    }
}

#[test]
fn test_exponent_integer_parse_error() {
    // An exponent that is not a plain 32-bit integer is malformed, not an
    // overflow.
    assert_eq!(RatioErrorKind::ParseError, err_kind("1e99999999999999999999"));
    assert_eq!(RatioErrorKind::Overflow, err_kind("1e2147483647"));
    // The most negative 32-bit exponent still parses; one beyond it does not.
    assert_eq!(RatioErrorKind::Overflow, err_kind("1e-2147483648"));
    assert_eq!(RatioErrorKind::ParseError, err_kind("1e-2147483649"));
    // The power of ten is checked even when the mantissa is zero.
    assert_eq!(RatioErrorKind::Overflow, err_kind("0e50"));
}

#[test]
fn test_descriptions() {
    assert_eq!(
        "failed to parse integer",
        RatioErrorKind::ParseError.description()
    );
    assert_eq!(
        "zero value denominator",
        RatioErrorKind::ZeroDenominator.description()
    );
    assert_eq!("overflow", RatioErrorKind::Overflow.description());
    assert_eq!(
        "zero value denominator",
        parse_flexible("1/0", I32_MAX).unwrap_err().description()
    );
}

#[test]
fn test_sixteen_bit_target() {
    type Rational16 = Ratio<i16>;
    assert_eq!(
        Rational16::from_str_flex("32767").unwrap(),
        Rational16::new(32767, 1)
    );
    assert_eq!(
        *Rational16::from_str_flex("32768").unwrap_err().kind(),
        RatioErrorKind::Overflow
    );
    assert_eq!(
        Rational16::from_str_flex("1.50_0").unwrap(),
        Rational16::new(3, 2)
    );
}

#[test]
fn test_digitless_inputs() {
    // A match with neither integer nor fractional digits is malformed.
    assert_eq!(RatioErrorKind::ParseError, err_kind(""));
    assert_eq!(RatioErrorKind::ParseError, err_kind("   "));
    assert_eq!(RatioErrorKind::ParseError, err_kind("+"));
    assert_eq!(RatioErrorKind::ParseError, err_kind("."));
    assert_eq!(RatioErrorKind::ParseError, err_kind(".e5"));
    assert_eq!(RatioErrorKind::ParseError, err_kind("e5"));
    assert_eq!(RatioErrorKind::ParseError, err_kind("--3"));
    assert_eq!(RatioErrorKind::ParseError, err_kind("1/2e3"));
}

#[test]
fn test_error_construction() {
    let e = ParseRatioError::new(RatioErrorKind::Overflow);
    assert_eq!(RatioErrorKind::Overflow, *e.kind());
    assert_eq!("overflow", e.description());
}
