//! Flexible string parsing for rational numbers.
//!
//! A string such as `"3.1415"`, `"-35/4"`, `"-47e-2"` or `"1_000/2_000"` is
//! parsed into an exact numerator/denominator pair over a bounded signed
//! integer type, with every arithmetic step checked for overflow.  The
//! accepted grammar mirrors the decimal-literal conventions of dynamic
//! languages: optional sign, digit groups separated by single underscores,
//! an explicit fraction (`n/d`), a decimal point, or a scientific-notation
//! exponent, with whitespace tolerated only at the ends of the string and
//! around the `/` of a fraction.
//!
//! The result is handed to `num_rational::Ratio`, which reduces it to lowest
//! terms; the parser itself neither reduces nor normalizes.

use vstd::prelude::*;

pub mod grammar;
pub mod laws;
pub mod parser;
pub mod ratio;

verus! {

/// The specific type of error that occurred during parsing.
#[derive(Copy, Clone, Debug, PartialEq, Eq, Hash, Structural)]
#[non_exhaustive]
pub enum RatioErrorKind {
    /// The string could not be parsed as a ratio.
    ///
    /// This occurs if the input string does not match the expected format
    /// (e.g., contains invalid characters or is empty).
    ParseError,
    /// The denominator was zero.
    ///
    /// Ratios cannot have a zero denominator.
    ZeroDenominator,
    /// The parsed value cannot be represented by the target type.
    ///
    /// This occurs if the numerator, denominator, or intermediate values
    /// overflow the capacity of the integer type.
    Overflow,
}

impl RatioErrorKind {
    /// A stable textual description of this error kind.
    pub fn description(&self) -> (r: &'static str)
        ensures
            *self == RatioErrorKind::ParseError ==> r@ == "failed to parse integer"@,
            *self == RatioErrorKind::ZeroDenominator ==> r@ == "zero value denominator"@,
            *self == RatioErrorKind::Overflow ==> r@ == "overflow"@,
    {
        match *self {
            RatioErrorKind::ParseError => "failed to parse integer",
            RatioErrorKind::ZeroDenominator => "zero value denominator",
            RatioErrorKind::Overflow => "overflow",
        }
    }
}

/// An error which can be returned when parsing a ratio.
#[derive(Copy, Clone, Debug, PartialEq, Eq, Structural)]
pub struct ParseRatioError {
    kind: RatioErrorKind,
}

impl ParseRatioError {
    /// The kind carried by this error, as a spec-level value.
    pub closed spec fn spec_kind(&self) -> RatioErrorKind {
        self.kind
    }

    /// Packages an error kind as a `ParseRatioError`.
    pub fn new(kind: RatioErrorKind) -> (r: Self)
        ensures
            r.spec_kind() == kind,
    {
        ParseRatioError { kind }
    }

    /// Returns the specific type of error that occurred.
    pub fn kind(&self) -> (r: &RatioErrorKind)
        ensures
            *r == self.spec_kind(),
    {
        &self.kind
    }

    /// A stable textual description of this error.
    pub fn description(&self) -> (r: &'static str)
        ensures
            self.spec_kind() == RatioErrorKind::ParseError ==> r@ == "failed to parse integer"@,
            self.spec_kind() == RatioErrorKind::ZeroDenominator ==> r@ == "zero value denominator"@,
            self.spec_kind() == RatioErrorKind::Overflow ==> r@ == "overflow"@,
    {
        self.kind.description()
    }
}

/// A trait for parsing a string into a rational number with flexible formats,
/// generalizing the decimal-literal conventions of dynamic languages:
/// fractions (`"1/2"`), decimals (`"1.5"`) and scientific notation
/// (`"1.2e-3"`, `"1E5"`).
///
/// The contract of [`RationalParse::from_str_flex`] pins the outcome down
/// exactly: the string is matched against [`grammar::spec_parse`] over the
/// range of the target type, and on success the returned value holds the
/// parsed pair reduced to lowest terms, as [`ratio::reduced_parts`] states.
pub trait RationalParse: Sized {
    /// The largest value the target integer type can hold.
    spec fn target_max() -> int;

    /// The numerator and denominator held by a parsed value, in that order.
    spec fn result_parts(r: Self) -> Seq<int>;

    /// Parses a string into a rational number.
    ///
    /// The input string can be in various formats:
    /// - `"-35/4"` (Fraction)
    /// - `"3.1415"` (Decimal)
    /// - `"-47e-2"` (Scientific notation)
    ///
    /// # Errors
    ///
    /// Returns [`ParseRatioError`] if the string is not a valid rational
    /// number string or if it represents a valid number that cannot be
    /// represented by the target type (e.g. overflow).
    fn from_str_flex(s: &str) -> (r: Result<Self, ParseRatioError>)
        ensures
            ({
                let sp = crate::grammar::spec_parse(s@, Self::target_max());
                match r {
                    Ok(v) => sp is Ok && Self::result_parts(v) == crate::ratio::reduced_parts(
                        sp->Ok_0.0,
                        sp->Ok_0.1,
                    ),
                    Err(e) => sp is Err && e.spec_kind() == sp->Err_0,
                }
            }),
    ;
}

} // verus!
