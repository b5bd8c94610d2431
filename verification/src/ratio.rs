//! The bridge to `num_rational::Ratio`, the external rational-value type
//! that receives the parsed pair and reduces it to lowest terms.
//!
//! The parser's work ends with an exact, unreduced pair; `Ratio::new`
//! reduces it by the greatest common divisor and keeps the denominator
//! positive.  [`reduced_parts`] states that reduction, and each trusted
//! wrapper below promises that `Ratio::new` performs it.

use vstd::prelude::*;
use crate::parser::parse_flexible;
use crate::{ParseRatioError, RationalParse};

verus! {

/// `num_rational::Ratio`, the external pair-of-integers value type; its
/// contents are reachable in specifications through the `ratio_parts_*`
/// functions below.
#[verifier::external_type_specification]
#[verifier::external_body]
#[verifier::reject_recursive_types(T)]
pub struct ExRatio<T>(num_rational::Ratio<T>);

/// The magnitude of an integer.
pub open spec fn int_abs(n: int) -> nat {
    if n >= 0 {
        n as nat
    } else {
        (-n) as nat
    }
}

/// The greatest common divisor, by Euclid's recurrence.
pub open spec fn gcd_nat(a: nat, b: nat) -> nat
    decreases b,
{
    if b == 0 {
        a
    } else {
        gcd_nat(b, a % b)
    }
}

/// The pair `n / d` reduced to lowest terms, for a positive denominator:
/// both components are divided by their greatest common divisor, so the
/// denominator stays positive and the sign stays on the numerator.
pub open spec fn reduced_parts(n: int, d: int) -> Seq<int>
    recommends
        d > 0,
{
    let g = gcd_nat(int_abs(n), int_abs(d)) as int;
    seq![n / g, d / g]
}

/// The numerator and denominator held by a `Ratio<i8>`, in that order.
pub uninterp spec fn ratio_parts_i8(r: num_rational::Ratio<i8>) -> Seq<int>;

/// The numerator and denominator held by a `Ratio<i16>`, in that order.
pub uninterp spec fn ratio_parts_i16(r: num_rational::Ratio<i16>) -> Seq<int>;

/// The numerator and denominator held by a `Ratio<i32>`, in that order.
pub uninterp spec fn ratio_parts_i32(r: num_rational::Ratio<i32>) -> Seq<int>;

/// The numerator and denominator held by a `Ratio<i64>`, in that order.
pub uninterp spec fn ratio_parts_i64(r: num_rational::Ratio<i64>) -> Seq<int>;

/// The numerator and denominator held by a `Ratio<isize>`, in that order.
pub uninterp spec fn ratio_parts_isize(r: num_rational::Ratio<isize>) -> Seq<int>;

/// Relies on `num_rational::Ratio::<i8>::new`, which panics only on a zero
/// denominator and otherwise stores the fraction reduced by the gcd, with
/// the denominator kept positive.
#[verifier::external_body]
fn ratio_new_i8(n: i8, d: i8) -> (r: num_rational::Ratio<i8>)
    requires
        1 <= d,
        -127 <= n,
    ensures
        ratio_parts_i8(r) == reduced_parts(n as int, d as int),
{
    num_rational::Ratio::new(n, d)
}

/// Relies on `num_rational::Ratio::<i16>::new`, which panics only on a zero
/// denominator and otherwise stores the fraction reduced by the gcd, with
/// the denominator kept positive.
#[verifier::external_body]
fn ratio_new_i16(n: i16, d: i16) -> (r: num_rational::Ratio<i16>)
    requires
        1 <= d,
        -32767 <= n,
    ensures
        ratio_parts_i16(r) == reduced_parts(n as int, d as int),
{
    num_rational::Ratio::new(n, d)
}

/// Relies on `num_rational::Ratio::<i32>::new`, which panics only on a zero
/// denominator and otherwise stores the fraction reduced by the gcd, with
/// the denominator kept positive.
#[verifier::external_body]
fn ratio_new_i32(n: i32, d: i32) -> (r: num_rational::Ratio<i32>)
    requires
        1 <= d,
        -2147483647 <= n,
    ensures
        ratio_parts_i32(r) == reduced_parts(n as int, d as int),
{
    num_rational::Ratio::new(n, d)
}

/// Relies on `num_rational::Ratio::<i64>::new`, which panics only on a zero
/// denominator and otherwise stores the fraction reduced by the gcd, with
/// the denominator kept positive.
#[verifier::external_body]
fn ratio_new_i64(n: i64, d: i64) -> (r: num_rational::Ratio<i64>)
    requires
        1 <= d,
        -9223372036854775807 <= n,
    ensures
        ratio_parts_i64(r) == reduced_parts(n as int, d as int),
{
    num_rational::Ratio::new(n, d)
}

/// Relies on `num_rational::Ratio::<isize>::new`, which panics only on a
/// zero denominator and otherwise stores the fraction reduced by the gcd,
/// with the denominator kept positive.
#[verifier::external_body]
fn ratio_new_isize(n: isize, d: isize) -> (r: num_rational::Ratio<isize>)
    requires
        1 <= d,
        -isize::MAX <= n,
    ensures
        ratio_parts_isize(r) == reduced_parts(n as int, d as int),
{
    num_rational::Ratio::new(n, d)
}

impl RationalParse for num_rational::Ratio<i8> {
    open spec fn target_max() -> int {
        i8::MAX as int
    }

    open spec fn result_parts(r: Self) -> Seq<int> {
        ratio_parts_i8(r)
    }

    fn from_str_flex(s: &str) -> Result<Self, ParseRatioError> {
        match parse_flexible(s, i8::MAX as i64) {
            Ok(p) => Ok(ratio_new_i8(p.0 as i8, p.1 as i8)),
            Err(e) => Err(e),
        }
    }
}

impl RationalParse for num_rational::Ratio<i16> {
    open spec fn target_max() -> int {
        i16::MAX as int
    }

    open spec fn result_parts(r: Self) -> Seq<int> {
        ratio_parts_i16(r)
    }

    fn from_str_flex(s: &str) -> Result<Self, ParseRatioError> {
        match parse_flexible(s, i16::MAX as i64) {
            Ok(p) => Ok(ratio_new_i16(p.0 as i16, p.1 as i16)),
            Err(e) => Err(e),
        }
    }
}

impl RationalParse for num_rational::Ratio<i32> {
    open spec fn target_max() -> int {
        i32::MAX as int
    }

    open spec fn result_parts(r: Self) -> Seq<int> {
        ratio_parts_i32(r)
    }

    fn from_str_flex(s: &str) -> Result<Self, ParseRatioError> {
        match parse_flexible(s, i32::MAX as i64) {
            Ok(p) => Ok(ratio_new_i32(p.0 as i32, p.1 as i32)),
            Err(e) => Err(e),
        }
    }
}

impl RationalParse for num_rational::Ratio<i64> {
    open spec fn target_max() -> int {
        i64::MAX as int
    }

    open spec fn result_parts(r: Self) -> Seq<int> {
        ratio_parts_i64(r)
    }

    fn from_str_flex(s: &str) -> Result<Self, ParseRatioError> {
        match parse_flexible(s, i64::MAX) {
            Ok(p) => Ok(ratio_new_i64(p.0, p.1)),
            Err(e) => Err(e),
        }
    }
}

impl RationalParse for num_rational::Ratio<isize> {
    open spec fn target_max() -> int {
        isize::MAX as int
    }

    open spec fn result_parts(r: Self) -> Seq<int> {
        ratio_parts_isize(r)
    }

    fn from_str_flex(s: &str) -> Result<Self, ParseRatioError> {
        match parse_flexible(s, isize::MAX as i64) {
            Ok(p) => Ok(ratio_new_isize(p.0 as isize, p.1 as isize)),
            Err(e) => Err(e),
        }
    }
}

} // verus!
