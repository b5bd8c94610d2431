//! The mathematical model of the accepted grammar and of the assembly of a
//! token set into an exact numerator/denominator pair.
//!
//! The grammar, written as a pattern, is
//!
//! ```text
//!   ws* sign? digits? ( ws* "/" ws* digits | ("." digits?)? (("e"|"E") sign? digits)? ) ws*
//! ```
//!
//! where every `digits` is a nonempty run of ASCII decimal digits broken into
//! groups by single underscores (no leading, trailing or doubled underscore),
//! except that the integer part and the fractional part may be empty.  A match
//! in which the integer part and the fractional part are both absent is
//! rejected afterwards, as are a zero denominator and any value that does not
//! fit the bounded target type.
//!
//! `tokenize` is deterministic: each run of digits and separators is maximal,
//! and the fraction alternative is taken exactly when a `/` follows the
//! integer part (after optional whitespace).

use vstd::prelude::*;
use crate::RatioErrorKind;

verus! {

/// Whitespace accepted at the ends of the input and around the `/` separator.
pub open spec fn is_space_char(c: char) -> bool {
    c == ' ' || c == '\t' || c == '\n' || c == '\r' || c == '\x0b' || c == '\x0c'
}

/// An ASCII decimal digit; digit-like glyphs outside ASCII are not digits.
pub open spec fn is_digit_char(c: char) -> bool {
    48 <= c as int && c as int <= 57
}

/// A character allowed inside a digit run: a digit or a group separator.
pub open spec fn is_run_char(c: char) -> bool {
    is_digit_char(c) || c == '_'
}

/// The numeric value of a single decimal digit.
pub open spec fn digit_val(c: char) -> int {
    c as int - 48
}

/// The first index at or after `i` that does not hold whitespace.
pub open spec fn ws_end(s: Seq<char>, i: int) -> int
    decreases s.len() - i,
{
    if 0 <= i && i < s.len() && is_space_char(s[i]) {
        ws_end(s, i + 1)
    } else {
        i
    }
}

/// The end of the maximal run of digits and separators starting at `i`.
pub open spec fn run_end(s: Seq<char>, i: int) -> int
    decreases s.len() - i,
{
    if 0 <= i && i < s.len() && is_run_char(s[i]) {
        run_end(s, i + 1)
    } else {
        i
    }
}

/// A nonempty digit run with single interior underscores: it starts and ends
/// with a digit, holds only digits and underscores, and never two underscores
/// in a row.
pub open spec fn is_digit_run(t: Seq<char>) -> bool {
    &&& t.len() > 0
    &&& is_digit_char(t[0])
    &&& is_digit_char(t[t.len() - 1])
    &&& (forall|k: int| 0 <= k < t.len() ==> is_run_char(#[trigger] t[k]))
    &&& (forall|k: int| 0 < k < t.len() ==> !(#[trigger] t[k] == '_' && t[k - 1] == '_'))
}

/// The digit run with its group separators removed.
pub open spec fn strip_seps(t: Seq<char>) -> Seq<char>
    decreases t.len(),
{
    if t.len() == 0 {
        Seq::empty()
    } else if t.last() == '_' {
        strip_seps(t.drop_last())
    } else {
        strip_seps(t.drop_last()).push(t.last())
    }
}

/// The value of a sequence of decimal digits, most significant first.
pub open spec fn digit_seq_val(t: Seq<char>) -> int
    decreases t.len(),
{
    if t.len() == 0 {
        0
    } else {
        digit_seq_val(t.drop_last()) * 10 + digit_val(t.last())
    }
}

/// The sequence with its trailing `'0'` characters removed.
pub open spec fn trim_trailing_zeros(t: Seq<char>) -> Seq<char>
    decreases t.len(),
{
    if t.len() > 0 && t.last() == '0' {
        trim_trailing_zeros(t.drop_last())
    } else {
        t
    }
}

/// Ten to the power `k`.
pub open spec fn pow10(k: nat) -> int
    decreases k,
{
    if k == 0 {
        1
    } else {
        10 * pow10((k - 1) as nat)
    }
}

/// The token set extracted by the grammar: sign, integer part, denominator,
/// fractional part and exponent, each a raw substring of the input (digit
/// runs still carry their separators).
pub ghost struct RatioTokens {
    /// The sign token is `-`.
    pub negative: bool,
    /// The integer part; may be empty.
    pub int_part: Seq<char>,
    /// The denominator of an explicit fraction, when that alternative matched.
    pub denom_part: Option<Seq<char>>,
    /// The fractional part after a decimal point; present but possibly empty
    /// when a point was written.
    pub frac_part: Option<Seq<char>>,
    /// The exponent's sign token is `-`.
    pub exp_negative: bool,
    /// The exponent's digits, without their sign.
    pub exp_part: Option<Seq<char>>,
}

/// Matches the input against the grammar and extracts the token set;
/// `None` is a grammar mismatch.
pub open spec fn tokenize(s: Seq<char>) -> Option<RatioTokens> {
    let i0 = ws_end(s, 0);
    let has_sign = i0 < s.len() && (s[i0] == '+' || s[i0] == '-');
    let negative = i0 < s.len() && s[i0] == '-';
    let i1 = if has_sign { i0 + 1 } else { i0 };
    let i2 = run_end(s, i1);
    let int_part = s.subrange(i1, i2);
    if int_part.len() > 0 && !is_digit_run(int_part) {
        None
    } else {
        let j = ws_end(s, i2);
        if j < s.len() && s[j] == '/' {
            let j2 = ws_end(s, j + 1);
            let j3 = run_end(s, j2);
            let denom_part = s.subrange(j2, j3);
            if is_digit_run(denom_part) && ws_end(s, j3) == s.len() {
                Some(RatioTokens {
                    negative,
                    int_part,
                    denom_part: Some(denom_part),
                    frac_part: None,
                    exp_negative: false,
                    exp_part: None,
                })
            } else {
                None
            }
        } else {
            let has_dot = i2 < s.len() && s[i2] == '.';
            let k1 = if has_dot { i2 + 1 } else { i2 };
            let k2 = if has_dot { run_end(s, k1) } else { i2 };
            let frac = s.subrange(k1, k2);
            if has_dot && frac.len() > 0 && !is_digit_run(frac) {
                None
            } else {
                let has_e = k2 < s.len() && (s[k2] == 'e' || s[k2] == 'E');
                if has_e {
                    let m0 = k2 + 1;
                    let exp_has_sign = m0 < s.len() && (s[m0] == '+' || s[m0] == '-');
                    let exp_negative = m0 < s.len() && s[m0] == '-';
                    let m1 = if exp_has_sign { m0 + 1 } else { m0 };
                    let m2 = run_end(s, m1);
                    let exp_part = s.subrange(m1, m2);
                    if is_digit_run(exp_part) && ws_end(s, m2) == s.len() {
                        Some(RatioTokens {
                            negative,
                            int_part,
                            denom_part: None,
                            frac_part: if has_dot { Some(frac) } else { None },
                            exp_negative,
                            exp_part: Some(exp_part),
                        })
                    } else {
                        None
                    }
                } else {
                    if ws_end(s, k2) == s.len() {
                        Some(RatioTokens {
                            negative,
                            int_part,
                            denom_part: None,
                            frac_part: if has_dot { Some(frac) } else { None },
                            exp_negative: false,
                            exp_part: None,
                        })
                    } else {
                        None
                    }
                }
            }
        }
    }
}

/// The largest exponent magnitude a negative exponent token may carry before
/// it stops being a plain 32-bit signed integer.
pub open spec fn exp_neg_limit() -> int {
    2147483648
}

/// The largest exponent magnitude a non-negative exponent token may carry.
pub open spec fn exp_pos_limit() -> int {
    2147483647
}

/// Converts the token set into the exact numerator/denominator pair, with
/// every arithmetic step checked against the target type's bound `max`.
///
/// The checks happen in the order the assembly performs them, so that the
/// reported error kind is the first failure: the presence guard, then the
/// integer part's conversion, then (for a fraction) the denominator's
/// conversion and the zero test, or (for a decimal) the power of ten, the
/// fractional digits and the combined numerator, then the exponent's own
/// integer parse and scaling.
pub open spec fn assemble(t: RatioTokens, max: int) -> Result<(int, int), RatioErrorKind> {
    let frac_has_digits = t.frac_part is Some && t.frac_part->0.len() > 0;
    if t.int_part.len() == 0 && !frac_has_digits {
        Err(RatioErrorKind::ParseError)
    } else {
        let nv = digit_seq_val(strip_seps(t.int_part));
        if nv > max {
            Err(RatioErrorKind::Overflow)
        } else if t.denom_part is Some {
            let dv = digit_seq_val(strip_seps(t.denom_part->0));
            if dv > max {
                Err(RatioErrorKind::Overflow)
            } else if dv == 0 {
                Err(RatioErrorKind::ZeroDenominator)
            } else {
                Ok(((if t.negative { -nv } else { nv }), dv))
            }
        } else {
            let tdec = if t.frac_part is Some {
                strip_seps(trim_trailing_zeros(t.frac_part->0))
            } else {
                Seq::empty()
            };
            let k = tdec.len();
            let fv = digit_seq_val(tdec);
            if pow10(k) > max || fv > max || nv * pow10(k) + fv > max {
                Err(RatioErrorKind::Overflow)
            } else {
                let n1 = nv * pow10(k) + fv;
                let d1 = pow10(k);
                if t.exp_part is Some {
                    let ev = digit_seq_val(strip_seps(t.exp_part->0));
                    if (t.exp_negative && ev > exp_neg_limit()) || (!t.exp_negative && ev
                        > exp_pos_limit()) {
                        Err(RatioErrorKind::ParseError)
                    } else if pow10(ev as nat) > max {
                        Err(RatioErrorKind::Overflow)
                    } else if !t.exp_negative {
                        if n1 * pow10(ev as nat) > max {
                            Err(RatioErrorKind::Overflow)
                        } else {
                            let n2 = n1 * pow10(ev as nat);
                            Ok(((if t.negative { -n2 } else { n2 }), d1))
                        }
                    } else {
                        if d1 * pow10(ev as nat) > max {
                            Err(RatioErrorKind::Overflow)
                        } else {
                            Ok(((if t.negative { -n1 } else { n1 }), d1 * pow10(ev as nat)))
                        }
                    }
                } else {
                    Ok(((if t.negative { -n1 } else { n1 }), d1))
                }
            }
        }
    }
}

/// What a parse of `s` into a type bounded by `max` returns: the exact pair,
/// or the kind of the first failure.
pub open spec fn spec_parse(s: Seq<char>, max: int) -> Result<(int, int), RatioErrorKind> {
    match tokenize(s) {
        None => Err(RatioErrorKind::ParseError),
        Some(t) => assemble(t, max),
    }
}

/// `ws_end` lands between `i` and the end, on the first non-space character.
pub proof fn lemma_ws_end(s: Seq<char>, i: int)
    requires
        0 <= i <= s.len(),
    ensures
        i <= ws_end(s, i) <= s.len(),
        ws_end(s, i) < s.len() ==> !is_space_char(s[ws_end(s, i)]),
        forall|q: int| i <= q < ws_end(s, i) ==> is_space_char(#[trigger] s[q]),
    decreases s.len() - i,
{
    if i < s.len() && is_space_char(s[i]) {
        lemma_ws_end(s, i + 1);
    }
}

/// `run_end` lands between `i` and the end, on the first character that is
/// neither a digit nor a separator.
pub proof fn lemma_run_end(s: Seq<char>, i: int)
    requires
        0 <= i <= s.len(),
    ensures
        i <= run_end(s, i) <= s.len(),
        run_end(s, i) < s.len() ==> !is_run_char(s[run_end(s, i)]),
        forall|q: int| i <= q < run_end(s, i) ==> is_run_char(#[trigger] s[q]),
    decreases s.len() - i,
{
    if i < s.len() && is_run_char(s[i]) {
        lemma_run_end(s, i + 1);
    }
}

/// The value of a digit sequence is never negative.
pub proof fn lemma_digit_seq_val_nonneg(t: Seq<char>)
    requires
        forall|k: int| 0 <= k < t.len() ==> is_digit_char(#[trigger] t[k]),
    ensures
        digit_seq_val(t) >= 0,
    decreases t.len(),
{
    if t.len() > 0 {
        lemma_digit_seq_val_nonneg(t.drop_last());
    }
}

/// Dropping trailing digits can only shrink the value of a digit sequence.
pub proof fn lemma_digit_seq_val_prefix_le(t: Seq<char>, i: int)
    requires
        forall|k: int| 0 <= k < t.len() ==> is_digit_char(#[trigger] t[k]),
        0 <= i <= t.len(),
    ensures
        digit_seq_val(t.subrange(0, i)) <= digit_seq_val(t),
    decreases t.len(),
{
    if i == t.len() {
        assert(t.subrange(0, i) =~= t);
    } else {
        let d = t.drop_last();
        lemma_digit_seq_val_nonneg(d);
        assert(t.subrange(0, i) =~= d.subrange(0, i));
        lemma_digit_seq_val_prefix_le(d, i);
    }
}

/// A power of ten is at least one.
pub proof fn lemma_pow10_pos(k: nat)
    ensures
        pow10(k) >= 1,
    decreases k,
{
    if k > 0 {
        lemma_pow10_pos((k - 1) as nat);
    }
}

/// Powers of ten grow with the exponent.
pub proof fn lemma_pow10_le(i: nat, j: nat)
    requires
        i <= j,
    ensures
        pow10(i) <= pow10(j),
    decreases j,
{
    if i < j {
        lemma_pow10_le(i, (j - 1) as nat);
        lemma_pow10_pos((j - 1) as nat);
    }
}

/// Skipping whitespace passes through a region known to hold only spaces.
pub proof fn lemma_ws_end_through(s: Seq<char>, i: int, j: int)
    requires
        0 <= i <= j <= s.len(),
        forall|q: int| i <= q < j ==> is_space_char(#[trigger] s[q]),
    ensures
        ws_end(s, i) == ws_end(s, j),
    decreases j - i,
{
    if i < j {
        lemma_ws_end_through(s, i + 1, j);
    }
}

/// Scanning a run passes through a region known to hold only digits and
/// separators.
pub proof fn lemma_run_end_through(s: Seq<char>, i: int, j: int)
    requires
        0 <= i <= j <= s.len(),
        forall|q: int| i <= q < j ==> is_run_char(#[trigger] s[q]),
    ensures
        run_end(s, i) == run_end(s, j),
    decreases j - i,
{
    if i < j {
        lemma_run_end_through(s, i + 1, j);
    }
}

/// Skipping whitespace inside the right part of a concatenation is skipping
/// it in that part alone, shifted.
pub proof fn lemma_ws_end_shift(p: Seq<char>, t: Seq<char>, i: int)
    requires
        p.len() <= i <= p.len() + t.len(),
    ensures
        ws_end(p + t, i) == p.len() + ws_end(t, i - p.len()),
    decreases p.len() + t.len() - i,
{
    let s = p + t;
    if i < s.len() && is_space_char(s[i]) {
        lemma_ws_end_shift(p, t, i + 1);
    }
}

/// Scanning a run inside the right part of a concatenation is scanning it in
/// that part alone, shifted.
pub proof fn lemma_run_end_shift(p: Seq<char>, t: Seq<char>, i: int)
    requires
        p.len() <= i <= p.len() + t.len(),
    ensures
        run_end(p + t, i) == p.len() + run_end(t, i - p.len()),
    decreases p.len() + t.len() - i,
{
    let s = p + t;
    if i < s.len() && is_run_char(s[i]) {
        lemma_run_end_shift(p, t, i + 1);
    }
}

/// Appending whitespace does not move the end of a run.
pub proof fn lemma_run_end_append(s: Seq<char>, w: Seq<char>, i: int)
    requires
        0 <= i <= s.len(),
        forall|q: int| 0 <= q < w.len() ==> is_space_char(#[trigger] w[q]),
    ensures
        run_end(s + w, i) == run_end(s, i),
    decreases s.len() - i,
{
    let u = s + w;
    if i < s.len() {
        if is_run_char(s[i]) {
            lemma_run_end_append(s, w, i + 1);
        }
    } else {
        if w.len() > 0 {
            assert(u[i] == w[0]);
        }
    }
}

/// Appending whitespace leaves a whitespace skip alone unless it reached the
/// end, in which case it now runs through the appended part.
pub proof fn lemma_ws_end_append(s: Seq<char>, w: Seq<char>, i: int)
    requires
        0 <= i <= s.len(),
        forall|q: int| 0 <= q < w.len() ==> is_space_char(#[trigger] w[q]),
    ensures
        ws_end(s + w, i) == if ws_end(s, i) < s.len() {
            ws_end(s, i)
        } else {
            s.len() + w.len() as int
        },
    decreases s.len() - i,
{
    let u = s + w;
    if i < s.len() && is_space_char(s[i]) {
        lemma_ws_end_append(s, w, i + 1);
    } else if i == s.len() {
        assert(forall|q: int| i <= q < u.len() ==> is_space_char(#[trigger] u[q]));
        lemma_ws_end_through(u, i, u.len() as int);
    }
}

} // verus!
