//! The executable parser: scanning helpers, checked numeric conversion, and
//! the single-pass tokenizer and assembler, each proved against the model in
//! [`crate::grammar`].

use vstd::prelude::*;
use vstd::std_specs::iter::IteratorSpec;
use crate::{ParseRatioError, RatioErrorKind};
use crate::grammar::{
    is_space_char, is_digit_char, is_run_char, ws_end, run_end, is_digit_run, strip_seps,
    digit_seq_val, trim_trailing_zeros, pow10, RatioTokens, tokenize, assemble, spec_parse,
    lemma_run_end, lemma_digit_seq_val_prefix_le, lemma_pow10_le,
};

verus! {

/// Collects the characters of a string into a vector, so that the parser can
/// index them in constant time.
fn chars_of(s: &str) -> (v: Vec<char>)
    ensures
        v@ == s@,
{
    broadcast use vstd::string::group_string_axioms;

    let mut it = s.chars();
    let mut v: Vec<char> = Vec::new();
    loop
        invariant
            it.decrease() is Some,
            v@ + it.remaining() == s@,
        ensures
            v@ == s@,
        decreases it.decrease()->0,
    {
        match it.next() {
            Some(c) => { v.push(c) },
            None => {
                proof {
                    assert(v@ =~= s@);
                }
                break ;
            },
        }
    }
    v
}

/// Whether `c` is accepted as whitespace.
fn space_char(c: char) -> (r: bool)
    ensures
        r == is_space_char(c),
{
    c == ' ' || c == '\t' || c == '\n' || c == '\r' || c == '\x0b' || c == '\x0c'
}

/// Whether `c` is an ASCII decimal digit.
fn digit_char(c: char) -> (r: bool)
    ensures
        r == is_digit_char(c),
{
    let u = c as u32;
    48 <= u && u <= 57
}

/// Whether `c` may stand inside a digit run.
fn run_char(c: char) -> (r: bool)
    ensures
        r == is_run_char(c),
{
    digit_char(c) || c == '_'
}

/// Advances past whitespace, to `ws_end`.
fn skip_ws(v: &Vec<char>, i: usize) -> (r: usize)
    requires
        i <= v@.len(),
    ensures
        r == ws_end(v@, i as int),
        i <= r <= v@.len(),
{
    let mut k = i;
    loop
        invariant
            i <= k <= v@.len(),
            ws_end(v@, i as int) == ws_end(v@, k as int),
        ensures
            i <= k <= v@.len(),
            k == ws_end(v@, i as int),
        decreases v@.len() - k,
    {
        if k < v.len() && space_char(v[k]) {
            k = k + 1;
        } else {
            break ;
        }
    }
    k
}

/// Advances past digits and separators, to `run_end`.
fn scan_run(v: &Vec<char>, i: usize) -> (r: usize)
    requires
        i <= v@.len(),
    ensures
        r == run_end(v@, i as int),
        i <= r <= v@.len(),
{
    let mut k = i;
    loop
        invariant
            i <= k <= v@.len(),
            run_end(v@, i as int) == run_end(v@, k as int),
        ensures
            i <= k <= v@.len(),
            k == run_end(v@, i as int),
        decreases v@.len() - k,
    {
        if k < v.len() && run_char(v[k]) {
            k = k + 1;
        } else {
            break ;
        }
    }
    k
}

/// Decides whether `v[a..b]` is a well-formed digit run: nonempty, digits at
/// both ends, single interior underscores.
fn check_digit_run(v: &Vec<char>, a: usize, b: usize) -> (ok: bool)
    requires
        a <= b <= v@.len(),
    ensures
        ok == is_digit_run(v@.subrange(a as int, b as int)),
{
    let ghost t = v@.subrange(a as int, b as int);
    if a == b {
        return false;
    }
    if !digit_char(v[a]) {
        assert(t[0] == v@[a as int]);
        return false;
    }
    if !digit_char(v[b - 1]) {
        assert(t[t.len() - 1] == v@[b - 1]);
        return false;
    }
    let mut k = a + 1;
    loop
        invariant
            a < k <= b <= v@.len(),
            t == v@.subrange(a as int, b as int),
            t.len() == b - a,
            is_digit_char(v@[a as int]),
            is_digit_char(v@[b - 1]),
            forall|q: int| a <= q < k ==> is_run_char(#[trigger] v@[q]),
            forall|q: int| a < q < k ==> !(#[trigger] v@[q] == '_' && v@[q - 1] == '_'),
        ensures
            k == b,
            forall|q: int| a <= q < b ==> is_run_char(#[trigger] v@[q]),
            forall|q: int| a < q < b ==> !(#[trigger] v@[q] == '_' && v@[q - 1] == '_'),
        decreases b - k,
    {
        if k < b {
            let c = v[k];
            if !run_char(c) {
                assert(t[k - a] == v@[k as int]);
                return false;
            }
            if c == '_' && v[k - 1] == '_' {
                assert(t[k - a] == v@[k as int] && t[k - a - 1] == v@[k - 1]);
                return false;
            }
            k = k + 1;
        } else {
            break ;
        }
    }
    assert forall|q: int| 0 <= q < t.len() implies is_run_char(#[trigger] t[q]) by {
        assert(t[q] == v@[a + q]);
    }
    assert forall|q: int| 0 < q < t.len() implies !(#[trigger] t[q] == '_' && t[q - 1] == '_') by {
        assert(t[q] == v@[a + q] && t[q - 1] == v@[a + q - 1]);
    }
    true
}

/// Copies the digits of `v[a..b]`, leaving the separators out.
fn strip_and_collect(v: &Vec<char>, a: usize, b: usize) -> (d: Vec<char>)
    requires
        a <= b <= v@.len(),
        forall|q: int| a <= q < b ==> is_run_char(#[trigger] v@[q]),
    ensures
        d@ == strip_seps(v@.subrange(a as int, b as int)),
        forall|q: int| 0 <= q < d@.len() ==> is_digit_char(#[trigger] d@[q]),
{
    let mut d: Vec<char> = Vec::new();
    let mut k = a;
    while k < b
        invariant
            a <= k <= b <= v@.len(),
            forall|q: int| a <= q < b ==> is_run_char(#[trigger] v@[q]),
            d@ == strip_seps(v@.subrange(a as int, k as int)),
            forall|q: int| 0 <= q < d@.len() ==> is_digit_char(#[trigger] d@[q]),
        decreases b - k,
    {
        let c = v[k];
        proof {
            assert(v@.subrange(a as int, (k + 1) as int).drop_last() =~= v@.subrange(
                a as int,
                k as int,
            ));
            assert(v@.subrange(a as int, (k + 1) as int).last() == v@[k as int]);
        }
        if c != '_' {
            d.push(c);
        }
        k = k + 1;
    }
    d
}

/// Removes trailing `'0'` characters from `v[a..b]`, returning the new end.
fn trim_zeros_end(v: &Vec<char>, a: usize, b: usize) -> (r: usize)
    requires
        a <= b <= v@.len(),
    ensures
        a <= r <= b,
        v@.subrange(a as int, r as int) == trim_trailing_zeros(v@.subrange(a as int, b as int)),
{
    let mut e = b;
    loop
        invariant
            a <= e <= b <= v@.len(),
            trim_trailing_zeros(v@.subrange(a as int, b as int)) == trim_trailing_zeros(
                v@.subrange(a as int, e as int),
            ),
        ensures
            a <= e <= b,
            trim_trailing_zeros(v@.subrange(a as int, b as int)) == trim_trailing_zeros(
                v@.subrange(a as int, e as int),
            ),
            e == a || v@[e - 1] != '0',
        decreases e,
    {
        if e > a && v[e - 1] == '0' {
            proof {
                assert(v@.subrange(a as int, e as int).last() == v@[e - 1]);
                assert(v@.subrange(a as int, e as int).drop_last() =~= v@.subrange(
                    a as int,
                    (e - 1) as int,
                ));
            }
            e = e - 1;
        } else {
            break ;
        }
    }
    proof {
        if e > a {
            assert(v@.subrange(a as int, e as int).last() == v@[e - 1]);
        }
        assert(trim_trailing_zeros(v@.subrange(a as int, e as int)) == v@.subrange(
            a as int,
            e as int,
        ));
    }
    e
}

/// Converts a digit sequence to its value, or reports that the value exceeds
/// `max`.
fn digits_to_val(d: &Vec<char>, max: i64) -> (r: Option<i64>)
    requires
        forall|q: int| 0 <= q < d@.len() ==> is_digit_char(#[trigger] d@[q]),
        0 <= max,
    ensures
        match r {
            Some(x) => x as int == digit_seq_val(d@) && 0 <= x <= max,
            None => digit_seq_val(d@) > max as int,
        },
{
    let mut acc: u128 = 0;
    let mut k: usize = 0;
    while k < d.len()
        invariant
            0 <= k <= d@.len(),
            forall|q: int| 0 <= q < d@.len() ==> is_digit_char(#[trigger] d@[q]),
            acc as int == digit_seq_val(d@.subrange(0, k as int)),
            acc <= max as u128,
            0 <= max,
        decreases d@.len() - k,
    {
        let c = d[k];
        let dv: u32 = (c as u32) - 48;
        proof {
            assert(d@.subrange(0, (k + 1) as int).drop_last() =~= d@.subrange(0, k as int));
            assert(d@.subrange(0, (k + 1) as int).last() == d@[k as int]);
        }
        let next: u128 = acc * 10 + (dv as u128);
        if next > (max as u128) {
            proof {
                lemma_digit_seq_val_prefix_le(d@, (k + 1) as int);
            }
            return None;
        }
        acc = next;
        k = k + 1;
    }
    proof {
        assert(d@.subrange(0, d@.len() as int) =~= d@);
    }
    Some(acc as i64)
}

/// Computes ten to the power `k`, or reports that it exceeds `max`.
fn pow10_checked(k: usize, max: i64) -> (r: Option<i64>)
    requires
        10 <= max,
    ensures
        match r {
            Some(x) => x as int == pow10(k as nat) && 1 <= x <= max,
            None => pow10(k as nat) > max as int,
        },
{
    let mut p: u128 = 1;
    let mut j: usize = 0;
    while j < k
        invariant
            0 <= j <= k,
            p as int == pow10(j as nat),
            1 <= p,
            p <= max as u128,
            10 <= max,
        decreases k - j,
    {
        let np: u128 = p * 10;
        if np > (max as u128) {
            proof {
                lemma_pow10_le((j + 1) as nat, k as nat);
            }
            return None;
        }
        p = np;
        j = j + 1;
    }
    Some(p as i64)
}

} // verus!

verus! {

/// The positions of the extracted tokens inside the character vector.
struct TokenRanges {
    negative: bool,
    int_a: usize,
    int_b: usize,
    has_den: bool,
    den_a: usize,
    den_b: usize,
    has_frac: bool,
    frac_a: usize,
    frac_b: usize,
    exp_negative: bool,
    has_exp: bool,
    exp_a: usize,
    exp_b: usize,
}

impl TokenRanges {
    /// The ranges lie inside the input and hold only digits and separators.
    spec fn wf(self, s: Seq<char>) -> bool {
        &&& self.int_a <= self.int_b <= s.len()
        &&& (forall|q: int| self.int_a <= q < self.int_b ==> is_run_char(#[trigger] s[q]))
        &&& (self.has_den ==> self.den_a <= self.den_b <= s.len())
        &&& (self.has_den ==> forall|q: int|
            self.den_a <= q < self.den_b ==> is_run_char(#[trigger] s[q]))
        &&& (self.has_frac ==> self.frac_a <= self.frac_b <= s.len())
        &&& (self.has_frac ==> forall|q: int|
            self.frac_a <= q < self.frac_b ==> is_run_char(#[trigger] s[q]))
        &&& (self.has_exp ==> self.exp_a <= self.exp_b <= s.len())
        &&& (self.has_exp ==> forall|q: int|
            self.exp_a <= q < self.exp_b ==> is_run_char(#[trigger] s[q]))
    }

    /// The token set these ranges denote.
    spec fn toks(self, s: Seq<char>) -> RatioTokens {
        RatioTokens {
            negative: self.negative,
            int_part: s.subrange(self.int_a as int, self.int_b as int),
            denom_part: if self.has_den {
                Some(s.subrange(self.den_a as int, self.den_b as int))
            } else {
                None
            },
            frac_part: if self.has_frac {
                Some(s.subrange(self.frac_a as int, self.frac_b as int))
            } else {
                None
            },
            exp_negative: self.exp_negative,
            exp_part: if self.has_exp {
                Some(s.subrange(self.exp_a as int, self.exp_b as int))
            } else {
                None
            },
        }
    }
}

/// Matches the characters against the grammar, returning the token ranges
/// exactly when the model's `tokenize` yields a token set.
fn tokenize_exec(v: &Vec<char>) -> (r: Option<TokenRanges>)
    ensures
        match r {
            None => tokenize(v@) is None,
            Some(tr) => tr.wf(v@) && tokenize(v@) == Some(tr.toks(v@)),
        },
{
    let n = v.len();
    let i0 = skip_ws(v, 0);
    let has_sign = i0 < n && (v[i0] == '+' || v[i0] == '-');
    let negative = i0 < n && v[i0] == '-';
    let i1 = if has_sign { i0 + 1 } else { i0 };
    let i2 = scan_run(v, i1);
    proof {
        lemma_run_end(v@, i1 as int);
    }
    if i1 < i2 && !check_digit_run(v, i1, i2) {
        return None;
    }
    let j = skip_ws(v, i2);
    if j < n && v[j] == '/' {
        let j2 = skip_ws(v, j + 1);
        let j3 = scan_run(v, j2);
        proof {
            lemma_run_end(v@, j2 as int);
        }
        if !check_digit_run(v, j2, j3) {
            return None;
        }
        if skip_ws(v, j3) != n {
            return None;
        }
        return Some(
            TokenRanges {
                negative,
                int_a: i1,
                int_b: i2,
                has_den: true,
                den_a: j2,
                den_b: j3,
                has_frac: false,
                frac_a: 0,
                frac_b: 0,
                exp_negative: false,
                has_exp: false,
                exp_a: 0,
                exp_b: 0,
            },
        );
    }
    let has_dot = i2 < n && v[i2] == '.';
    let k1 = if has_dot {
        i2 + 1
    } else {
        i2
    };
    let k2 = if has_dot {
        scan_run(v, k1)
    } else {
        i2
    };
    proof {
        if has_dot {
            lemma_run_end(v@, k1 as int);
        }
    }
    if has_dot && k1 < k2 && !check_digit_run(v, k1, k2) {
        return None;
    }
    let has_e = k2 < n && (v[k2] == 'e' || v[k2] == 'E');
    if has_e {
        let m0 = k2 + 1;
        let exp_has_sign = m0 < n && (v[m0] == '+' || v[m0] == '-');
        let exp_negative = m0 < n && v[m0] == '-';
        let m1 = if exp_has_sign {
            m0 + 1
        } else {
            m0
        };
        let m2 = scan_run(v, m1);
        proof {
            lemma_run_end(v@, m1 as int);
        }
        if !check_digit_run(v, m1, m2) {
            return None;
        }
        if skip_ws(v, m2) != n {
            return None;
        }
        return Some(
            TokenRanges {
                negative,
                int_a: i1,
                int_b: i2,
                has_den: false,
                den_a: 0,
                den_b: 0,
                has_frac: has_dot,
                frac_a: k1,
                frac_b: k2,
                exp_negative,
                has_exp: true,
                exp_a: m1,
                exp_b: m2,
            },
        );
    }
    if skip_ws(v, k2) != n {
        return None;
    }
    Some(
        TokenRanges {
            negative,
            int_a: i1,
            int_b: i2,
            has_den: false,
            den_a: 0,
            den_b: 0,
            has_frac: has_dot,
            frac_a: k1,
            frac_b: k2,
            exp_negative: false,
            has_exp: false,
            exp_a: 0,
            exp_b: 0,
        },
    )
}

} // verus!

verus! {

/// The square of the largest value `max` may take, used to bound the wide
/// intermediate products.
const WIDE_BOUND: i128 = 85070591730234615847396907784232501249;

/// Assembles the token set into the exact pair, checking every arithmetic
/// step against `max`.
fn assemble_exec(v: &Vec<char>, tr: &TokenRanges, max: i64) -> (r: Result<
    (i64, i64),
    ParseRatioError,
>)
    requires
        10 <= max,
        tr.wf(v@),
    ensures
        ({
            let sp = assemble(tr.toks(v@), max as int);
            match r {
                Ok(p) => sp is Ok && sp->Ok_0.0 == p.0 as int && sp->Ok_0.1 == p.1 as int
                    && -max <= p.0 <= max && 1 <= p.1 <= max,
                Err(e) => sp is Err && sp->Err_0 == e.spec_kind(),
            }
        }),
{
    let ghost t = tr.toks(v@);
    let int_empty = tr.int_a == tr.int_b;
    let frac_has_digits = tr.has_frac && tr.frac_a < tr.frac_b;
    if int_empty && !frac_has_digits {
        return Err(ParseRatioError::new(RatioErrorKind::ParseError));
    }
    let nd = strip_and_collect(v, tr.int_a, tr.int_b);
    let nv = match digits_to_val(&nd, max) {
        Some(x) => x,
        None => {
            return Err(ParseRatioError::new(RatioErrorKind::Overflow));
        },
    };
    if tr.has_den {
        let dd = strip_and_collect(v, tr.den_a, tr.den_b);
        let dv = match digits_to_val(&dd, max) {
            Some(x) => x,
            None => {
                return Err(ParseRatioError::new(RatioErrorKind::Overflow));
            },
        };
        if dv == 0 {
            return Err(ParseRatioError::new(RatioErrorKind::ZeroDenominator));
        }
        return Ok(((if tr.negative { -nv } else { nv }), dv));
    }
    let b2 = if tr.has_frac {
        trim_zeros_end(v, tr.frac_a, tr.frac_b)
    } else {
        0
    };
    let td = if tr.has_frac {
        strip_and_collect(v, tr.frac_a, b2)
    } else {
        Vec::new()
    };
    proof {
        if !tr.has_frac {
            assert(td@ =~= Seq::<char>::empty());
        }
    }
    let scale = match pow10_checked(td.len(), max) {
        Some(x) => x,
        None => {
            return Err(ParseRatioError::new(RatioErrorKind::Overflow));
        },
    };
    let fv = match digits_to_val(&td, max) {
        Some(x) => x,
        None => {
            return Err(ParseRatioError::new(RatioErrorKind::Overflow));
        },
    };
    proof {
        assert(0 <= (nv as int) * (scale as int) && (nv as int) * (scale as int) <= (
        max as int) * (max as int)) by (nonlinear_arith)
            requires
                0 <= nv as int,
                nv as int <= max as int,
                0 <= scale as int,
                scale as int <= max as int,
        ;
        assert((max as int) * (max as int) <= WIDE_BOUND as int) by (nonlinear_arith)
            requires
                0 <= max as int,
                max as int <= 9223372036854775807,
        ;
    }
    let wide: i128 = (nv as i128) * (scale as i128) + (fv as i128);
    if wide > max as i128 {
        return Err(ParseRatioError::new(RatioErrorKind::Overflow));
    }
    let n1: i64 = wide as i64;
    let d1: i64 = scale;
    let (n2, d2): (i64, i64) = if tr.has_exp {
        let ed = strip_and_collect(v, tr.exp_a, tr.exp_b);
        let elimit: i64 = if tr.exp_negative {
            2147483648
        } else {
            2147483647
        };
        let ev = match digits_to_val(&ed, elimit) {
            Some(x) => x,
            None => {
                return Err(ParseRatioError::new(RatioErrorKind::ParseError));
            },
        };
        let scale2 = match pow10_checked(ev as usize, max) {
            Some(x) => x,
            None => {
                return Err(ParseRatioError::new(RatioErrorKind::Overflow));
            },
        };
        if !tr.exp_negative {
            proof {
                assert(0 <= (n1 as int) * (scale2 as int) && (n1 as int) * (scale2 as int) <= (
                max as int) * (max as int)) by (nonlinear_arith)
                    requires
                        0 <= n1 as int,
                        n1 as int <= max as int,
                        0 <= scale2 as int,
                        scale2 as int <= max as int,
                ;
            }
            let wide2: i128 = (n1 as i128) * (scale2 as i128);
            if wide2 > max as i128 {
                return Err(ParseRatioError::new(RatioErrorKind::Overflow));
            }
            (wide2 as i64, d1)
        } else {
            proof {
                assert((d1 as int) <= (d1 as int) * (scale2 as int) && (d1 as int) * (
                scale2 as int) <= (max as int) * (max as int)) by (nonlinear_arith)
                    requires
                        1 <= d1 as int,
                        d1 as int <= max as int,
                        1 <= scale2 as int,
                        scale2 as int <= max as int,
                ;
            }
            let wide2: i128 = (d1 as i128) * (scale2 as i128);
            if wide2 > max as i128 {
                return Err(ParseRatioError::new(RatioErrorKind::Overflow));
            }
            (n1, wide2 as i64)
        }
    } else {
        (n1, d1)
    };
    let n3 = if tr.negative {
        -n2
    } else {
        n2
    };
    Ok((n3, d2))
}

/// Parses a string into the exact numerator/denominator pair for a target
/// type whose values range over `[-max - 1, max]`, or reports the first
/// failure: a grammar mismatch or a malformed exponent as a parse error, a
/// literal zero denominator, or any arithmetic step that leaves `[0, max]`
/// as an overflow.
pub fn parse_flexible(s: &str, max: i64) -> (r: Result<(i64, i64), ParseRatioError>)
    requires
        10 <= max,
    ensures
        ({
            let sp = spec_parse(s@, max as int);
            match r {
                Ok(p) => sp is Ok && sp->Ok_0.0 == p.0 as int && sp->Ok_0.1 == p.1 as int
                    && -max <= p.0 <= max && 1 <= p.1 <= max,
                Err(e) => sp is Err && sp->Err_0 == e.spec_kind(),
            }
        }),
{
    let v = chars_of(s);
    match tokenize_exec(&v) {
        None => Err(ParseRatioError::new(RatioErrorKind::ParseError)),
        Some(tr) => assemble_exec(&v, &tr, max),
    }
}

} // verus!
