//! General properties of the parser, stated over the model and proved once
//! for all inputs.

use vstd::prelude::*;
use crate::RatioErrorKind;
use crate::grammar::{
    is_space_char, is_digit_char, is_run_char, ws_end, run_end, is_digit_run, strip_seps, digit_seq_val,
    pow10, tokenize, assemble, spec_parse, lemma_ws_end_through, lemma_run_end_through,
    lemma_ws_end_shift, lemma_run_end_shift, lemma_ws_end_append, lemma_run_end_append,
};

verus! {

/// A bare digit run, with any single interior underscores, parses to its
/// value over a denominator of one whenever that value fits the target
/// type: integers round-trip, and separators never change the value.
pub proof fn lemma_parse_digit_run(s: Seq<char>, max: int)
    requires
        is_digit_run(s),
        10 <= max,
        digit_seq_val(strip_seps(s)) <= max,
    ensures
        spec_parse(s, max) == Ok::<(int, int), RatioErrorKind>(
            (digit_seq_val(strip_seps(s)), 1int),
        ),
{
    let n = s.len() as int;
    assert(is_digit_char(s[0]));
    lemma_run_end_through(s, 0, n);
    assert(run_end(s, n) == n);
    assert(run_end(s, 0) == n);
    assert(ws_end(s, 0) == 0);
    assert(ws_end(s, n) == n);
    assert(s.subrange(0, n) =~= s);
    let t = tokenize(s)->0;
    assert(tokenize(s) is Some);
    assert(t.int_part == s);
    assert(t.denom_part is None && t.frac_part is None && t.exp_part is None);
    assert(!t.negative);
    let nv = digit_seq_val(strip_seps(s));
    assert(nv * pow10(0) + digit_seq_val(Seq::empty()) == nv);
    assert(assemble(t, max) == Ok::<(int, int), RatioErrorKind>((nv, 1int)));
}

/// A digit run preceded by a sign parses to its value with that sign
/// applied, over a denominator of one, whenever the value fits the target
/// type.
pub proof fn lemma_parse_signed_digit_run(c: char, s: Seq<char>, max: int)
    requires
        c == '+' || c == '-',
        is_digit_run(s),
        10 <= max,
        digit_seq_val(strip_seps(s)) <= max,
    ensures
        spec_parse(seq![c] + s, max) == Ok::<(int, int), RatioErrorKind>(
            ((if c == '-' {
                -digit_seq_val(strip_seps(s))
            } else {
                digit_seq_val(strip_seps(s))
            }), 1int),
        ),
{
    let u = seq![c] + s;
    let n = u.len() as int;
    assert(u[0] == c);
    assert(ws_end(u, 0) == 0);
    lemma_run_end_shift(seq![c], s, 1);
    lemma_run_end_through(s, 0, s.len() as int);
    assert(run_end(u, 1) == n);
    lemma_ws_end_shift(seq![c], s, n);
    assert(ws_end(u, n) == n);
    let ip = u.subrange(1, n);
    assert(ip =~= s);
    let t = tokenize(u)->0;
    assert(tokenize(u) is Some);
    assert(t.int_part == s);
    assert(t.denom_part is None && t.frac_part is None && t.exp_part is None);
    assert(t.negative == (c == '-'));
    let nv = digit_seq_val(strip_seps(s));
    assert(nv * pow10(0) + digit_seq_val(Seq::empty()) == nv);
    assert(assemble(t, max) == Ok::<(int, int), RatioErrorKind>(
        ((if c == '-' {
            -nv
        } else {
            nv
        }), 1int),
    ));
}

/// An explicit fraction `n/d` parses to exactly the pair of the two runs'
/// values — reduction is left to the value type — except that a literal
/// zero denominator is reported as such, distinct from a malformed input.
pub proof fn lemma_parse_fraction(sn: Seq<char>, sd: Seq<char>, max: int)
    requires
        is_digit_run(sn),
        is_digit_run(sd),
        10 <= max,
        digit_seq_val(strip_seps(sn)) <= max,
        digit_seq_val(strip_seps(sd)) <= max,
    ensures
        spec_parse(sn + seq!['/'] + sd, max) == (if digit_seq_val(strip_seps(sd)) == 0 {
            Err::<(int, int), RatioErrorKind>(RatioErrorKind::ZeroDenominator)
        } else {
            Ok::<(int, int), RatioErrorKind>(
                (digit_seq_val(strip_seps(sn)), digit_seq_val(strip_seps(sd))),
            )
        }),
{
    let u = sn + seq!['/'] + sd;
    let a = sn.len() as int;
    let n = u.len() as int;
    assert(u[0] == sn[0]);
    assert(is_digit_char(u[0]));
    assert(ws_end(u, 0) == 0);
    assert(forall|q: int| 0 <= q < a ==> u[q] == sn[q]);
    lemma_run_end_through(u, 0, a);
    assert(u[a] == '/');
    assert(run_end(u, a) == a);
    assert(run_end(u, 0) == a);
    assert(u.subrange(0, a) =~= sn);
    assert(ws_end(u, a) == a);
    assert(u[a + 1] == sd[0]);
    assert(is_digit_char(u[a + 1]));
    assert(ws_end(u, a + 1) == a + 1);
    lemma_run_end_shift(sn + seq!['/'], sd, a + 1);
    lemma_run_end_through(sd, 0, sd.len() as int);
    assert(u =~= (sn + seq!['/']) + sd);
    assert(run_end(u, a + 1) == n);
    lemma_ws_end_shift(sn + seq!['/'], sd, n);
    assert(ws_end(u, n) == n);
    assert(u.subrange(a + 1, n) =~= sd);
    let t = tokenize(u)->0;
    assert(tokenize(u) is Some);
    assert(t.int_part == sn);
    assert(t.denom_part == Some(sd));
    assert(!t.negative);
}

/// A fraction with a leading sign parses to the pair of the two runs'
/// values with the sign applied to the numerator alone, so that reduction
/// by the value type keeps the sign: the denominator never carries it.
pub proof fn lemma_parse_signed_fraction(c: char, sn: Seq<char>, sd: Seq<char>, max: int)
    requires
        c == '+' || c == '-',
        is_digit_run(sn),
        is_digit_run(sd),
        10 <= max,
        digit_seq_val(strip_seps(sn)) <= max,
        digit_seq_val(strip_seps(sd)) <= max,
    ensures
        ({
            let nv = digit_seq_val(strip_seps(sn));
            let dv = digit_seq_val(strip_seps(sd));
            spec_parse(seq![c] + sn + seq!['/'] + sd, max) == (if dv == 0 {
                Err::<(int, int), RatioErrorKind>(RatioErrorKind::ZeroDenominator)
            } else {
                Ok::<(int, int), RatioErrorKind>(
                    ((if c == '-' {
                        -nv
                    } else {
                        nv
                    }), dv),
                )
            })
        }),
{
    let u = seq![c] + sn + seq!['/'] + sd;
    let a = sn.len() as int;
    let n = u.len() as int;
    assert(u[0] == c);
    assert(ws_end(u, 0) == 0);
    assert(forall|q: int| 0 <= q < a ==> u[1 + q] == sn[q]);
    assert(forall|q: int| 1 <= q < 1 + a ==> is_run_char(#[trigger] u[q])) by {
        assert(forall|q: int| 1 <= q < 1 + a ==> #[trigger] u[q] == sn[q - 1]);
    }
    lemma_run_end_through(u, 1, 1 + a);
    assert(u[1 + a] == '/');
    assert(run_end(u, 1 + a) == 1 + a);
    assert(run_end(u, 1) == 1 + a);
    assert(u.subrange(1, 1 + a) =~= sn);
    assert(ws_end(u, 1 + a) == 1 + a);
    assert(u[a + 2] == sd[0]);
    assert(is_digit_char(u[a + 2]));
    assert(ws_end(u, a + 2) == a + 2);
    lemma_run_end_shift(seq![c] + sn + seq!['/'], sd, a + 2);
    lemma_run_end_through(sd, 0, sd.len() as int);
    assert(u =~= (seq![c] + sn + seq!['/']) + sd);
    assert(run_end(u, a + 2) == n);
    lemma_ws_end_shift(seq![c] + sn + seq!['/'], sd, n);
    assert(ws_end(u, n) == n);
    assert(u.subrange(a + 2, n) =~= sd);
    let t = tokenize(u)->0;
    assert(tokenize(u) is Some);
    assert(t.int_part == sn);
    assert(t.denom_part == Some(sd));
    assert(t.negative == (c == '-'));
}

/// Whitespace in front of the input does not change the extracted tokens.
#[verifier::rlimit(100)]
proof fn lemma_tokenize_ws_prefix(w: Seq<char>, s: Seq<char>)
    requires
        forall|q: int| 0 <= q < w.len() ==> is_space_char(#[trigger] w[q]),
    ensures
        tokenize(w + s) == tokenize(s),
{
    let u = w + s;
    let lw = w.len() as int;
    let n = s.len() as int;
    assert(forall|q: int| 0 <= q < lw ==> is_space_char(#[trigger] u[q]));
    lemma_ws_end_through(u, 0, lw);
    lemma_ws_end_shift(w, s, lw);
    let i0 = ws_end(s, 0);
    crate::grammar::lemma_ws_end(s, 0);
    assert(ws_end(u, 0) == lw + i0);
    if i0 < n {
        assert(u[lw + i0] == s[i0]);
    }
    let has_sign = i0 < n && (s[i0] == '+' || s[i0] == '-');
    let i1 = if has_sign {
        i0 + 1
    } else {
        i0
    };
    lemma_run_end_shift(w, s, lw + i1);
    let i2 = run_end(s, i1);
    crate::grammar::lemma_run_end(s, i1);
    assert(run_end(u, lw + i1) == lw + i2);
    assert(u.subrange(lw + i1, lw + i2) =~= s.subrange(i1, i2));
    lemma_ws_end_shift(w, s, lw + i2);
    let j = ws_end(s, i2);
    crate::grammar::lemma_ws_end(s, i2);
    assert(ws_end(u, lw + i2) == lw + j);
    if j < n {
        assert(u[lw + j] == s[j]);
    }
    if j < n && s[j] == '/' {
        lemma_ws_end_shift(w, s, lw + j + 1);
        let j2 = ws_end(s, j + 1);
        crate::grammar::lemma_ws_end(s, j + 1);
        lemma_run_end_shift(w, s, lw + j2);
        let j3 = run_end(s, j2);
        crate::grammar::lemma_run_end(s, j2);
        assert(u.subrange(lw + j2, lw + j3) =~= s.subrange(j2, j3));
        lemma_ws_end_shift(w, s, lw + j3);
        assert(tokenize(u) == tokenize(s));
    } else {
        if i2 < n {
            assert(u[lw + i2] == s[i2]);
        }
        let has_dot = i2 < n && s[i2] == '.';
        let k1 = if has_dot {
            i2 + 1
        } else {
            i2
        };
        let k2 = if has_dot {
            run_end(s, k1)
        } else {
            i2
        };
        if has_dot {
            lemma_run_end_shift(w, s, lw + k1);
            crate::grammar::lemma_run_end(s, k1);
        }
        assert(u.subrange(lw + k1, lw + k2) =~= s.subrange(k1, k2));
        if k2 < n {
            assert(u[lw + k2] == s[k2]);
        }
        let has_e = k2 < n && (s[k2] == 'e' || s[k2] == 'E');
        if has_e {
            let m0 = k2 + 1;
            if m0 < n {
                assert(u[lw + m0] == s[m0]);
            }
            let exp_has_sign = m0 < n && (s[m0] == '+' || s[m0] == '-');
            let m1 = if exp_has_sign {
                m0 + 1
            } else {
                m0
            };
            lemma_run_end_shift(w, s, lw + m1);
            let m2 = run_end(s, m1);
            crate::grammar::lemma_run_end(s, m1);
            assert(u.subrange(lw + m1, lw + m2) =~= s.subrange(m1, m2));
            lemma_ws_end_shift(w, s, lw + m2);
            assert(tokenize(u) == tokenize(s));
        } else {
            lemma_ws_end_shift(w, s, lw + k2);
            assert(tokenize(u) == tokenize(s));
        }
    }
}

/// Whitespace behind the input does not change the extracted tokens.
#[verifier::rlimit(100)]
proof fn lemma_tokenize_ws_suffix(s: Seq<char>, w: Seq<char>)
    requires
        forall|q: int| 0 <= q < w.len() ==> is_space_char(#[trigger] w[q]),
    ensures
        tokenize(s + w) == tokenize(s),
{
    let u = s + w;
    let n = s.len() as int;
    let m = w.len() as int;
    lemma_ws_end_append(s, w, 0);
    let i0 = ws_end(s, 0);
    crate::grammar::lemma_ws_end(s, 0);
    if i0 < n {
        assert(u[i0] == s[i0]);
    }
    let i0u = ws_end(u, 0);
    let has_sign = i0 < n && (s[i0] == '+' || s[i0] == '-');
    let i1 = if has_sign {
        i0 + 1
    } else {
        i0
    };
    if i0 == n {
        assert(i0u == n + m);
        assert(run_end(u, i0u) == i0u);
        assert(ws_end(u, i0u) == i0u);
        assert(run_end(s, i0) == i0);
        assert(ws_end(s, i0) == i0);
        assert(u.subrange(i0u, i0u) =~= s.subrange(i0, i0));
        assert(tokenize(u) == tokenize(s));
    } else {
        assert(forall|q: int| n <= q < u.len() ==> is_space_char(#[trigger] u[q]));
        lemma_run_end_append(s, w, i1);
        let i2 = run_end(s, i1);
        crate::grammar::lemma_run_end(s, i1);
        assert(u.subrange(i1, i2) =~= s.subrange(i1, i2));
        lemma_ws_end_append(s, w, i2);
        let j = ws_end(s, i2);
        crate::grammar::lemma_ws_end(s, i2);
        if j < n {
            assert(u[j] == s[j]);
        }
        if j < n && s[j] == '/' {
            lemma_ws_end_append(s, w, j + 1);
            let j2 = ws_end(s, j + 1);
            crate::grammar::lemma_ws_end(s, j + 1);
            if j2 == n {
                assert(run_end(u, ws_end(u, j + 1)) == ws_end(u, j + 1)) by {
                    if ws_end(u, j + 1) < u.len() {
                        assert(u[ws_end(u, j + 1)] == w[ws_end(u, j + 1) - n]);
                    }
                }
                assert(tokenize(u) is None && tokenize(s) is None) by {
                    assert(!is_digit_run(u.subrange(ws_end(u, j + 1), ws_end(u, j + 1))));
                    assert(!is_digit_run(s.subrange(j2, run_end(s, j2))));
                }
            } else {
                lemma_run_end_append(s, w, j2);
                let j3 = run_end(s, j2);
                crate::grammar::lemma_run_end(s, j2);
                assert(u.subrange(j2, j3) =~= s.subrange(j2, j3));
                lemma_ws_end_append(s, w, j3);
                assert(ws_end(u, j + 1) == j2);
                assert(run_end(u, j2) == j3);
                let e3 = ws_end(s, j3);
                crate::grammar::lemma_ws_end(s, j3);
                assert(ws_end(u, j3) == if e3 < n { e3 } else { n + m });
                assert(u.len() == n + m);
                assert((ws_end(u, j3) == u.len()) == (e3 == n));
                assert(tokenize(u) == tokenize(s));
            }
        } else {
            if i2 < n {
                assert(u[i2] == s[i2]);
            }
            let has_dot = i2 < n && s[i2] == '.';
            let k1 = if has_dot {
                i2 + 1
            } else {
                i2
            };
            let k2 = if has_dot {
                run_end(s, k1)
            } else {
                i2
            };
            if has_dot {
                lemma_run_end_append(s, w, k1);
                crate::grammar::lemma_run_end(s, k1);
            }
            assert(u.subrange(k1, k2) =~= s.subrange(k1, k2));
            if k2 < n {
                assert(u[k2] == s[k2]);
            }
            let has_e = k2 < n && (s[k2] == 'e' || s[k2] == 'E');
            if has_e {
                let m0 = k2 + 1;
                if m0 < n {
                    assert(u[m0] == s[m0]);
                }
                let exp_has_sign = m0 < n && (s[m0] == '+' || s[m0] == '-');
                let m1 = if exp_has_sign {
                    m0 + 1
                } else {
                    m0
                };
                lemma_run_end_append(s, w, m1);
                let m2 = run_end(s, m1);
                crate::grammar::lemma_run_end(s, m1);
                assert(u.subrange(m1, m2) =~= s.subrange(m1, m2));
                lemma_ws_end_append(s, w, m2);
                assert(run_end(u, m1) == m2);
                let e2 = ws_end(s, m2);
                crate::grammar::lemma_ws_end(s, m2);
                assert((ws_end(u, m2) == u.len()) == (e2 == n));
                assert(run_end(u, i1) == i2);
                if has_dot {
                    assert(run_end(u, k1) == k2);
                }
                assert(tokenize(u) == tokenize(s));
            } else {
                lemma_ws_end_append(s, w, k2);
                let e2 = ws_end(s, k2);
                crate::grammar::lemma_ws_end(s, k2);
                assert((ws_end(u, k2) == u.len()) == (e2 == n));
                assert(tokenize(u) == tokenize(s));
            }
        }
    }
}

/// Whitespace at the very start and very end of the input is tolerated: it
/// never changes what a parse returns, on valid and invalid inputs alike.
pub proof fn lemma_parse_ws_tolerance(w1: Seq<char>, s: Seq<char>, w2: Seq<char>, max: int)
    requires
        forall|q: int| 0 <= q < w1.len() ==> is_space_char(#[trigger] w1[q]),
        forall|q: int| 0 <= q < w2.len() ==> is_space_char(#[trigger] w2[q]),
    ensures
        spec_parse(w1 + s + w2, max) == spec_parse(s, max),
{
    lemma_tokenize_ws_suffix(s, w2);
    lemma_tokenize_ws_prefix(w1, s + w2);
    assert(w1 + s + w2 =~= w1 + (s + w2));
}

/// The outcome of a parse is a function of the input string and the target
/// type's bound alone: the same invalid input always yields the same error
/// kind, and the same valid input the same pair, across repeated calls.
pub proof fn lemma_parse_deterministic(
    s: Seq<char>,
    max: int,
    r1: Result<(int, int), RatioErrorKind>,
    r2: Result<(int, int), RatioErrorKind>,
)
    requires
        r1 == spec_parse(s, max),
        r2 == spec_parse(s, max),
    ensures
        r1 == r2,
{
}

} // verus!
