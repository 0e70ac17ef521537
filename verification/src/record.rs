//! Decoding of one framed message from the streaming status endpoint.
//!
//! The wire format is a JSON object per line. This module defines the
//! accepted grammar as specification functions over byte sequences and
//! implements a parser proved to return exactly what the grammar says.
//! Numbers are decoded to fixed-point thousandths, truncated towards zero;
//! a number is refused when it carries more than seventeen digits, more
//! than four exponent digits, or a magnitude beyond a million million
//! thousandths. Strings accept the single-character escapes; an escaped
//! code point (`\u`) is refused, and a malformed message as a whole is
//! simply dropped by the caller, never fatal.

use vstd::prelude::*;

verus! {

/// Space, tab, line feed, carriage return.
pub open spec fn is_ws(b: u8) -> bool {
    b == 32 || b == 9 || b == 10 || b == 13
}

/// ASCII decimal digit.
pub open spec fn is_digit(b: u8) -> bool {
    48 <= b <= 57
}

/// The first position at or after `i` holding a non-blank byte, or the end.
pub open spec fn ws_end(s: Seq<u8>, i: int) -> int
    decreases s.len() - i,
{
    if i < 0 || i >= s.len() {
        i
    } else if is_ws(s[i]) {
        ws_end(s, i + 1)
    } else {
        i
    }
}

/// The first position at or after `i` holding a non-digit byte, or the end.
pub open spec fn digits_end(s: Seq<u8>, i: int) -> int
    decreases s.len() - i,
{
    if i < 0 || i >= s.len() {
        i
    } else if is_digit(s[i]) {
        digits_end(s, i + 1)
    } else {
        i
    }
}

/// The integer written by the digit run `s[i..j)`.
pub open spec fn digits_val(s: Seq<u8>, i: int, j: int) -> int
    decreases j - i,
{
    if j <= i {
        0
    } else {
        digits_val(s, i, j - 1) * 10 + (s[j - 1] - 48)
    }
}

/// Ten to the `n`.
pub open spec fn pow10(n: nat) -> int
    decreases n,
{
    if n == 0 {
        1
    } else {
        10 * pow10((n - 1) as nat)
    }
}

/// `pow10` grows with its argument.
pub proof fn lemma_pow10_monotone(a: nat, b: nat)
    requires
        a <= b,
    ensures
        0 < pow10(a) <= pow10(b),
    decreases b,
{
    if b > 0 {
        if a == b {
            lemma_pow10_monotone(0, (b - 1) as nat);
        } else {
            lemma_pow10_monotone(a, (b - 1) as nat);
        }
    }
}

/// What one escaped character stands for, if the escape is accepted.
pub open spec fn unescape(b: u8) -> Option<u8> {
    if b == 34 {
        Some(34u8)
    } else if b == 92 {
        Some(92u8)
    } else if b == 47 {
        Some(47u8)
    } else if b == 98 {
        Some(8u8)
    } else if b == 102 {
        Some(12u8)
    } else if b == 110 {
        Some(10u8)
    } else if b == 114 {
        Some(13u8)
    } else if b == 116 {
        Some(9u8)
    } else {
        None
    }
}

/// The body of a string, read from just after the opening quote: the
/// decoded bytes and the position just after the closing quote. Control
/// bytes and unaccepted escapes refuse the string.
pub open spec fn string_body(s: Seq<u8>, i: int) -> Option<(Seq<u8>, int)>
    decreases s.len() - i,
{
    if i < 0 || i >= s.len() {
        None
    } else if s[i] == 34 {
        Some((Seq::<u8>::empty(), i + 1))
    } else if s[i] == 92 {
        if i + 1 >= s.len() {
            None
        } else {
            match unescape(s[i + 1]) {
                Some(c) => match string_body(s, i + 2) {
                    Some(p) => Some((seq![c] + p.0, p.1)),
                    None => None,
                },
                None => None,
            }
        }
    } else if s[i] < 32 {
        None
    } else {
        match string_body(s, i + 1) {
            Some(p) => Some((seq![s[i]] + p.0, p.1)),
            None => None,
        }
    }
}

/// A quoted string starting exactly at `i`.
pub open spec fn parse_string(s: Seq<u8>, i: int) -> Option<(Seq<u8>, int)> {
    if 0 <= i < s.len() && s[i] == 34 {
        string_body(s, i + 1)
    } else {
        None
    }
}

/// Find the end of the blank run starting at `i`.
pub fn scan_ws(s: &[u8], i: usize) -> (r: usize)
    requires
        i <= s@.len(),
    ensures
        r == ws_end(s@, i as int),
        i <= r <= s@.len(),
    decreases s@.len() - i,
{
    if i < s.len() && (s[i] == 32 || s[i] == 9 || s[i] == 10 || s[i] == 13) {
        scan_ws(s, i + 1)
    } else {
        i
    }
}

/// Find the end of the digit run starting at `i`.
pub fn scan_digits(s: &[u8], i: usize) -> (r: usize)
    requires
        i <= s@.len(),
    ensures
        r == digits_end(s@, i as int),
        i <= r <= s@.len(),
    decreases s@.len() - i,
{
    if i < s.len() && 48 <= s[i] && s[i] <= 57 {
        scan_digits(s, i + 1)
    } else {
        i
    }
}

/// Read a quoted string starting exactly at `i`, giving the decoded bytes
/// and the position just after the closing quote.
pub fn read_string(s: &[u8], i: usize) -> (r: Option<(Vec<u8>, usize)>)
    requires
        i <= s@.len(),
    ensures
        match r {
            Some(p) => parse_string(s@, i as int) == Some((p.0@, p.1 as int)) && i < p.1 <= s@.len(),
            None => parse_string(s@, i as int) is None,
        },
{
    if i >= s.len() || s[i] != 34 {
        return None;
    }
    let mut out: Vec<u8> = Vec::new();
    let mut j: usize = i + 1;
    loop
        invariant
            i < s@.len(),
            s@[i as int] == 34,
            i + 1 <= j <= s@.len(),
            (match string_body(s@, i as int + 1) {
                Some(p) => string_body(s@, j as int) matches Some(q) && p.0 == out@ + q.0 && p.1
                    == q.1,
                None => string_body(s@, j as int) is None,
            }),
        decreases s@.len() - j,
    {
        if j >= s.len() {
            return None;
        }
        let b = s[j];
        if b == 34 {
            proof {
                assert(string_body(s@, j as int) == Some((Seq::<u8>::empty(), j as int + 1)));
                assert(out@ + Seq::<u8>::empty() =~= out@);
            }
            return Some((out, j + 1));
        } else if b == 92 {
            if j + 1 >= s.len() {
                return None;
            }
            let e = s[j + 1];
            let c: u8 = if e == 34 {
                34
            } else if e == 92 {
                92
            } else if e == 47 {
                47
            } else if e == 98 {
                8
            } else if e == 102 {
                12
            } else if e == 110 {
                10
            } else if e == 114 {
                13
            } else if e == 116 {
                9
            } else {
                return None;
            };
            proof {
                assert(unescape(s@[j as int + 1]) == Some(c));
            }
            out.push(c);
            j = j + 2;
        } else if b < 32 {
            return None;
        } else {
            out.push(b);
            j = j + 1;
        }
    }
}


/// One million million thousandths: the largest decoded magnitude.
pub const MAX_NUMBER_MILLI: u64 = 1_000_000_000_000;

/// `pow10` of sums is the product of `pow10`s.
pub proof fn lemma_pow10_add(a: nat, b: nat)
    ensures
        pow10(a + b) == pow10(a) * pow10(b),
    decreases a,
{
    if a == 0 {
        assert(pow10(b) == 1 * pow10(b));
    } else {
        lemma_pow10_add((a - 1) as nat, b);
        assert(pow10((a - 1) as nat + b) == pow10((a - 1) as nat) * pow10(b));
        assert((a - 1) as nat + b == (a + b - 1) as nat);
        assert(pow10(a + b) == 10 * (pow10((a - 1) as nat) * pow10(b)));
        assert(10 * (pow10((a - 1) as nat) * pow10(b)) == (10 * pow10((a - 1) as nat)) * pow10(
            b,
        )) by (nonlinear_arith);
    }
}

/// A digit run's value is non-negative and below `pow10` of its length.
pub proof fn lemma_digits_val_bound(s: Seq<u8>, i: int, j: int)
    requires
        i <= j,
        forall|k: int| i <= k < j ==> is_digit(#[trigger] s[k]),
    ensures
        0 <= digits_val(s, i, j) < pow10((j - i) as nat),
    decreases j - i,
{
    if j <= i {
    } else {
        lemma_digits_val_bound(s, i, j - 1);
        lemma_pow10_monotone(0, (j - 1 - i) as nat);
        assert(digits_val(s, i, j - 1) * 10 <= (pow10((j - 1 - i) as nat) - 1) * 10) by (
        nonlinear_arith)
            requires digits_val(s, i, j - 1) <= pow10((j - 1 - i) as nat) - 1;
        assert(pow10((j - i) as nat) == 10 * pow10((j - 1 - i) as nat));
        assert(digits_val(s, i, j - 1) * 10 >= 0) by (nonlinear_arith)
            requires digits_val(s, i, j - 1) >= 0;
    }
}

/// Every byte of the run `digits_end` spans is a digit.
pub proof fn lemma_digits_run(s: Seq<u8>, i: int)
    requires
        0 <= i,
    ensures
        i <= digits_end(s, i) <= s.len() || s.len() < i,
        forall|k: int| i <= k < digits_end(s, i) ==> is_digit(#[trigger] s[k]),
    decreases s.len() - i,
{
    if i < s.len() && is_digit(s[i]) {
        lemma_digits_run(s, i + 1);
    }
}

/// An optional exponent written at `i`: its signed value and its end; four
/// digits at most.
pub open spec fn exp_part(s: Seq<u8>, i: int) -> Option<(int, int)> {
    if 0 <= i < s.len() && (s[i] == 101 || s[i] == 69) {
        let e0 = i + 1;
        let eneg = e0 < s.len() && s[e0] == 45;
        let e1 = if e0 < s.len() && (s[e0] == 43 || s[e0] == 45) {
            e0 + 1
        } else {
            e0
        };
        let e2 = digits_end(s, e1);
        if e2 == e1 || e2 - e1 > 4 {
            None
        } else if eneg {
            Some((-digits_val(s, e1, e2), e2))
        } else {
            Some((digits_val(s, e1, e2), e2))
        }
    } else {
        Some((0, i))
    }
}

/// The decoded value in thousandths for a digit string `dval` carrying
/// `nfrac` fractional digits and a decimal exponent `exp`: truncated
/// towards zero, refused beyond the magnitude cap.
pub open spec fn number_milli(neg: bool, dval: int, nfrac: int, exp: int) -> Option<int> {
    let t = exp - nfrac + 3;
    let mag = if t >= 0 {
        dval * pow10(t as nat)
    } else {
        dval / pow10((-t) as nat)
    };
    if mag > MAX_NUMBER_MILLI {
        None
    } else if neg {
        Some(-mag)
    } else {
        Some(mag)
    }
}

/// A number written at `i`: its value in thousandths and its end. At most
/// seventeen digits over the integer and fraction parts together.
pub open spec fn parse_number(s: Seq<u8>, i: int) -> Option<(int, int)> {
    if !(0 <= i < s.len()) {
        None
    } else {
        let neg = s[i] == 45;
        let i1 = if neg {
            i + 1
        } else {
            i
        };
        let d1 = digits_end(s, i1);
        if d1 == i1 {
            None
        } else {
            let hasfrac = d1 < s.len() && s[d1] == 46;
            let f0 = if hasfrac {
                d1 + 1
            } else {
                d1
            };
            let f1 = digits_end(s, f0);
            if hasfrac && f1 == f0 {
                None
            } else if (d1 - i1) + (f1 - f0) > 17 {
                None
            } else {
                let dval = digits_val(s, i1, d1) * pow10((f1 - f0) as nat) + digits_val(
                    s,
                    f0,
                    f1,
                );
                match exp_part(s, f1) {
                    None => None,
                    Some(ep) => match number_milli(neg, dval, f1 - f0, ep.0) {
                        None => None,
                        Some(v) => Some((v, ep.1)),
                    },
                }
            }
        }
    }
}

/// Ten to the `k` as a machine word.
pub fn pow10_u64(k: u64) -> (r: u64)
    requires
        k <= 18,
    ensures
        r == pow10(k as nat),
{
    let mut r: u64 = 1;
    let mut i: u64 = 0;
    proof {
        lemma_pow10_monotone(k as nat, 18);
        reveal_with_fuel(pow10, 19);
        assert(pow10(18) == 1_000_000_000_000_000_000);
    }
    while i < k
        invariant
            i <= k <= 18,
            r == pow10(i as nat),
            pow10(k as nat) <= 1_000_000_000_000_000_000,
        decreases k - i,
    {
        proof {
            lemma_pow10_monotone((i + 1) as nat, k as nat);
        }
        r = r * 10;
        i = i + 1;
    }
    r
}

/// Accumulate the value of the digit run `s[i..j)`.
pub fn read_digits(s: &[u8], i: usize, j: usize) -> (r: u64)
    requires
        i <= j <= s@.len(),
        j - i <= 17,
        forall|k: int| i <= k < j ==> is_digit(#[trigger] s@[k]),
    ensures
        r == digits_val(s@, i as int, j as int),
        r < pow10((j - i) as nat),
{
    let mut r: u64 = 0;
    let mut k: usize = i;
    while k < j
        invariant
            i <= k <= j <= s@.len(),
            j - i <= 17,
            forall|m: int| i <= m < j ==> is_digit(#[trigger] s@[m]),
            r == digits_val(s@, i as int, k as int),
            r < pow10((k - i) as nat),
        decreases j - k,
    {
        proof {
            lemma_digits_val_bound(s@, i as int, k as int);
            lemma_pow10_monotone((k - i + 1) as nat, 17);
            reveal_with_fuel(pow10, 18);
            assert(pow10(17) == 100_000_000_000_000_000);
            assert(r * 10 + 9 < pow10((k - i + 1) as nat)) by (nonlinear_arith)
                requires
                    r < pow10((k - i) as nat),
                    0 <= r,
                    pow10((k - i + 1) as nat) == 10 * pow10((k - i) as nat),
            ;
        }
        let d = s[k];
        r = r * 10 + ((d - 48) as u64);
        k = k + 1;
    }
    r
}

/// Read a number written at `i`, giving its value in thousandths and the
/// position just after it.
#[verifier::rlimit(100)]
pub fn read_number(s: &[u8], i: usize) -> (r: Option<(i64, usize)>)
    requires
        i <= s@.len(),
    ensures
        match r {
            Some(p) => parse_number(s@, i as int) == Some((p.0 as int, p.1 as int)) && i < p.1
                <= s@.len(),
            None => parse_number(s@, i as int) is None,
        },
{
    if i >= s.len() {
        return None;
    }
    let neg = s[i] == 45;
    let i1: usize = if neg {
        i + 1
    } else {
        i
    };
    let d1 = scan_digits(s, i1);
    proof {
        lemma_digits_run(s@, i1 as int);
    }
    if d1 == i1 {
        return None;
    }
    let hasfrac = d1 < s.len() && s[d1] == 46;
    let f0: usize = if hasfrac {
        d1 + 1
    } else {
        d1
    };
    let f1 = scan_digits(s, f0);
    proof {
        lemma_digits_run(s@, f0 as int);
    }
    if hasfrac && f1 == f0 {
        return None;
    }
    if (d1 - i1) + (f1 - f0) > 17 {
        return None;
    }
    let nfrac: usize = f1 - f0;
    let dval: u64 = combine_digits(s, i1, d1, f0, f1);
    let (exp_val, end) = match read_exp(s, f1) {
        Some(p) => p,
        None => {
            return None;
        },
    };
    let mag = match scale_milli(dval, nfrac, exp_val) {
        Some(m) => m,
        None => {
            return None;
        },
    };
    let v: i64 = if neg {
        -(mag as i64)
    } else {
        mag as i64
    };
    Some((v, end))
}


/// The combined digit value of the integer run `s[i1..d1)` and the fraction
/// run `s[f0..f1)`, as written with the fraction digits shifted in.
fn combine_digits(s: &[u8], i1: usize, d1: usize, f0: usize, f1: usize) -> (r: u64)
    requires
        i1 <= d1 <= f0 <= f1 <= s@.len(),
        (d1 - i1) + (f1 - f0) <= 17,
        forall|k: int| i1 <= k < d1 ==> is_digit(#[trigger] s@[k]),
        forall|k: int| f0 <= k < f1 ==> is_digit(#[trigger] s@[k]),
    ensures
        r == digits_val(s@, i1 as int, d1 as int) * pow10((f1 - f0) as nat) + digits_val(
            s@,
            f0 as int,
            f1 as int,
        ),
        r < 100_000_000_000_000_000,
{
    let nfrac: usize = f1 - f0;
    let ival = read_digits(s, i1, d1);
    let fval = read_digits(s, f0, f1);
    let pfrac = pow10_u64(nfrac as u64);
    proof {
        lemma_pow10_add((d1 - i1) as nat, nfrac as nat);
        assert(ival * pfrac + fval < pow10(((d1 - i1) + nfrac) as nat)) by (nonlinear_arith)
            requires
                0 <= ival,
                ival < pow10((d1 - i1) as nat),
                0 <= fval < pfrac,
                pfrac == pow10(nfrac as nat),
                pow10(((d1 - i1) + nfrac) as nat) == pow10((d1 - i1) as nat) * pow10(
                    nfrac as nat,
                ),
        ;
        lemma_pow10_monotone(((d1 - i1) + nfrac) as nat, 17);
        assert(pow10(17) == 100_000_000_000_000_000) by {
            reveal_with_fuel(pow10, 18);
        }
    }
    ival * pfrac + fval
}

/// Read the optional exponent written at `i`, giving its signed value and
/// its end.
fn read_exp(s: &[u8], i: usize) -> (r: Option<(i64, usize)>)
    requires
        i <= s@.len(),
    ensures
        match r {
            Some(p) => exp_part(s@, i as int) == Some((p.0 as int, p.1 as int)) && i <= p.1
                <= s@.len() && -9999 <= p.0 <= 9999,
            None => exp_part(s@, i as int) is None,
        },
{
    if i < s.len() && (s[i] == 101 || s[i] == 69) {
        let e0 = i + 1;
        let mut exp_neg = false;
        let e1: usize = if e0 < s.len() && (s[e0] == 43 || s[e0] == 45) {
            exp_neg = s[e0] == 45;
            e0 + 1
        } else {
            e0
        };
        let e2 = scan_digits(s, e1);
        proof {
            lemma_digits_run(s@, e1 as int);
        }
        if e2 == e1 || e2 - e1 > 4 {
            return None;
        }
        let exp_mag = read_digits(s, e1, e2);
        proof {
            lemma_pow10_monotone((e2 - e1) as nat, 4);
            assert(pow10(4) == 10000) by {
                reveal_with_fuel(pow10, 5);
            }
        }
        let v: i64 = if exp_neg {
            -(exp_mag as i64)
        } else {
            exp_mag as i64
        };
        Some((v, e2))
    } else {
        Some((0, i))
    }
}

/// Scale a digit value with `nfrac` fractional digits and decimal exponent
/// `exp_val` to thousandths, truncating towards zero; refused beyond the
/// magnitude cap.
fn scale_milli(dval: u64, nfrac: usize, exp_val: i64) -> (r: Option<u64>)
    requires
        dval < 100_000_000_000_000_000,
        nfrac <= 17,
        -9999 <= exp_val <= 9999,
    ensures
        ({
            let t = exp_val - nfrac + 3;
            let mag = if t >= 0 {
                (dval as int) * pow10(t as nat)
            } else {
                (dval as int) / pow10((-t) as nat)
            };
            match r {
                Some(m) => m == mag && m <= MAX_NUMBER_MILLI,
                None => mag > MAX_NUMBER_MILLI,
            }
        }),
{
    let t: i64 = exp_val - (nfrac as i64) + 3;
    if t >= 0 {
        if dval == 0 {
            proof {
                assert(0 * pow10(t as nat) == 0) by (nonlinear_arith);
            }
            Some(0)
        } else if t > 12 {
            proof {
                lemma_pow10_monotone(13, t as nat);
                assert(pow10(13) == 10_000_000_000_000) by {
                    reveal_with_fuel(pow10, 14);
                }
                assert(dval * pow10(t as nat) >= 1 * pow10(t as nat)) by (nonlinear_arith)
                    requires dval >= 1, pow10(t as nat) > 0;
            }
            None
        } else {
            let p = pow10_u64(t as u64);
            proof {
                lemma_pow10_monotone(0, t as nat);
                lemma_pow10_add(t as nat, (12 - t) as nat);
                assert(pow10(12) == 1_000_000_000_000) by {
                    reveal_with_fuel(pow10, 13);
                }
                assert(1_000_000_000_000int / (p as int) == pow10((12 - t) as nat)) by (
                nonlinear_arith)
                    requires
                        1_000_000_000_000int == (p as int) * pow10((12 - t) as nat),
                        p > 0,
                ;
                assert(pow10((12 - t) as nat) * (p as int) == 1_000_000_000_000) by (
                nonlinear_arith)
                    requires 1_000_000_000_000int == (p as int) * pow10((12 - t) as nat);
            }
            if dval > 1_000_000_000_000 / p {
                proof {
                    assert(dval * (p as int) > pow10((12 - t) as nat) * (p as int)) by (
                    nonlinear_arith)
                        requires dval > pow10((12 - t) as nat), p > 0;
                }
                None
            } else {
                proof {
                    assert(dval * (p as int) <= pow10((12 - t) as nat) * (p as int)) by (
                    nonlinear_arith)
                        requires dval <= pow10((12 - t) as nat), p > 0;
                }
                Some(dval * p)
            }
        }
    } else {
        let k = (-t) as u64;
        if k >= 18 {
            proof {
                lemma_pow10_monotone(18, k as nat);
                assert(pow10(18) == 1_000_000_000_000_000_000) by {
                    reveal_with_fuel(pow10, 19);
                }
                vstd::arithmetic::div_mod::lemma_basic_div(dval as int, pow10(k as nat));
            }
            Some(0)
        } else {
            let p = pow10_u64(k);
            proof {
                lemma_pow10_monotone(0, k as nat);
                assert((dval as int) / (p as int) <= dval) by (nonlinear_arith)
                    requires 0 <= dval, p >= 1;
                assert((dval as int) / (p as int) >= 0) by (nonlinear_arith)
                    requires 0 <= dval, p >= 1;
            }
            let m = dval / p;
            if m > 1_000_000_000_000 {
                None
            } else {
                Some(m)
            }
        }
    }
}


/// The end of any syntactically accepted value written at `i`: a string, a
/// number, an object, an array, or one of the three literal words.
pub open spec fn skip_value(s: Seq<u8>, i: int) -> Option<int>
    decreases s.len() - i, 0int,
{
    if !(0 <= i < s.len()) {
        None
    } else if s[i] == 34 {
        match parse_string(s, i) {
            Some(p) => Some(p.1),
            None => None,
        }
    } else if s[i] == 123 {
        skip_members(s, i + 1)
    } else if s[i] == 91 {
        skip_elements(s, i + 1)
    } else if s[i] == 116 {
        if i + 4 <= s.len() && s[i + 1] == 114 && s[i + 2] == 117 && s[i + 3] == 101 {
            Some(i + 4)
        } else {
            None
        }
    } else if s[i] == 102 {
        if i + 5 <= s.len() && s[i + 1] == 97 && s[i + 2] == 108 && s[i + 3] == 115 && s[i + 4]
            == 101 {
            Some(i + 5)
        } else {
            None
        }
    } else if s[i] == 110 {
        if i + 4 <= s.len() && s[i + 1] == 117 && s[i + 2] == 108 && s[i + 3] == 108 {
            Some(i + 4)
        } else {
            None
        }
    } else {
        match parse_number(s, i) {
            Some(p) => Some(p.1),
            None => None,
        }
    }
}

/// The end of an object body, read from just after the opening brace.
pub open spec fn skip_members(s: Seq<u8>, i: int) -> Option<int>
    decreases s.len() - i, 2int,
{
    if i < 0 {
        None
    } else {
        let j = ws_end(s, i);
        if j >= s.len() || j < i {
            None
        } else if s[j] == 125 {
            Some(j + 1)
        } else {
            skip_member_list(s, j)
        }
    }
}

/// The end of a non-empty run of `key: value` members followed by the
/// closing brace, read from the first key.
pub open spec fn skip_member_list(s: Seq<u8>, i: int) -> Option<int>
    decreases s.len() - i, 1int,
{
    match parse_string(s, i) {
        None => None,
        Some(key) => {
            let c = ws_end(s, key.1);
            if c >= s.len() || s[c] != 58 {
                None
            } else {
                let v0 = ws_end(s, c + 1);
                if v0 <= i || v0 > s.len() {
                    None
                } else {
                    match skip_value(s, v0) {
                        None => None,
                        Some(ve) => {
                            let t = ws_end(s, ve);
                            if t >= s.len() {
                                None
                            } else if s[t] == 44 {
                                let n = ws_end(s, t + 1);
                                if n <= i || n > s.len() {
                                    None
                                } else {
                                    skip_member_list(s, n)
                                }
                            } else if s[t] == 125 {
                                Some(t + 1)
                            } else {
                                None
                            }
                        },
                    }
                }
            }
        },
    }
}

/// The end of an array body, read from just after the opening bracket.
pub open spec fn skip_elements(s: Seq<u8>, i: int) -> Option<int>
    decreases s.len() - i, 2int,
{
    if i < 0 {
        None
    } else {
        let j = ws_end(s, i);
        if j >= s.len() || j < i {
            None
        } else if s[j] == 93 {
            Some(j + 1)
        } else {
            skip_element_list(s, j)
        }
    }
}

/// The end of a non-empty run of array elements followed by the closing
/// bracket, read from the first element.
pub open spec fn skip_element_list(s: Seq<u8>, i: int) -> Option<int>
    decreases s.len() - i, 1int,
{
    match skip_value(s, i) {
        None => None,
        Some(ve) => {
            let t = ws_end(s, ve);
            if t >= s.len() {
                None
            } else if s[t] == 44 {
                let n = ws_end(s, t + 1);
                if n <= i || n > s.len() {
                    None
                } else {
                    skip_element_list(s, n)
                }
            } else if s[t] == 93 {
                Some(t + 1)
            } else {
                None
            }
        },
    }
}


/// Skip one value written at `i`, giving the position just after it.
pub fn do_skip_value(s: &[u8], i: usize) -> (r: Option<usize>)
    requires
        i <= s@.len(),
    ensures
        match r {
            Some(e) => skip_value(s@, i as int) == Some(e as int) && i < e <= s@.len(),
            None => skip_value(s@, i as int) is None,
        },
    decreases s@.len() - i, 0int,
{
    if i >= s.len() {
        return None;
    }
    let b = s[i];
    if b == 34 {
        match read_string(s, i) {
            Some(p) => Some(p.1),
            None => None,
        }
    } else if b == 123 {
        do_skip_members(s, i + 1)
    } else if b == 91 {
        do_skip_elements(s, i + 1)
    } else if b == 116 {
        if s.len() - i >= 4 && s[i + 1] == 114 && s[i + 2] == 117 && s[i + 3] == 101 {
            Some(i + 4)
        } else {
            None
        }
    } else if b == 102 {
        if s.len() - i >= 5 && s[i + 1] == 97 && s[i + 2] == 108 && s[i + 3] == 115 && s[i + 4]
            == 101 {
            Some(i + 5)
        } else {
            None
        }
    } else if b == 110 {
        if s.len() - i >= 4 && s[i + 1] == 117 && s[i + 2] == 108 && s[i + 3] == 108 {
            Some(i + 4)
        } else {
            None
        }
    } else {
        match read_number(s, i) {
            Some(p) => Some(p.1),
            None => None,
        }
    }
}

/// Skip an object body from just after its opening brace.
pub fn do_skip_members(s: &[u8], i: usize) -> (r: Option<usize>)
    requires
        i <= s@.len(),
    ensures
        match r {
            Some(e) => skip_members(s@, i as int) == Some(e as int) && i < e <= s@.len(),
            None => skip_members(s@, i as int) is None,
        },
    decreases s@.len() - i, 2int,
{
    let j = scan_ws(s, i);
    if j >= s.len() {
        None
    } else if s[j] == 125 {
        Some(j + 1)
    } else {
        do_skip_member_list(s, j)
    }
}

/// Skip a non-empty run of members and the closing brace, from the first
/// key.
pub fn do_skip_member_list(s: &[u8], i: usize) -> (r: Option<usize>)
    requires
        i < s@.len(),
    ensures
        match r {
            Some(e) => skip_member_list(s@, i as int) == Some(e as int) && i < e <= s@.len(),
            None => skip_member_list(s@, i as int) is None,
        },
    decreases s@.len() - i, 1int,
{
    let key = match read_string(s, i) {
        Some(p) => p,
        None => {
            return None;
        },
    };
    let c = scan_ws(s, key.1);
    if c >= s.len() || s[c] != 58 {
        return None;
    }
    let v0 = scan_ws(s, c + 1);
    let ve = match do_skip_value(s, v0) {
        Some(e) => e,
        None => {
            return None;
        },
    };
    let t = scan_ws(s, ve);
    if t >= s.len() {
        None
    } else if s[t] == 44 {
        let n = scan_ws(s, t + 1);
        if n >= s.len() {
            proof {
                assert(skip_member_list(s@, n as int) is None);
            }
            None
        } else {
            do_skip_member_list(s, n)
        }
    } else if s[t] == 125 {
        Some(t + 1)
    } else {
        None
    }
}

/// Skip an array body from just after its opening bracket.
pub fn do_skip_elements(s: &[u8], i: usize) -> (r: Option<usize>)
    requires
        i <= s@.len(),
    ensures
        match r {
            Some(e) => skip_elements(s@, i as int) == Some(e as int) && i < e <= s@.len(),
            None => skip_elements(s@, i as int) is None,
        },
    decreases s@.len() - i, 2int,
{
    let j = scan_ws(s, i);
    if j >= s.len() {
        None
    } else if s[j] == 93 {
        Some(j + 1)
    } else {
        do_skip_element_list(s, j)
    }
}

/// Skip a non-empty run of elements and the closing bracket, from the first
/// element.
pub fn do_skip_element_list(s: &[u8], i: usize) -> (r: Option<usize>)
    requires
        i < s@.len(),
    ensures
        match r {
            Some(e) => skip_element_list(s@, i as int) == Some(e as int) && i < e <= s@.len(),
            None => skip_element_list(s@, i as int) is None,
        },
    decreases s@.len() - i, 1int,
{
    let ve = match do_skip_value(s, i) {
        Some(e) => e,
        None => {
            return None;
        },
    };
    let t = scan_ws(s, ve);
    if t >= s.len() {
        None
    } else if s[t] == 44 {
        let n = scan_ws(s, t + 1);
        if n >= s.len() {
            proof {
                assert(skip_value(s@, n as int) is None);
                assert(skip_element_list(s@, n as int) is None);
            }
            None
        } else {
            do_skip_element_list(s, n)
        }
    } else if s[t] == 93 {
        Some(t + 1)
    } else {
        None
    }
}


/// The bytes of the key naming the resource identifier.
pub open spec fn key_resource() -> Seq<u8> {
    seq![114u8, 101u8, 115u8, 111u8, 117u8, 114u8, 99u8, 101u8]
}

/// The bytes of the key naming the warning level.
pub open spec fn key_warning() -> Seq<u8> {
    seq![119u8, 97u8, 114u8, 110u8, 105u8, 110u8, 103u8]
}

/// The bytes of the key naming the icon glyph.
pub open spec fn key_icon() -> Seq<u8> {
    seq![105u8, 99u8, 111u8, 110u8]
}

/// The bytes of the key naming the structured payload.
pub open spec fn key_data() -> Seq<u8> {
    seq![100u8, 97u8, 116u8, 97u8]
}

/// The bytes of the payload key naming the battery estimate, in minutes.
pub open spec fn key_eta() -> Seq<u8> {
    seq![101u8, 116u8, 97u8]
}

/// The bytes of the payload key naming the battery state.
pub open spec fn key_state() -> Seq<u8> {
    seq![115u8, 116u8, 97u8, 116u8, 101u8]
}

/// The fields gathered while walking a record object.
pub struct RecordAcc {
    pub resource: Option<Seq<u8>>,
    pub warning: Option<int>,
    pub icon: Option<Seq<u8>>,
    pub has_data: bool,
    pub eta: Option<int>,
    pub state: Option<Seq<u8>>,
}

/// One fully decoded status record: the resource it concerns, its warning
/// level in thousandths, its glyph bytes, and what the structured payload
/// carried for the battery, if anything.
pub struct RecordV {
    pub resource: Seq<u8>,
    pub warning: int,
    pub icon: Seq<u8>,
    pub has_data: bool,
    pub eta: Option<int>,
    pub state: Option<Seq<u8>>,
}

/// Consume one member value written at `v0` under `key`, folding what it
/// says into the accumulator. Known keys must carry their expected shape;
/// the payload is walked for the battery fields; anything else is skipped.
pub open spec fn record_member(s: Seq<u8>, v0: int, key: Seq<u8>, acc: RecordAcc) -> Option<
    (RecordAcc, int),
>
    decreases s.len() - v0, 0int,
{
    if key == key_resource() {
        match parse_string(s, v0) {
            Some(p) => Some(
                (
                    RecordAcc {
                        resource: Some(p.0),
                        warning: acc.warning,
                        icon: acc.icon,
                        has_data: acc.has_data,
                        eta: acc.eta,
                        state: acc.state,
                    },
                    p.1,
                ),
            ),
            None => None,
        }
    } else if key == key_warning() {
        match parse_number(s, v0) {
            Some(p) => Some(
                (
                    RecordAcc {
                        resource: acc.resource,
                        warning: Some(p.0),
                        icon: acc.icon,
                        has_data: acc.has_data,
                        eta: acc.eta,
                        state: acc.state,
                    },
                    p.1,
                ),
            ),
            None => None,
        }
    } else if key == key_icon() {
        match parse_string(s, v0) {
            Some(p) => Some(
                (
                    RecordAcc {
                        resource: acc.resource,
                        warning: acc.warning,
                        icon: Some(p.0),
                        has_data: acc.has_data,
                        eta: acc.eta,
                        state: acc.state,
                    },
                    p.1,
                ),
            ),
            None => None,
        }
    } else if key == key_data() {
        let base = RecordAcc {
            resource: acc.resource,
            warning: acc.warning,
            icon: acc.icon,
            has_data: true,
            eta: None,
            state: None,
        };
        if 0 <= v0 < s.len() && s[v0] == 123 {
            let j = ws_end(s, v0 + 1);
            if j >= s.len() || j <= v0 {
                None
            } else if s[j] == 125 {
                Some((base, j + 1))
            } else {
                data_fields(s, j, base)
            }
        } else if 0 <= v0 && v0 + 4 <= s.len() && s[v0] == 110 && s[v0 + 1] == 117 && s[v0 + 2]
            == 108 && s[v0 + 3] == 108 {
            Some(
                (
                    RecordAcc {
                        resource: acc.resource,
                        warning: acc.warning,
                        icon: acc.icon,
                        has_data: false,
                        eta: None,
                        state: None,
                    },
                    v0 + 4,
                ),
            )
        } else {
            match skip_value(s, v0) {
                Some(ve) => Some((base, ve)),
                None => None,
            }
        }
    } else {
        match skip_value(s, v0) {
            Some(ve) => Some((acc, ve)),
            None => None,
        }
    }
}

/// Consume one payload member value written at `v0` under `key`: a numeric
/// battery estimate, a string battery state, or anything else skipped.
pub open spec fn data_member(s: Seq<u8>, v0: int, key: Seq<u8>, acc: RecordAcc) -> Option<
    (RecordAcc, int),
> {
    if key == key_eta() {
        match parse_number(s, v0) {
            Some(p) => Some(
                (
                    RecordAcc {
                        resource: acc.resource,
                        warning: acc.warning,
                        icon: acc.icon,
                        has_data: acc.has_data,
                        eta: Some(p.0),
                        state: acc.state,
                    },
                    p.1,
                ),
            ),
            None => match skip_value(s, v0) {
                Some(ve) => Some(
                    (
                        RecordAcc {
                            resource: acc.resource,
                            warning: acc.warning,
                            icon: acc.icon,
                            has_data: acc.has_data,
                            eta: None,
                            state: acc.state,
                        },
                        ve,
                    ),
                ),
                None => None,
            },
        }
    } else if key == key_state() {
        match parse_string(s, v0) {
            Some(p) => Some(
                (
                    RecordAcc {
                        resource: acc.resource,
                        warning: acc.warning,
                        icon: acc.icon,
                        has_data: acc.has_data,
                        eta: acc.eta,
                        state: Some(p.0),
                    },
                    p.1,
                ),
            ),
            None => match skip_value(s, v0) {
                Some(ve) => Some(
                    (
                        RecordAcc {
                            resource: acc.resource,
                            warning: acc.warning,
                            icon: acc.icon,
                            has_data: acc.has_data,
                            eta: acc.eta,
                            state: None,
                        },
                        ve,
                    ),
                ),
                None => None,
            },
        }
    } else {
        match skip_value(s, v0) {
            Some(ve) => Some((acc, ve)),
            None => None,
        }
    }
}

/// Walk the members of the payload object from the first key, gathering the
/// battery fields, up to and past the closing brace.
pub open spec fn data_fields(s: Seq<u8>, i: int, acc: RecordAcc) -> Option<(RecordAcc, int)>
    decreases s.len() - i, 1int,
{
    match parse_string(s, i) {
        None => None,
        Some(key) => {
            let c = ws_end(s, key.1);
            if c >= s.len() || s[c] != 58 {
                None
            } else {
                let v0 = ws_end(s, c + 1);
                if v0 <= i || v0 >= s.len() {
                    None
                } else {
                    match data_member(s, v0, key.0, acc) {
                        None => None,
                        Some(st) => {
                            let t = ws_end(s, st.1);
                            if t >= s.len() {
                                None
                            } else if s[t] == 44 {
                                let n = ws_end(s, t + 1);
                                if n <= i || n > s.len() {
                                    None
                                } else {
                                    data_fields(s, n, st.0)
                                }
                            } else if s[t] == 125 {
                                Some((st.0, t + 1))
                            } else {
                                None
                            }
                        },
                    }
                }
            }
        },
    }
}

/// Walk the members of the record object from the first key, gathering the
/// known fields, up to and past the closing brace.
pub open spec fn record_fields(s: Seq<u8>, i: int, acc: RecordAcc) -> Option<(RecordAcc, int)>
    decreases s.len() - i, 1int,
{
    match parse_string(s, i) {
        None => None,
        Some(key) => {
            let c = ws_end(s, key.1);
            if c >= s.len() || s[c] != 58 {
                None
            } else {
                let v0 = ws_end(s, c + 1);
                if v0 <= i || v0 >= s.len() {
                    None
                } else {
                    match record_member(s, v0, key.0, acc) {
                        None => None,
                        Some(st) => {
                            let t = ws_end(s, st.1);
                            if t >= s.len() {
                                None
                            } else if s[t] == 44 {
                                let n = ws_end(s, t + 1);
                                if n <= i || n > s.len() {
                                    None
                                } else {
                                    record_fields(s, n, st.0)
                                }
                            } else if s[t] == 125 {
                                Some((st.0, t + 1))
                            } else {
                                None
                            }
                        },
                    }
                }
            }
        },
    }
}

/// The accumulator a record walk starts from.
pub open spec fn empty_acc() -> RecordAcc {
    RecordAcc { resource: None, warning: None, icon: None, has_data: false, eta: None, state: None }
}

/// One framed message as a whole: a single record object, possibly
/// surrounded by blanks, holding at least the resource, warning and icon
/// fields.
pub open spec fn parse_record(s: Seq<u8>) -> Option<RecordV> {
    let i0 = ws_end(s, 0);
    if i0 >= s.len() || s[i0] != 123 {
        None
    } else {
        let j = ws_end(s, i0 + 1);
        let walked = if j >= s.len() {
            None
        } else if s[j] == 125 {
            Some((empty_acc(), j + 1))
        } else {
            record_fields(s, j, empty_acc())
        };
        match walked {
            None => None,
            Some(st) => {
                if ws_end(s, st.1) != s.len() {
                    None
                } else {
                    match (st.0.resource, st.0.warning, st.0.icon) {
                        (Some(res), Some(w), Some(ic)) => Some(
                            RecordV {
                                resource: res,
                                warning: w,
                                icon: ic,
                                has_data: st.0.has_data,
                                eta: st.0.eta,
                                state: st.0.state,
                            },
                        ),
                        _ => None,
                    }
                }
            },
        }
    }
}


/// One decoded unit of the streaming status protocol, as plain values: the
/// resource identifier and icon glyph as raw bytes, the warning level in
/// thousandths, and the battery payload fields when a payload was present.
pub struct PartialMsg {
    pub resource: Vec<u8>,
    pub warning: i64,
    pub icon: Vec<u8>,
    pub has_data: bool,
    pub eta: Option<i64>,
    pub state: Option<Vec<u8>>,
}

impl View for PartialMsg {
    type V = RecordV;

    open spec fn view(&self) -> RecordV {
        RecordV {
            resource: self.resource@,
            warning: self.warning as int,
            icon: self.icon@,
            has_data: self.has_data,
            eta: match self.eta {
                Some(v) => Some(v as int),
                None => None,
            },
            state: match self.state {
                Some(ref v) => Some(v@),
                None => None,
            },
        }
    }
}

/// The record fields gathered so far while walking the object.
struct AccE {
    resource: Option<Vec<u8>>,
    warning: Option<i64>,
    icon: Option<Vec<u8>>,
    has_data: bool,
    eta: Option<i64>,
    state: Option<Vec<u8>>,
}

impl View for AccE {
    type V = RecordAcc;

    closed spec fn view(&self) -> RecordAcc {
        RecordAcc {
            resource: match self.resource {
                Some(ref v) => Some(v@),
                None => None,
            },
            warning: match self.warning {
                Some(v) => Some(v as int),
                None => None,
            },
            icon: match self.icon {
                Some(ref v) => Some(v@),
                None => None,
            },
            has_data: self.has_data,
            eta: match self.eta {
                Some(v) => Some(v as int),
                None => None,
            },
            state: match self.state {
                Some(ref v) => Some(v@),
                None => None,
            },
        }
    }
}

/// Whether `k` spells the resource key.
fn is_key_resource(k: &Vec<u8>) -> (r: bool)
    ensures
        r == (k@ == key_resource()),
{
    let r = k.len() == 8 && k[0] == 114 && k[1] == 101 && k[2] == 115 && k[3] == 111 && k[4]
        == 117 && k[5] == 114 && k[6] == 99 && k[7] == 101;
    proof {
        if r {
            assert(k@ =~= key_resource());
        } else if k@ == key_resource() {
            assert(k@.len() == 8);
            assert(false);
        }
    }
    r
}

/// Whether `k` spells the warning key.
fn is_key_warning(k: &Vec<u8>) -> (r: bool)
    ensures
        r == (k@ == key_warning()),
{
    let r = k.len() == 7 && k[0] == 119 && k[1] == 97 && k[2] == 114 && k[3] == 110 && k[4]
        == 105 && k[5] == 110 && k[6] == 103;
    proof {
        if r {
            assert(k@ =~= key_warning());
        } else if k@ == key_warning() {
            assert(k@.len() == 7);
            assert(false);
        }
    }
    r
}

/// Whether `k` spells the icon key.
fn is_key_icon(k: &Vec<u8>) -> (r: bool)
    ensures
        r == (k@ == key_icon()),
{
    let r = k.len() == 4 && k[0] == 105 && k[1] == 99 && k[2] == 111 && k[3] == 110;
    proof {
        if r {
            assert(k@ =~= key_icon());
        } else if k@ == key_icon() {
            assert(k@.len() == 4);
            assert(false);
        }
    }
    r
}

/// Whether `k` spells the payload key.
fn is_key_data(k: &Vec<u8>) -> (r: bool)
    ensures
        r == (k@ == key_data()),
{
    let r = k.len() == 4 && k[0] == 100 && k[1] == 97 && k[2] == 116 && k[3] == 97;
    proof {
        if r {
            assert(k@ =~= key_data());
        } else if k@ == key_data() {
            assert(k@.len() == 4);
            assert(false);
        }
    }
    r
}

/// Whether `k` spells the battery-estimate key.
fn is_key_eta(k: &Vec<u8>) -> (r: bool)
    ensures
        r == (k@ == key_eta()),
{
    let r = k.len() == 3 && k[0] == 101 && k[1] == 116 && k[2] == 97;
    proof {
        if r {
            assert(k@ =~= key_eta());
        } else if k@ == key_eta() {
            assert(k@.len() == 3);
            assert(false);
        }
    }
    r
}

/// Whether `k` spells the battery-state key.
fn is_key_state(k: &Vec<u8>) -> (r: bool)
    ensures
        r == (k@ == key_state()),
{
    let r = k.len() == 5 && k[0] == 115 && k[1] == 116 && k[2] == 97 && k[3] == 116 && k[4]
        == 101;
    proof {
        if r {
            assert(k@ =~= key_state());
        } else if k@ == key_state() {
            assert(k@.len() == 5);
            assert(false);
        }
    }
    r
}

/// Consume one payload member value at `v0` under `key`.
fn data_member_ex(s: &[u8], v0: usize, key: &Vec<u8>, acc: AccE) -> (r: Option<(AccE, usize)>)
    requires
        v0 < s@.len(),
    ensures
        match r {
            Some(p) => data_member(s@, v0 as int, key@, acc@) == Some((p.0@, p.1 as int)) && v0
                < p.1 <= s@.len(),
            None => data_member(s@, v0 as int, key@, acc@) is None,
        },
{
    if is_key_eta(key) {
        match read_number(s, v0) {
            Some(p) => Some(
                (
                    AccE {
                        resource: acc.resource,
                        warning: acc.warning,
                        icon: acc.icon,
                        has_data: acc.has_data,
                        eta: Some(p.0),
                        state: acc.state,
                    },
                    p.1,
                ),
            ),
            None => match do_skip_value(s, v0) {
                Some(ve) => Some(
                    (
                        AccE {
                            resource: acc.resource,
                            warning: acc.warning,
                            icon: acc.icon,
                            has_data: acc.has_data,
                            eta: None,
                            state: acc.state,
                        },
                        ve,
                    ),
                ),
                None => None,
            },
        }
    } else if is_key_state(key) {
        match read_string(s, v0) {
            Some(p) => Some(
                (
                    AccE {
                        resource: acc.resource,
                        warning: acc.warning,
                        icon: acc.icon,
                        has_data: acc.has_data,
                        eta: acc.eta,
                        state: Some(p.0),
                    },
                    p.1,
                ),
            ),
            None => match do_skip_value(s, v0) {
                Some(ve) => Some(
                    (
                        AccE {
                            resource: acc.resource,
                            warning: acc.warning,
                            icon: acc.icon,
                            has_data: acc.has_data,
                            eta: acc.eta,
                            state: None,
                        },
                        ve,
                    ),
                ),
                None => None,
            },
        }
    } else {
        match do_skip_value(s, v0) {
            Some(ve) => Some((acc, ve)),
            None => None,
        }
    }
}

/// Walk the payload object's members from the first key.
fn do_data_fields(s: &[u8], i: usize, acc: AccE) -> (r: Option<(AccE, usize)>)
    requires
        i < s@.len(),
    ensures
        match r {
            Some(p) => data_fields(s@, i as int, acc@) == Some((p.0@, p.1 as int)) && i < p.1
                <= s@.len(),
            None => data_fields(s@, i as int, acc@) is None,
        },
{
    let ghost acc0 = acc@;
    let ghost start = i as int;
    let mut cur: usize = i;
    let mut a = acc;
    loop
        invariant
            start == i as int,
            acc0 == acc@,
            start <= cur < s@.len(),
            data_fields(s@, start, acc0) == data_fields(s@, cur as int, a@),
        decreases s@.len() - cur,
    {
        let key = match read_string(s, cur) {
            Some(p) => p,
            None => {
                return None;
            },
        };
        let c = scan_ws(s, key.1);
        if c >= s.len() || s[c] != 58 {
            return None;
        }
        let v0 = scan_ws(s, c + 1);
        if v0 >= s.len() {
            return None;
        }
        let st = match data_member_ex(s, v0, &key.0, a) {
            Some(st) => st,
            None => {
                return None;
            },
        };
        a = st.0;
        let t = scan_ws(s, st.1);
        if t >= s.len() {
            return None;
        }
        if s[t] == 44 {
            let n = scan_ws(s, t + 1);
            if n >= s.len() {
                proof {
                    assert(parse_string(s@, n as int) is None);
                    assert(data_fields(s@, n as int, a@) is None);
                }
                return None;
            }
            cur = n;
        } else if s[t] == 125 {
            return Some((a, t + 1));
        } else {
            return None;
        }
    }
}

/// Consume one record member value at `v0` under `key`.
fn record_member_ex(s: &[u8], v0: usize, key: &Vec<u8>, acc: AccE) -> (r: Option<(AccE, usize)>)
    requires
        v0 < s@.len(),
    ensures
        match r {
            Some(p) => record_member(s@, v0 as int, key@, acc@) == Some((p.0@, p.1 as int))
                && v0 < p.1 <= s@.len(),
            None => record_member(s@, v0 as int, key@, acc@) is None,
        },
{
    if is_key_resource(key) {
        match read_string(s, v0) {
            Some(p) => Some(
                (
                    AccE {
                        resource: Some(p.0),
                        warning: acc.warning,
                        icon: acc.icon,
                        has_data: acc.has_data,
                        eta: acc.eta,
                        state: acc.state,
                    },
                    p.1,
                ),
            ),
            None => None,
        }
    } else if is_key_warning(key) {
        match read_number(s, v0) {
            Some(p) => Some(
                (
                    AccE {
                        resource: acc.resource,
                        warning: Some(p.0),
                        icon: acc.icon,
                        has_data: acc.has_data,
                        eta: acc.eta,
                        state: acc.state,
                    },
                    p.1,
                ),
            ),
            None => None,
        }
    } else if is_key_icon(key) {
        match read_string(s, v0) {
            Some(p) => Some(
                (
                    AccE {
                        resource: acc.resource,
                        warning: acc.warning,
                        icon: Some(p.0),
                        has_data: acc.has_data,
                        eta: acc.eta,
                        state: acc.state,
                    },
                    p.1,
                ),
            ),
            None => None,
        }
    } else if is_key_data(key) {
        let base = AccE {
            resource: acc.resource,
            warning: acc.warning,
            icon: acc.icon,
            has_data: true,
            eta: None,
            state: None,
        };
        if s[v0] == 123 {
            let j = scan_ws(s, v0 + 1);
            if j >= s.len() {
                None
            } else if s[j] == 125 {
                Some((base, j + 1))
            } else {
                do_data_fields(s, j, base)
            }
        } else if s.len() - v0 >= 4 && s[v0] == 110 && s[v0 + 1] == 117 && s[v0 + 2] == 108 && s[v0
            + 3] == 108 {
            Some(
                (
                    AccE {
                        resource: base.resource,
                        warning: base.warning,
                        icon: base.icon,
                        has_data: false,
                        eta: None,
                        state: None,
                    },
                    v0 + 4,
                ),
            )
        } else {
            match do_skip_value(s, v0) {
                Some(ve) => Some((base, ve)),
                None => None,
            }
        }
    } else {
        match do_skip_value(s, v0) {
            Some(ve) => Some((acc, ve)),
            None => None,
        }
    }
}

/// Walk the record object's members from the first key.
fn do_record_fields(s: &[u8], i: usize, acc: AccE) -> (r: Option<(AccE, usize)>)
    requires
        i < s@.len(),
    ensures
        match r {
            Some(p) => record_fields(s@, i as int, acc@) == Some((p.0@, p.1 as int)) && i < p.1
                <= s@.len(),
            None => record_fields(s@, i as int, acc@) is None,
        },
{
    let ghost acc0 = acc@;
    let ghost start = i as int;
    let mut cur: usize = i;
    let mut a = acc;
    loop
        invariant
            start == i as int,
            acc0 == acc@,
            start <= cur < s@.len(),
            record_fields(s@, start, acc0) == record_fields(s@, cur as int, a@),
        decreases s@.len() - cur,
    {
        let key = match read_string(s, cur) {
            Some(p) => p,
            None => {
                return None;
            },
        };
        let c = scan_ws(s, key.1);
        if c >= s.len() || s[c] != 58 {
            return None;
        }
        let v0 = scan_ws(s, c + 1);
        if v0 >= s.len() {
            return None;
        }
        let st = match record_member_ex(s, v0, &key.0, a) {
            Some(st) => st,
            None => {
                return None;
            },
        };
        a = st.0;
        let t = scan_ws(s, st.1);
        if t >= s.len() {
            return None;
        }
        if s[t] == 44 {
            let n = scan_ws(s, t + 1);
            if n >= s.len() {
                proof {
                    assert(parse_string(s@, n as int) is None);
                    assert(record_fields(s@, n as int, a@) is None);
                }
                return None;
            }
            cur = n;
        } else if s[t] == 125 {
            return Some((a, t + 1));
        } else {
            return None;
        }
    }
}

/// Decode one framed message. `None` is a malformed message, which the
/// stream simply drops.
pub fn read_record(line: &[u8]) -> (r: Option<PartialMsg>)
    ensures
        match r {
            Some(m) => parse_record(line@) == Some(m@),
            None => parse_record(line@) is None,
        },
{
    let i0 = scan_ws(line, 0);
    if i0 >= line.len() || line[i0] != 123 {
        return None;
    }
    let j = scan_ws(line, i0 + 1);
    let walked: (AccE, usize) = if j >= line.len() {
        return None;
    } else if line[j] == 125 {
        (
            AccE {
                resource: None,
                warning: None,
                icon: None,
                has_data: false,
                eta: None,
                state: None,
            },
            j + 1,
        )
    } else {
        let acc0 = AccE {
            resource: None,
            warning: None,
            icon: None,
            has_data: false,
            eta: None,
            state: None,
        };
        match do_record_fields(line, j, acc0) {
            Some(p) => p,
            None => {
                return None;
            },
        }
    };
    let (acc, e) = walked;
    if scan_ws(line, e) != line.len() {
        return None;
    }
    let resource = match acc.resource {
        Some(v) => v,
        None => {
            return None;
        },
    };
    let warning = match acc.warning {
        Some(v) => v,
        None => {
            return None;
        },
    };
    let icon = match acc.icon {
        Some(v) => v,
        None => {
            return None;
        },
    };
    Some(
        PartialMsg {
            resource,
            warning,
            icon,
            has_data: acc.has_data,
            eta: acc.eta,
            state: acc.state,
        },
    )
}

} // verus!
