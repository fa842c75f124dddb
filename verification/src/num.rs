//! Exact decimal numbers.
//!
//! The engine compares numbers as exact decimals: a value is
//! `(-1)^neg * mant / 10^scale` with `scale <= 18`.  A literal is accepted
//! when it matches `[+-]? digits [. digits] [(e|E) [+-]? digits]` and its
//! value fits this shape; anything else does not parse as a number.

use vstd::prelude::*;
use crate::text::Cmp;

verus! {

/// An exact decimal number: `(-1)^neg * mant / 10^scale`.
#[derive(Clone, Copy, PartialEq, Eq, Structural, Debug)]
pub struct Dec {
    pub neg: bool,
    pub mant: u64,
    pub scale: u32,
}

impl Dec {
    /// The scale stays small enough for comparisons in fixed-width arithmetic.
    pub open spec fn wf(self) -> bool {
        self.scale <= 18
    }
}

pub open spec fn pow10(e: nat) -> int
    decreases e,
{
    if e == 0 {
        1
    } else {
        10 * pow10((e - 1) as nat)
    }
}

pub proof fn lemma_pow10_pos(e: nat)
    ensures
        pow10(e) >= 1,
    decreases e,
{
    if e > 0 {
        lemma_pow10_pos((e - 1) as nat);
    }
}

pub proof fn lemma_pow10_le(e1: nat, e2: nat)
    requires
        e1 <= e2,
    ensures
        pow10(e1) <= pow10(e2),
    decreases e2,
{
    if e1 < e2 {
        lemma_pow10_le(e1, (e2 - 1) as nat);
        lemma_pow10_pos(e1);
    }
}

pub proof fn lemma_pow10_18()
    ensures
        pow10(18) == 1_000_000_000_000_000_000,
{
    reveal_with_fuel(pow10, 20);
}

/// The comparison key of a decimal: its value scaled by 10^18, an integer.
pub open spec fn dkey(d: Dec) -> int {
    let e = if d.scale <= 18 {
        (18 - d.scale) as nat
    } else {
        0
    };
    if d.neg {
        -(d.mant as int) * pow10(e)
    } else {
        (d.mant as int) * pow10(e)
    }
}

/// Three-way numeric comparison of two decimals.
pub open spec fn dec_cmp_spec(a: Dec, b: Dec) -> Cmp {
    if dkey(a) < dkey(b) {
        Cmp::Lt
    } else if dkey(b) < dkey(a) {
        Cmp::Gt
    } else {
        Cmp::Eq
    }
}

fn pow10_u64(e: u32) -> (r: u64)
    requires
        e <= 18,
    ensures
        r as int == pow10(e as nat),
    decreases e,
{
    if e == 0 {
        1
    } else {
        let p = pow10_u64(e - 1);
        proof {
            lemma_pow10_le((e - 1) as nat, 17);
            reveal_with_fuel(pow10, 20);
            lemma_pow10_pos((e - 1) as nat);
        }
        10 * p
    }
}

fn dec_key_i128(d: Dec) -> (r: i128)
    requires
        d.wf(),
    ensures
        r as int == dkey(d),
{
    let p = pow10_u64(18 - d.scale);
    proof {
        lemma_pow10_le((18 - d.scale) as nat, 18);
        lemma_pow10_18();
        lemma_pow10_pos((18 - d.scale) as nat);
        assert((d.mant as int) * (p as int) <= (u64::MAX as int) * 1_000_000_000_000_000_000
            && 0 <= (d.mant as int) * (p as int)) by (nonlinear_arith)
            requires
                (d.mant as int) <= u64::MAX as int,
                1 <= (p as int),
                (p as int) <= 1_000_000_000_000_000_000,
        ;
        assert((-(d.mant as int)) * (p as int) == -((d.mant as int) * (p as int)))
            by (nonlinear_arith);
    }
    let m = (d.mant as i128) * (p as i128);
    if d.neg {
        -m
    } else {
        m
    }
}

/// Numeric comparison of two decimals.
pub fn dec_cmp(a: Dec, b: Dec) -> (r: Cmp)
    requires
        a.wf(),
        b.wf(),
    ensures
        r == dec_cmp_spec(a, b),
{
    let ka = dec_key_i128(a);
    let kb = dec_key_i128(b);
    if ka < kb {
        Cmp::Lt
    } else if kb < ka {
        Cmp::Gt
    } else {
        Cmp::Eq
    }
}

/// A decimal digit.
pub open spec fn is_digit(c: char) -> bool {
    '0' <= c && c <= '9'
}

/// The value of a decimal digit.
pub open spec fn dval(c: char) -> int {
    (c as u32) - ('0' as u32)
}

pub(crate) fn is_digit_c(c: char) -> (r: bool)
    ensures
        r == is_digit(c),
{
    '0' <= c && c <= '9'
}

fn digit_val(c: char) -> (r: u32)
    requires
        is_digit(c),
    ensures
        r as int == dval(c),
{
    (c as u32) - ('0' as u32)
}

/// The first position at or after `i` that does not hold a digit.
pub open spec fn digit_run_end(s: Seq<char>, i: int) -> int
    decreases s.len() - i,
{
    if i < 0 || i >= s.len() || !is_digit(s[i]) {
        i
    } else {
        digit_run_end(s, i + 1)
    }
}

pub proof fn lemma_digit_run_end(s: Seq<char>, i: int)
    requires
        0 <= i && i <= s.len(),
    ensures
        i <= digit_run_end(s, i) && digit_run_end(s, i) <= s.len(),
        forall|k: int| i <= k < digit_run_end(s, i) ==> is_digit(s[k]),
        digit_run_end(s, i) < s.len() ==> !is_digit(s[digit_run_end(s, i)]),
    decreases s.len() - i,
{
    if i < s.len() && is_digit(s[i]) {
        lemma_digit_run_end(s, i + 1);
    }
}

pub(crate) fn digit_run_end_exec(v: &Vec<char>, i: usize) -> (r: usize)
    requires
        i <= v@.len(),
    ensures
        r as int == digit_run_end(v@, i as int),
        i <= r && r <= v@.len(),
    decreases v@.len() - i,
{
    if i == v.len() || !is_digit_c(v[i]) {
        i
    } else {
        digit_run_end_exec(v, i + 1)
    }
}

/// The digits of `s[i..j)` folded into `acc`; `None` once the value passes
/// the largest representable mantissa.
pub open spec fn digits_acc(s: Seq<char>, i: int, j: int, acc: Option<u64>) -> Option<u64>
    decreases j - i,
{
    if j <= i {
        acc
    } else {
        match digits_acc(s, i, j - 1, acc) {
            None => None,
            Some(a) => {
                let x = (a as int) * 10 + dval(s[j - 1]);
                if x > u64::MAX as int {
                    None
                } else {
                    Some(x as u64)
                }
            },
        }
    }
}

fn digits_acc_exec(v: &Vec<char>, i: usize, j: usize, acc: u64) -> (r: Option<u64>)
    requires
        i <= j && j <= v@.len(),
        forall|k: int| i <= k < j ==> is_digit(v@[k]),
    ensures
        r == digits_acc(v@, i as int, j as int, Some(acc)),
    decreases j - i,
{
    if j == i {
        Some(acc)
    } else {
        match digits_acc_exec(v, i, j - 1, acc) {
            None => None,
            Some(a) => {
                let d = digit_val(v[j - 1]);
                match a.checked_mul(10) {
                    None => None,
                    Some(t) => t.checked_add(d as u64),
                }
            },
        }
    }
}

/// Builds the decimal once the mantissa digits, the count of fraction digits
/// and the exponent are known.
pub open spec fn finish_dec(neg: bool, m: Option<u64>, scale0: int, exp: int) -> Option<Dec> {
    match m {
        None => None,
        Some(mant) => {
            let fs = scale0 - exp;
            if fs > 18 || fs < -18 {
                None
            } else if fs >= 0 {
                Some(Dec { neg, mant, scale: fs as u32 })
            } else {
                let shifted = (mant as int) * pow10((-fs) as nat);
                if shifted > u64::MAX as int {
                    None
                } else {
                    Some(Dec { neg, mant: shifted as u64, scale: 0 })
                }
            }
        },
    }
}

fn finish_dec_exec(neg: bool, m: Option<u64>, scale0: usize, exp_neg: bool, exp_mag: u64) -> (r:
    Option<Dec>)
    requires
        scale0 <= usize::MAX,
    ensures
        r == finish_dec(
            neg,
            m,
            scale0 as int,
            if exp_neg {
                -(exp_mag as int)
            } else {
                exp_mag as int
            },
        ),
        r matches Some(d) ==> d.wf(),
{
    let ghost exp: int = if exp_neg {
        -(exp_mag as int)
    } else {
        exp_mag as int
    };
    match m {
        None => None,
        Some(mant) => {
            // fs = scale0 - exp, bounded to +/-18 before any narrowing
            if exp_neg {
                // fs = scale0 + exp_mag >= 0
                if exp_mag > 18 || scale0 > 18 - (exp_mag as usize) {
                    None
                } else {
                    let fs = scale0 + (exp_mag as usize);
                    Some(Dec { neg, mant, scale: fs as u32 })
                }
            } else {
                if exp_mag <= scale0 as u64 {
                    let ghost fs = scale0 - exp;
                    if scale0 - (exp_mag as usize) > 18 {
                        None
                    } else {
                        let fs_e = scale0 - (exp_mag as usize);
                        Some(Dec { neg, mant, scale: fs_e as u32 })
                    }
                } else {
                    // fs < 0: shift the mantissa left
                    let shift = exp_mag - (scale0 as u64);
                    if shift > 18 {
                        None
                    } else {
                        let p = pow10_u64(shift as u32);
                        proof {
                            lemma_pow10_pos(shift as nat);
                        }
                        match mant.checked_mul(p) {
                            None => {
                                proof {
                                    assert((mant as int) * (p as int) > u64::MAX as int);
                                }
                                None
                            },
                            Some(sh) => Some(Dec { neg, mant: sh, scale: 0 }),
                        }
                    }
                }
            }
        },
    }
}

/// The exponent part of a literal, from position `k` on: `(e|E) [+-]? digits`
/// running to the very end of the text.
pub open spec fn parse_exp(s: Seq<char>, k: int, neg: bool, m: Option<u64>, scale0: int) -> Option<
    Dec,
> {
    if k >= s.len() || (s[k] != 'e' && s[k] != 'E') {
        None
    } else if k + 1 >= s.len() {
        None
    } else {
        let eneg = s[k + 1] == '-';
        let k0 = if s[k + 1] == '-' || s[k + 1] == '+' {
            k + 2
        } else {
            k + 1
        };
        let k1 = digit_run_end(s, k0);
        if k1 == k0 || k1 != s.len() {
            None
        } else {
            match digits_acc(s, k0, k1, Some(0u64)) {
                None => None,
                Some(ev) => finish_dec(
                    neg,
                    m,
                    scale0,
                    if eneg {
                        -(ev as int)
                    } else {
                        ev as int
                    },
                ),
            }
        }
    }
}

/// The decimal denoted by the whole of `s`, if `s` is a numeric literal whose
/// value the engine can represent.
pub open spec fn parse_dec_spec(s: Seq<char>) -> Option<Dec> {
    if s.len() == 0 {
        None
    } else {
        let neg = s[0] == '-';
        let i0: int = if s[0] == '-' || s[0] == '+' {
            1
        } else {
            0
        };
        let i1 = digit_run_end(s, i0);
        if i1 == i0 {
            None
        } else if i1 == s.len() {
            finish_dec(neg, digits_acc(s, i0, i1, Some(0u64)), 0, 0)
        } else if s[i1] == '.' {
            let i2 = digit_run_end(s, i1 + 1);
            if i2 == i1 + 1 {
                None
            } else {
                let m = digits_acc(s, i1 + 1, i2, digits_acc(s, i0, i1, Some(0u64)));
                if i2 == s.len() {
                    finish_dec(neg, m, i2 - (i1 + 1), 0)
                } else {
                    parse_exp(s, i2, neg, m, i2 - (i1 + 1))
                }
            }
        } else {
            parse_exp(s, i1, neg, digits_acc(s, i0, i1, Some(0u64)), 0)
        }
    }
}

fn parse_exp_exec(v: &Vec<char>, k: usize, neg: bool, m: Option<u64>, scale0: usize) -> (r: Option<
    Dec,
>)
    requires
        k <= v@.len(),
    ensures
        r == parse_exp(v@, k as int, neg, m, scale0 as int),
        r matches Some(d) ==> d.wf(),
{
    if k == v.len() || (v[k] != 'e' && v[k] != 'E') {
        None
    } else if k + 1 == v.len() {
        None
    } else {
        let eneg = v[k + 1] == '-';
        let k0 = if v[k + 1] == '-' || v[k + 1] == '+' {
            k + 2
        } else {
            k + 1
        };
        proof {
            lemma_digit_run_end(v@, k0 as int);
        }
        let k1 = digit_run_end_exec(v, k0);
        if k1 == k0 || k1 != v.len() {
            None
        } else {
            match digits_acc_exec(v, k0, k1, 0) {
                None => None,
                Some(ev) => finish_dec_exec(neg, m, scale0, eneg, ev),
            }
        }
    }
}

/// Parses `v@` as a numeric literal.
pub(crate) fn parse_dec(v: &Vec<char>) -> (r: Option<Dec>)
    ensures
        r == parse_dec_spec(v@),
        r matches Some(d) ==> d.wf(),
{
    if v.len() == 0 {
        None
    } else {
        let neg = v[0] == '-';
        let i0: usize = if v[0] == '-' || v[0] == '+' {
            1
        } else {
            0
        };
        proof {
            lemma_digit_run_end(v@, i0 as int);
        }
        let i1 = digit_run_end_exec(v, i0);
        if i1 == i0 {
            None
        } else if i1 == v.len() {
            let m = digits_acc_exec(v, i0, i1, 0);
            finish_dec_exec(neg, m, 0, false, 0)
        } else if v[i1] == '.' {
            proof {
                lemma_digit_run_end(v@, (i1 + 1) as int);
            }
            let i2 = digit_run_end_exec(v, i1 + 1);
            if i2 == i1 + 1 {
                None
            } else {
                let m0 = digits_acc_exec(v, i0, i1, 0);
                let m = match m0 {
                    None => None,
                    Some(a) => digits_acc_exec(v, i1 + 1, i2, a),
                };
                proof {
                    lemma_digits_acc_none(v@, (i1 + 1) as int, i2 as int);
                }
                if i2 == v.len() {
                    finish_dec_exec(neg, m, i2 - (i1 + 1), false, 0)
                } else {
                    parse_exp_exec(v, i2, neg, m, i2 - (i1 + 1))
                }
            }
        } else {
            let m = digits_acc_exec(v, i0, i1, 0);
            parse_exp_exec(v, i1, neg, m, 0)
        }
    }
}

proof fn lemma_digits_acc_none(s: Seq<char>, i: int, j: int)
    ensures
        digits_acc(s, i, j, None) is None,
    decreases j - i,
{
    if j > i {
        lemma_digits_acc_none(s, i, j - 1);
    }
}

/// Parses a whole string slice as a numeric literal.
pub fn dec_from_str(s: &str) -> (r: Option<Dec>)
    ensures
        r == parse_dec_spec(s@),
        r matches Some(d) ==> d.wf(),
{
    let v = crate::text::str_to_chars(s);
    parse_dec(&v)
}

/// The character for a decimal digit value.
pub open spec fn digit_char(d: int) -> char {
    if d == 0 {
        '0'
    } else if d == 1 {
        '1'
    } else if d == 2 {
        '2'
    } else if d == 3 {
        '3'
    } else if d == 4 {
        '4'
    } else if d == 5 {
        '5'
    } else if d == 6 {
        '6'
    } else if d == 7 {
        '7'
    } else if d == 8 {
        '8'
    } else {
        '9'
    }
}

/// The decimal digits of a non-negative integer, most significant first.
pub open spec fn u64_digits(m: int) -> Seq<char>
    decreases m,
{
    if m < 10 {
        seq![digit_char(m)]
    } else {
        u64_digits(m / 10) + seq![digit_char(m % 10)]
    }
}

fn digit_char_exec(d: u64) -> (r: char)
    requires
        d <= 9,
    ensures
        r == digit_char(d as int),
{
    if d == 0 {
        '0'
    } else if d == 1 {
        '1'
    } else if d == 2 {
        '2'
    } else if d == 3 {
        '3'
    } else if d == 4 {
        '4'
    } else if d == 5 {
        '5'
    } else if d == 6 {
        '6'
    } else if d == 7 {
        '7'
    } else if d == 8 {
        '8'
    } else {
        '9'
    }
}

fn u64_digits_exec(m: u64) -> (r: Vec<char>)
    ensures
        r@ == u64_digits(m as int),
        r@.len() >= 1,
    decreases m,
{
    if m < 10 {
        let mut r: Vec<char> = Vec::new();
        r.push(digit_char_exec(m));
        proof {
            assert(r@ =~= seq![digit_char(m as int)]);
        }
        r
    } else {
        let mut r = u64_digits_exec(m / 10);
        r.push(digit_char_exec(m % 10));
        proof {
            assert(r@ =~= u64_digits(m as int / 10) + seq![digit_char(m as int % 10)]);
        }
        r
    }
}

/// A run of `n` zero characters.
pub open spec fn zeros(n: int) -> Seq<char>
    decreases n,
{
    if n <= 0 {
        Seq::<char>::empty()
    } else {
        zeros(n - 1) + seq!['0']
    }
}

/// The canonical text of a decimal: sign, integer digits, and — when the
/// scale is positive — a point followed by exactly `scale` fraction digits.
pub open spec fn render_dec(d: Dec) -> Seq<char> {
    let ds = u64_digits(d.mant as int);
    let sign: Seq<char> = if d.neg {
        seq!['-']
    } else {
        Seq::<char>::empty()
    };
    if d.scale == 0 {
        sign + ds
    } else if ds.len() > d.scale {
        sign + ds.take(ds.len() - d.scale) + seq!['.'] + ds.skip(ds.len() - d.scale)
    } else {
        sign + seq!['0', '.'] + zeros(d.scale - ds.len()) + ds
    }
}

fn zeros_exec(n: usize) -> (r: Vec<char>)
    ensures
        r@ == zeros(n as int),
    decreases n,
{
    if n == 0 {
        Vec::new()
    } else {
        let mut r = zeros_exec(n - 1);
        r.push('0');
        proof {
            assert(r@ =~= zeros(n as int - 1) + seq!['0']);
        }
        r
    }
}

/// The canonical text of `d`.
pub(crate) fn render_dec_exec(d: Dec) -> (r: Vec<char>)
    ensures
        r@ == render_dec(d),
{
    let ds = u64_digits_exec(d.mant);
    let mut r: Vec<char> = Vec::new();
    if d.neg {
        r.push('-');
    }
    let ghost sign: Seq<char> = if d.neg {
        seq!['-']
    } else {
        Seq::<char>::empty()
    };
    proof {
        assert(r@ =~= sign);
    }
    if d.scale == 0 {
        let mut tail = copy_dec_chars(&ds);
        r.append(&mut tail);
        proof {
            assert(r@ =~= sign + ds@);
        }
        r
    } else if ds.len() > d.scale as usize {
        let cut = ds.len() - d.scale as usize;
        let mut head = crate::text::sub_vec(&ds, 0, cut);
        r.append(&mut head);
        r.push('.');
        let mut tail = crate::text::sub_vec(&ds, cut, ds.len());
        r.append(&mut tail);
        proof {
            assert(ds@.subrange(0, cut as int) =~= ds@.take(ds@.len() - d.scale));
            assert(ds@.subrange(cut as int, ds@.len() as int) =~= ds@.skip(ds@.len() - d.scale));
            assert(r@ =~= sign + ds@.take(ds@.len() - d.scale) + seq!['.'] + ds@.skip(
                ds@.len() - d.scale,
            ));
        }
        r
    } else {
        r.push('0');
        r.push('.');
        let mut zs = zeros_exec(d.scale as usize - ds.len());
        r.append(&mut zs);
        let mut tail = copy_dec_chars(&ds);
        r.append(&mut tail);
        proof {
            assert(r@ =~= sign + seq!['0', '.'] + zeros(d.scale - ds@.len()) + ds@);
        }
        r
    }
}

fn copy_dec_chars(v: &Vec<char>) -> (r: Vec<char>)
    ensures
        r@ == v@,
{
    crate::text::sub_vec(v, 0, v.len())
}

/// A numeric literal of the free-text grammar begins at position `i`: a
/// digit, or a minus sign directly followed by a digit.
pub open spec fn num_start(s: Seq<char>, i: int) -> bool {
    0 <= i && i < s.len() && (is_digit(s[i]) || (s[i] == '-' && i + 1 < s.len() && is_digit(
        s[i + 1],
    )))
}

/// Where the greedy match of a literal starting at `i` ends: the sign, a
/// digit run, and a fraction only when a point is directly followed by a
/// digit.
pub open spec fn num_end(s: Seq<char>, i: int) -> int {
    let d0 = if s[i] == '-' {
        i + 1
    } else {
        i
    };
    let e1 = digit_run_end(s, d0);
    if e1 < s.len() && s[e1] == '.' && e1 + 1 < s.len() && is_digit(s[e1 + 1]) {
        digit_run_end(s, e1 + 1)
    } else {
        e1
    }
}

pub proof fn lemma_num_end(s: Seq<char>, i: int)
    requires
        num_start(s, i),
    ensures
        i < num_end(s, i) && num_end(s, i) <= s.len(),
{
    let d0 = if s[i] == '-' {
        i + 1
    } else {
        i
    };
    lemma_digit_run_end(s, d0);
    assert(digit_run_end(s, d0) > d0);
    let e1 = digit_run_end(s, d0);
    if e1 < s.len() && s[e1] == '.' && e1 + 1 < s.len() && is_digit(s[e1 + 1]) {
        lemma_digit_run_end(s, e1 + 1);
        assert(digit_run_end(s, e1 + 1) > e1 + 1);
    }
}

/// Every number embedded in `s` from position `i` on, in order of
/// occurrence; a matched literal whose value the engine cannot represent is
/// skipped.
pub open spec fn extract_spec(s: Seq<char>, i: int) -> Seq<Dec>
    decreases s.len() - i,
    via extract_spec_decreases
{
    if i < 0 || i >= s.len() {
        Seq::<Dec>::empty()
    } else if num_start(s, i) {
        let e = num_end(s, i);
        let rest = extract_spec(s, e);
        match parse_dec_spec(s.subrange(i, e)) {
            Some(d) => seq![d] + rest,
            None => rest,
        }
    } else {
        extract_spec(s, i + 1)
    }
}

#[via_fn]
proof fn extract_spec_decreases(s: Seq<char>, i: int) {
    if 0 <= i && i < s.len() && num_start(s, i) {
        lemma_num_end(s, i);
    }
}

fn num_end_exec(v: &Vec<char>, i: usize) -> (r: usize)
    requires
        num_start(v@, i as int),
    ensures
        r as int == num_end(v@, i as int),
        i < r && r <= v@.len(),
{
    let n = v.len();
    proof {
        lemma_num_end(v@, i as int);
    }
    let d0 = if v[i] == '-' {
        i + 1
    } else {
        i
    };
    proof {
        lemma_digit_run_end(v@, d0 as int);
    }
    let e1 = digit_run_end_exec(v, d0);
    if e1 < v.len() && v[e1] == '.' && e1 + 1 < v.len() && is_digit_c(v[e1 + 1]) {
        proof {
            lemma_digit_run_end(v@, (e1 + 1) as int);
        }
        digit_run_end_exec(v, e1 + 1)
    } else {
        e1
    }
}

fn extract_from(v: &Vec<char>, i: usize) -> (r: Vec<Dec>)
    requires
        i <= v@.len(),
    ensures
        r@ == extract_spec(v@, i as int),
        forall|k: int| 0 <= k < r@.len() ==> (#[trigger] r@[k]).wf(),
    decreases v@.len() - i, 2int,
{
    if i == v.len() {
        Vec::new()
    } else {
        let c = v[i];
        let starts = is_digit_c(c) || (c == '-' && i < v.len() - 1 && is_digit_c(v[i + 1]));
        extract_step(v, i, starts)
    }
}

fn extract_step(v: &Vec<char>, i: usize, starts: bool) -> (r: Vec<Dec>)
    requires
        i < v@.len(),
        starts == num_start(v@, i as int),
    ensures
        r@ == extract_spec(v@, i as int),
        forall|k: int| 0 <= k < r@.len() ==> (#[trigger] r@[k]).wf(),
    decreases v@.len() - i, 1int,
{
    let n = v.len();
    if starts {
        let e = num_end_exec(v, i);
        let lit = crate::text::sub_vec(v, i, e);
        let mut rest = extract_from(v, e);
        match parse_dec(&lit) {
            Some(d) => {
                let mut r: Vec<Dec> = Vec::new();
                r.push(d);
                r.append(&mut rest);
                proof {
                    assert(r@ =~= seq![d] + extract_spec(v@, e as int));
                }
                r
            },
            None => rest,
        }
    } else {
        extract_from(v, i + 1)
    }
}

/// Every number embedded anywhere in `v@`, in order of occurrence.
pub(crate) fn extract_numbers(v: &Vec<char>) -> (r: Vec<Dec>)
    ensures
        r@ == extract_spec(v@, 0),
        forall|k: int| 0 <= k < r@.len() ==> (#[trigger] r@[k]).wf(),
{
    extract_from(v, 0)
}

} // verus!
