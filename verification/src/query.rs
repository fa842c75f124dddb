//! The query engine: operator table, condition evaluator and clause engine.
//!
//! A query is an OR of clauses, a clause an AND of conditions, a condition a
//! field, an operator and an operand.  Operators are identified by scanning
//! a fixed table in priority order — longer spellings before the shorter
//! spellings they contain — and a condition splits at the first occurrence
//! of the identified operator.

use vstd::prelude::*;
use vstd::string::*;
use crate::num::Dec;
use crate::num::dec_cmp;
use crate::num::dec_cmp_spec;
use crate::num::extract_numbers;
use crate::num::extract_spec;
use crate::num::parse_dec;
use crate::num::parse_dec_spec;
use crate::text::Cmp;
use crate::text::chars_eq;
use crate::text::chars_to_string;
use crate::text::contains_sub;
use crate::text::copy_vec;
use crate::text::ends_with;
use crate::text::ends_with_chars;
use crate::text::find_from;
use crate::text::find_sub;
use crate::text::has_sub;
use crate::text::lemma_find_from_bounds;
use crate::text::lex_cmp;
use crate::text::lex_cmp_spec;
use crate::text::lower_of;
use crate::text::replace_chars;
use crate::text::replace_spec;
use crate::text::starts_with;
use crate::text::starts_with_chars;
use crate::text::str_to_chars;
use crate::text::sub_vec;
use crate::text::to_lower_chars;
use crate::text::trim_chars;
use crate::text::trim_spec;
use crate::text::unquote_chars;
use crate::text::unquote_spec;
use crate::text::char_find;
use crate::time::Instant;
use crate::time::extract_and_parse_timestamp;
use crate::time::extract_ts_spec;
use crate::time::instant_cmp;
use crate::time::instant_cmp_exec;
use crate::time::instant_le;
use crate::time::instant_le_exec;
use crate::time::now_instant;
use crate::time::parse_time_spec;
use crate::time::parse_time_string_at;
use crate::value::LogValue;
use crate::value::char_find_vec;
use crate::value::coerce_str;
use crate::value::coerce_str_exec;
use crate::value::field_lookup;
use crate::value::field_lookup_exec;
use crate::value::lemma_char_find_bounds;
use crate::value::lemma_field_lookup_wf;
use crate::value::num_of;

verus! {

/// The error of the engine: a condition or operand the grammar does not
/// accept, carrying the offending text.
#[derive(Debug)]
pub enum QueryError {
    InvalidFormat(String),
}

impl QueryError {
    /// The offending text the error carries.
    pub fn message(&self) -> (r: &String)
        ensures
            match self {
                QueryError::InvalidFormat(s) => r@ == s@,
            },
    {
        match self {
            QueryError::InvalidFormat(s) => s,
        }
    }
}

pub const OP_NOT_CONTAINS_PLUS: usize = 0;

pub const OP_NOT_CONTAINS_MINUS: usize = 1;

pub const OP_NOT_BETWEEN: usize = 2;

pub const OP_NOT_TILDE_EQ: usize = 3;

pub const OP_NOT_CONTAINS: usize = 4;

pub const OP_NOT_EXISTS: usize = 5;

pub const OP_ISNOT: usize = 6;

pub const OP_GE: usize = 7;

pub const OP_LE: usize = 8;

pub const OP_EQ: usize = 9;

pub const OP_NE: usize = 10;

pub const OP_CONTAINS_PLUS: usize = 11;

pub const OP_CONTAINS_MINUS: usize = 12;

pub const OP_BETWEEN: usize = 13;

pub const OP_CONTAINS: usize = 14;

pub const OP_EXISTS: usize = 15;

pub const OP_IS: usize = 16;

pub const OP_TILDE_EQ: usize = 17;

pub const OP_GT: usize = 18;

pub const OP_LT: usize = 19;

pub const OP_COUNT: usize = 20;

/// The operator table, in priority order: longer spellings stand before the
/// shorter spellings that occur inside them, and reordering it would change
/// which operator a condition resolves to.
pub open spec fn op_spec(i: int) -> Seq<char> {
    if i == 0 {
        "!contains+"@
    } else if i == 1 {
        "!contains-"@
    } else if i == 2 {
        "!between"@
    } else if i == 3 {
        "!~="@
    } else if i == 4 {
        "!contains"@
    } else if i == 5 {
        "!exists"@
    } else if i == 6 {
        "isnot"@
    } else if i == 7 {
        ">="@
    } else if i == 8 {
        "<="@
    } else if i == 9 {
        "=="@
    } else if i == 10 {
        "!="@
    } else if i == 11 {
        "contains+"@
    } else if i == 12 {
        "contains-"@
    } else if i == 13 {
        "between"@
    } else if i == 14 {
        "contains"@
    } else if i == 15 {
        "exists"@
    } else if i == 16 {
        "is"@
    } else if i == 17 {
        "~="@
    } else {
        if i == 18 {
            ">"@
        } else {
            "<"@
        }
    }
}

fn op_str(i: usize) -> (r: &'static str)
    requires
        i < OP_COUNT,
    ensures
        r@ == op_spec(i as int),
{
    if i == 0 {
        "!contains+"
    } else if i == 1 {
        "!contains-"
    } else if i == 2 {
        "!between"
    } else if i == 3 {
        "!~="
    } else if i == 4 {
        "!contains"
    } else if i == 5 {
        "!exists"
    } else if i == 6 {
        "isnot"
    } else if i == 7 {
        ">="
    } else if i == 8 {
        "<="
    } else if i == 9 {
        "=="
    } else if i == 10 {
        "!="
    } else if i == 11 {
        "contains+"
    } else if i == 12 {
        "contains-"
    } else if i == 13 {
        "between"
    } else if i == 14 {
        "contains"
    } else if i == 15 {
        "exists"
    } else if i == 16 {
        "is"
    } else if i == 17 {
        "~="
    } else if i == 18 {
        ">"
    } else {
        "<"
    }
}

/// The first operator of the table, in priority order, that occurs anywhere
/// in `cond`.
pub open spec fn find_op_from(cond: Seq<char>, i: int) -> Option<int>
    decreases 20 - i,
{
    if i >= 20 {
        None
    } else if has_sub(cond, op_spec(i)) {
        Some(i)
    } else {
        find_op_from(cond, i + 1)
    }
}

pub open spec fn find_op(cond: Seq<char>) -> Option<int> {
    find_op_from(cond, 0)
}

fn find_op_exec_from(cond: &Vec<char>, i: usize) -> (r: Option<usize>)
    requires
        i <= OP_COUNT,
    ensures
        match r {
            Some(j) => find_op_from(cond@, i as int) == Some(j as int) && j < OP_COUNT,
            None => find_op_from(cond@, i as int) is None,
        },
    decreases OP_COUNT - i,
{
    if i == OP_COUNT {
        None
    } else {
        let opv = str_to_chars(op_str(i));
        if contains_sub(cond, &opv) {
            Some(i)
        } else {
            find_op_exec_from(cond, i + 1)
        }
    }
}

fn find_op_exec(cond: &Vec<char>) -> (r: Option<usize>)
    ensures
        match r {
            Some(j) => find_op(cond@) == Some(j as int) && j < OP_COUNT,
            None => find_op(cond@) is None,
        },
{
    find_op_exec_from(cond, 0)
}

/// The `num(...)` wrapper around a field, stripped: the inner field trimmed,
/// and whether the wrapper was present.
pub open spec fn strip_num(f: Seq<char>) -> (Seq<char>, bool) {
    if f.len() >= 5 && starts_with(f, "num("@) && ends_with(f, ")"@) {
        (trim_spec(f.subrange(4, f.len() - 1)), true)
    } else {
        (f, false)
    }
}

fn strip_num_exec(f: &Vec<char>) -> (r: (Vec<char>, bool))
    ensures
        (r.0@, r.1) == strip_num(f@),
{
    let numo = str_to_chars("num(");
    let closep = str_to_chars(")");
    proof {
        reveal_strlit("num(");
        reveal_strlit(")");
    }
    if f.len() >= 5 && starts_with_chars(f, &numo) && ends_with_chars(f, &closep) {
        let inner = sub_vec(f, 4, f.len() - 1);
        (trim_chars(&inner), true)
    } else {
        (copy_vec(f), false)
    }
}

/// Splitting on `sep` yields exactly two parts.
pub open spec fn split2(s: Seq<char>, sep: Seq<char>) -> Option<(Seq<char>, Seq<char>)> {
    match find_from(s, sep, 0) {
        Some(i) => {
            let rest = s.subrange(i + sep.len() as int, s.len() as int);
            if find_from(rest, sep, 0) is Some {
                None
            } else {
                Some((s.subrange(0, i), rest))
            }
        },
        None => None,
    }
}

fn split2_exec(s: &Vec<char>, sep: &Vec<char>) -> (r: Option<(Vec<char>, Vec<char>)>)
    ensures
        match r {
            Some(parts) => split2(s@, sep@) == Some((parts.0@, parts.1@)),
            None => split2(s@, sep@) is None,
        },
{
    let n = s.len();
    proof {
        lemma_find_from_bounds(s@, sep@, 0);
    }
    match find_sub(s, sep, 0) {
        Some(i) => {
            let rest = sub_vec(s, i + sep.len(), s.len());
            match find_sub(&rest, sep, 0) {
                Some(_) => None,
                None => {
                    let head = sub_vec(s, 0, i);
                    Some((head, rest))
                },
            }
        },
        None => None,
    }
}

/// Whether `x` lies in the inclusive range of `a` and `b`, the bounds taken
/// in either order.
pub open spec fn dec_in_range(x: Dec, a: Dec, b: Dec) -> bool {
    let lo = if dec_cmp_spec(a, b) == Cmp::Lt {
        a
    } else {
        b
    };
    let hi = if dec_cmp_spec(a, b) == Cmp::Lt {
        b
    } else {
        a
    };
    dec_cmp_spec(x, lo) != Cmp::Lt && dec_cmp_spec(x, hi) != Cmp::Gt
}

fn dec_in_range_exec(x: Dec, a: Dec, b: Dec) -> (r: bool)
    requires
        x.wf(),
        a.wf(),
        b.wf(),
    ensures
        r == dec_in_range(x, a, b),
{
    let c = dec_cmp(a, b);
    let (lo, hi) = if c == Cmp::Lt {
        (a, b)
    } else {
        (b, a)
    };
    let cl = dec_cmp(x, lo);
    let ch = dec_cmp(x, hi);
    cl != Cmp::Lt && ch != Cmp::Gt
}

/// Whether `x` lies lexicographically in the inclusive range of `a` and
/// `b`, the bounds taken in either order.
pub open spec fn lex_in_range(x: Seq<char>, a: Seq<char>, b: Seq<char>) -> bool {
    let lo = if lex_cmp_spec(a, b) == Cmp::Gt {
        b
    } else {
        a
    };
    let hi = if lex_cmp_spec(a, b) == Cmp::Gt {
        a
    } else {
        b
    };
    lex_cmp_spec(x, lo) != Cmp::Lt && lex_cmp_spec(x, hi) != Cmp::Gt
}

fn lex_in_range_exec(x: &Vec<char>, a: &Vec<char>, b: &Vec<char>) -> (r: bool)
    ensures
        r == lex_in_range(x@, a@, b@),
{
    let c = lex_cmp(a, b);
    let (lo, hi) = if c == Cmp::Gt {
        (b, a)
    } else {
        (a, b)
    };
    let cl = lex_cmp(x, lo);
    let ch = lex_cmp(x, hi);
    cl != Cmp::Lt && ch != Cmp::Gt
}

/// Whether `t` lies in the inclusive range of `t1` and `t2`, the bounds
/// taken in either order.
pub open spec fn instant_in_range(t: Instant, t1: Instant, t2: Instant) -> bool {
    let lo = if instant_le(t1, t2) {
        t1
    } else {
        t2
    };
    let hi = if instant_le(t1, t2) {
        t2
    } else {
        t1
    };
    instant_le(lo, t) && instant_le(t, hi)
}

fn instant_in_range_exec(t: Instant, t1: Instant, t2: Instant) -> (r: bool)
    ensures
        r == instant_in_range(t, t1, t2),
{
    let (lo, hi) = if instant_le_exec(t1, t2) {
        (t1, t2)
    } else {
        (t2, t1)
    };
    instant_le_exec(lo, t) && instant_le_exec(t, hi)
}

/// The range operator on one resolved value: the operand is `start..end`,
/// the bounds are cleaned and — for a timestamp — interpreted as time
/// expressions, else as numbers, with a lexicographic fallback for a string
/// value; membership is inclusive, the bounds taken in either order.  A log
/// without an extractable timestamp fails the condition without error.
pub open spec fn spec_between(
    log_value: LogValue,
    range_str: Seq<char>,
    is_ts: bool,
    now: Instant,
) -> Result<bool, Seq<char>> {
    match split2(range_str, ".."@) {
        None => Err(range_str),
        Some(parts) => {
            let start_str = unquote_spec(parts.0);
            let end_str = unquote_spec(parts.1);
            if is_ts {
                match extract_ts_spec(log_value) {
                    None => Ok(false),
                    Some(log_t) => match parse_time_spec(start_str, now) {
                        None => Err(start_str),
                        Some(t1) => match parse_time_spec(end_str, now) {
                            None => Err(end_str),
                            Some(t2) => Ok(instant_in_range(log_t, t1, t2)),
                        },
                    },
                }
            } else {
                match num_of(log_value) {
                    Some(x) => match parse_dec_spec(start_str) {
                        None => Err(start_str),
                        Some(a) => match parse_dec_spec(end_str) {
                            None => Err(end_str),
                            Some(b) => Ok(dec_in_range(x, a, b)),
                        },
                    },
                    None => match log_value {
                        LogValue::Str(s) => Ok(lex_in_range(s@, start_str, end_str)),
                        _ => Ok(false),
                    },
                }
            }
        },
    }
}

fn eval_between(log_value: &LogValue, range_str: &Vec<char>, is_ts: bool, now: Instant) -> (r:
    Result<bool, Vec<char>>)
    requires
        log_value.wf(),
        now.wf(),
    ensures
        match r {
            Ok(b) => spec_between(*log_value, range_str@, is_ts, now) == Ok::<bool, Seq<char>>(b),
            Err(e) => spec_between(*log_value, range_str@, is_ts, now) == Err::<bool, Seq<char>>(
                e@,
            ),
        },
{
    let dots = str_to_chars("..");
    match split2_exec(range_str, &dots) {
        None => Err(copy_vec(range_str)),
        Some(parts) => {
            let start_v = unquote_chars(&parts.0);
            let end_v = unquote_chars(&parts.1);
            if is_ts {
                match extract_and_parse_timestamp(log_value) {
                    None => Ok(false),
                    Some(log_t) => {
                        let start_s = chars_to_string(&start_v);
                        match parse_time_string_at(start_s.as_str(), now) {
                            Err(_) => Err(start_v),
                            Ok(t1) => {
                                let end_s = chars_to_string(&end_v);
                                match parse_time_string_at(end_s.as_str(), now) {
                                    Err(_) => Err(end_v),
                                    Ok(t2) => Ok(instant_in_range_exec(log_t, t1, t2)),
                                }
                            },
                        }
                    },
                }
            } else {
                match log_value {
                    LogValue::Num(x) => {
                        match parse_dec(&start_v) {
                            None => Err(start_v),
                            Some(a) => {
                                match parse_dec(&end_v) {
                                    None => Err(end_v),
                                    Some(b) => Ok(dec_in_range_exec(*x, a, b)),
                                }
                            },
                        }
                    },
                    LogValue::Str(s) => {
                        let sv = str_to_chars(s.as_str());
                        Ok(lex_in_range_exec(&sv, &start_v, &end_v))
                    },
                    _ => Ok(false),
                }
            }
        },
    }
}

/// The total comparison of a resolved value against a cleaned operand:
/// numeric when the value is a number and the operand parses as one, else a
/// lexicographic comparison of the value's text coercion, lowercased on both
/// sides when the comparison is case-insensitive; `None` when the value has
/// no text coercion.
pub open spec fn compare_values_spec(log_value: LogValue, operand_raw: Seq<char>, ci: bool) -> Option<
    Cmp,
> {
    compare_values_spec_cleaned(log_value, unquote_spec(operand_raw), ci)
}

fn compare_values(log_value: &LogValue, operand_raw: &Vec<char>, ci: bool) -> (r: Option<Cmp>)
    requires
        log_value.wf(),
    ensures
        r == compare_values_spec(*log_value, operand_raw@, ci),
{
    let clean = unquote_chars(operand_raw);
    let qd = parse_dec(&clean);
    match log_value {
        LogValue::Num(x) => {
            match qd {
                Some(q) => Some(dec_cmp(*x, q)),
                None => compare_coerced(log_value, &clean, ci),
            }
        },
        _ => compare_coerced(log_value, &clean, ci),
    }
}

fn compare_coerced(log_value: &LogValue, clean: &Vec<char>, ci: bool) -> (r: Option<Cmp>)
    requires
        !(num_of(*log_value) is Some && parse_dec_spec(clean@) is Some),
    ensures
        r == compare_values_spec_cleaned(*log_value, clean@, ci),
{
    match coerce_str_exec(log_value) {
        None => None,
        Some(ls) => {
            if ci {
                let a = to_lower_chars(&ls);
                let b = to_lower_chars(clean);
                Some(lex_cmp(&a, &b))
            } else {
                Some(lex_cmp(&ls, clean))
            }
        },
    }
}

/// `compare_values_spec`, after the operand is already cleaned.
pub open spec fn compare_values_spec_cleaned(
    log_value: LogValue,
    clean: Seq<char>,
    ci: bool,
) -> Option<Cmp> {
    if num_of(log_value) is Some && parse_dec_spec(clean) is Some {
        Some(dec_cmp_spec(num_of(log_value).unwrap(), parse_dec_spec(clean).unwrap()))
    } else {
        match coerce_str(log_value) {
            None => None,
            Some(ls) => Some(
                if ci {
                    lex_cmp_spec(lower_of(ls), lower_of(clean))
                } else {
                    lex_cmp_spec(ls, clean)
                },
            ),
        }
    }
}

/// Some number of the sequence is at least `q`.
pub open spec fn any_ge(nums: Seq<Dec>, q: Dec) -> bool {
    exists|i: int| 0 <= i < nums.len() && dec_cmp_spec(#[trigger] nums[i], q) != Cmp::Lt
}

/// Some number of the sequence is at most `q`.
pub open spec fn any_le(nums: Seq<Dec>, q: Dec) -> bool {
    exists|i: int| 0 <= i < nums.len() && dec_cmp_spec(#[trigger] nums[i], q) != Cmp::Gt
}

/// Some number of the sequence lies in the range of `a` and `b`.
pub open spec fn any_in_range(nums: Seq<Dec>, a: Dec, b: Dec) -> bool {
    exists|i: int| 0 <= i < nums.len() && dec_in_range(#[trigger] nums[i], a, b)
}

fn any_ge_exec(nums: &Vec<Dec>, q: Dec) -> (r: bool)
    requires
        q.wf(),
        forall|k: int| 0 <= k < nums@.len() ==> (#[trigger] nums@[k]).wf(),
    ensures
        r == any_ge(nums@, q),
{
    let mut i: usize = 0;
    while i < nums.len()
        invariant
            i <= nums@.len(),
            q.wf(),
            forall|k: int| 0 <= k < nums@.len() ==> (#[trigger] nums@[k]).wf(),
            forall|k: int| 0 <= k < i ==> dec_cmp_spec(#[trigger] nums@[k], q) == Cmp::Lt,
        decreases nums@.len() - i,
    {
        if dec_cmp(nums[i], q) != Cmp::Lt {
            return true;
        }
        i = i + 1;
    }
    false
}

fn any_le_exec(nums: &Vec<Dec>, q: Dec) -> (r: bool)
    requires
        q.wf(),
        forall|k: int| 0 <= k < nums@.len() ==> (#[trigger] nums@[k]).wf(),
    ensures
        r == any_le(nums@, q),
{
    let mut i: usize = 0;
    while i < nums.len()
        invariant
            i <= nums@.len(),
            q.wf(),
            forall|k: int| 0 <= k < nums@.len() ==> (#[trigger] nums@[k]).wf(),
            forall|k: int| 0 <= k < i ==> dec_cmp_spec(#[trigger] nums@[k], q) == Cmp::Gt,
        decreases nums@.len() - i,
    {
        if dec_cmp(nums[i], q) != Cmp::Gt {
            return true;
        }
        i = i + 1;
    }
    false
}

fn any_in_range_exec(nums: &Vec<Dec>, a: Dec, b: Dec) -> (r: bool)
    requires
        a.wf(),
        b.wf(),
        forall|k: int| 0 <= k < nums@.len() ==> (#[trigger] nums@[k]).wf(),
    ensures
        r == any_in_range(nums@, a, b),
{
    let mut i: usize = 0;
    while i < nums.len()
        invariant
            i <= nums@.len(),
            a.wf(),
            b.wf(),
            forall|k: int| 0 <= k < nums@.len() ==> (#[trigger] nums@[k]).wf(),
            forall|k: int| 0 <= k < i ==> !dec_in_range(#[trigger] nums@[k], a, b),
        decreases nums@.len() - i,
    {
        if dec_in_range_exec(nums[i], a, b) {
            return true;
        }
        i = i + 1;
    }
    false
}

/// One search term, cleaned and lowercased: a blank term is skipped; a
/// remaining term must be present in the line when `want` holds and absent
/// when it does not.
pub open spec fn term_ok(line_low: Seq<char>, t: Seq<char>, want: bool) -> bool {
    let cl = lower_of(unquote_spec(t));
    if cl.len() == 0 {
        true
    } else if want {
        has_sub(line_low, cl)
    } else {
        !has_sub(line_low, cl)
    }
}

/// The comma-separated terms of an operand, each checked against the
/// lowercased line.
pub open spec fn terms_fold(line_low: Seq<char>, rest: Seq<char>, want: bool) -> bool
    decreases rest.len(),
    via terms_fold_decreases
{
    match char_find(rest, ',', 0) {
        Some(i) => term_ok(line_low, rest.subrange(0, i), want) && terms_fold(
            line_low,
            rest.subrange(i + 1, rest.len() as int),
            want,
        ),
        None => term_ok(line_low, rest, want),
    }
}

#[via_fn]
proof fn terms_fold_decreases(line_low: Seq<char>, rest: Seq<char>, want: bool) {
    lemma_char_find_bounds(rest, ',', 0);
}

fn term_ok_exec(line_low: &Vec<char>, t: &Vec<char>, want: bool) -> (r: bool)
    ensures
        r == term_ok(line_low@, t@, want),
{
    let uq = unquote_chars(t);
    let cl = to_lower_chars(&uq);
    if cl.len() == 0 {
        true
    } else {
        let present = contains_sub(line_low, &cl);
        if want {
            present
        } else {
            !present
        }
    }
}

fn terms_fold_exec(line_low: &Vec<char>, rest: &Vec<char>, want: bool) -> (r: bool)
    ensures
        r == terms_fold(line_low@, rest@, want),
    decreases rest@.len(),
{
    let n = rest.len();
    match char_find_vec(rest, ',', 0) {
        Some(i) => {
            let head = sub_vec(rest, 0, i);
            if !term_ok_exec(line_low, &head, want) {
                false
            } else {
                let tail = sub_vec(rest, i + 1, n);
                terms_fold_exec(line_low, &tail, want)
            }
        },
        None => term_ok_exec(line_low, rest, want),
    }
}

/// One of the fixed timestamp keys.
pub open spec fn is_ts_key(f: Seq<char>) -> bool {
    f == "timestamp"@ || f == "ts"@ || f == "@timestamp"@
}

fn is_ts_key_exec(f: &Vec<char>) -> (r: bool)
    ensures
        r == is_ts_key(f@),
{
    let k1 = str_to_chars("timestamp");
    let k2 = str_to_chars("ts");
    let k3 = str_to_chars("@timestamp");
    chars_eq(f, &k1) || chars_eq(f, &k2) || chars_eq(f, &k3)
}

/// The ordering of the log's timestamp against a time-expression operand;
/// `None` when either cannot be interpreted.
pub open spec fn compare_time_spec(v: LogValue, operand_raw: Seq<char>, now: Instant) -> Option<
    Cmp,
> {
    match extract_ts_spec(v) {
        None => None,
        Some(lt) => match parse_time_spec(unquote_spec(operand_raw), now) {
            None => None,
            Some(qt) => Some(instant_cmp(lt, qt)),
        },
    }
}

fn compare_time_exec(v: &LogValue, operand_raw: &Vec<char>, now: Instant) -> (r: Option<Cmp>)
    requires
        now.wf(),
    ensures
        r == compare_time_spec(*v, operand_raw@, now),
{
    match extract_and_parse_timestamp(v) {
        None => None,
        Some(lt) => {
            let clean = unquote_chars(operand_raw);
            let clean_s = chars_to_string(&clean);
            match parse_time_string_at(clean_s.as_str(), now) {
                Err(_) => None,
                Ok(qt) => Some(instant_cmp_exec(lt, qt)),
            }
        },
    }
}

/// A condition on a timestamp field: only the range operator and the four
/// ordering operators are legal; a log without an interpretable timestamp
/// fails the condition without error.
pub open spec fn eval_ts_field(
    v: LogValue,
    op: int,
    operand: Seq<char>,
    now: Instant,
    cond: Seq<char>,
) -> Result<bool, Seq<char>> {
    if op == 13 {
        spec_between(v, operand, true, now)
    } else if op == 2 {
        match spec_between(v, operand, true, now) {
            Ok(b) => Ok(!b),
            Err(e) => Err(e),
        }
    } else if op == 18 || op == 19 || op == 7 || op == 8 {
        match compare_time_spec(v, operand, now) {
            None => Ok(false),
            Some(c) => Ok(
                if op == 18 {
                    c == Cmp::Gt
                } else if op == 19 {
                    c == Cmp::Lt
                } else if op == 7 {
                    c != Cmp::Lt
                } else {
                    c != Cmp::Gt
                },
            ),
        }
    } else {
        Err(cond)
    }
}

fn eval_ts_field_exec(
    v: &LogValue,
    op: usize,
    operand: &Vec<char>,
    now: Instant,
    cond: &Vec<char>,
) -> (r: Result<bool, Vec<char>>)
    requires
        v.wf(),
        now.wf(),
        op < OP_COUNT,
    ensures
        match r {
            Ok(b) => eval_ts_field(*v, op as int, operand@, now, cond@) == Ok::<
                bool,
                Seq<char>,
            >(b),
            Err(e) => eval_ts_field(*v, op as int, operand@, now, cond@) == Err::<
                bool,
                Seq<char>,
            >(e@),
        },
{
    if op == OP_BETWEEN {
        eval_between(v, operand, true, now)
    } else if op == OP_NOT_BETWEEN {
        match eval_between(v, operand, true, now) {
            Ok(b) => Ok(!b),
            Err(e) => Err(e),
        }
    } else if op == OP_GT || op == OP_LT || op == OP_GE || op == OP_LE {
        match compare_time_exec(v, operand, now) {
            None => Ok(false),
            Some(c) => Ok(
                if op == OP_GT {
                    c == Cmp::Gt
                } else if op == OP_LT {
                    c == Cmp::Lt
                } else if op == OP_GE {
                    c != Cmp::Lt
                } else {
                    c != Cmp::Gt
                },
            ),
        }
    } else {
        Err(copy_vec(cond))
    }
}

/// A condition on the `text` pseudo-field, a search over the raw line: term
/// containment, a numeric range over every embedded number, or a numeric
/// threshold against every embedded number.
pub open spec fn eval_text_field(line: Seq<char>, op: int, operand: Seq<char>, cond: Seq<char>) -> Result<
    bool,
    Seq<char>,
> {
    if op == 14 || op == 4 {
        Ok(terms_fold(lower_of(line), operand, op == 14))
    } else if op == 13 || op == 2 {
        match split2(operand, ".."@) {
            None => Err(operand),
            Some(parts) => match parse_dec_spec(unquote_spec(parts.0)) {
                None => Err(unquote_spec(parts.0)),
                Some(a) => match parse_dec_spec(unquote_spec(parts.1)) {
                    None => Err(unquote_spec(parts.1)),
                    Some(b) => {
                        let any = any_in_range(extract_spec(line, 0), a, b);
                        Ok(
                            if op == 13 {
                                any
                            } else {
                                !any
                            },
                        )
                    },
                },
            },
        }
    } else if op == 11 || op == 0 || op == 12 || op == 1 {
        match parse_dec_spec(unquote_spec(operand)) {
            None => Err(operand),
            Some(q) => {
                let nums = extract_spec(line, 0);
                Ok(
                    if op == 11 {
                        any_ge(nums, q)
                    } else if op == 0 {
                        !any_ge(nums, q)
                    } else if op == 12 {
                        any_le(nums, q)
                    } else {
                        !any_le(nums, q)
                    },
                )
            },
        }
    } else {
        Err(cond)
    }
}

fn eval_text_field_exec(line: &Vec<char>, op: usize, operand: &Vec<char>, cond: &Vec<char>) -> (r:
    Result<bool, Vec<char>>)
    requires
        op < OP_COUNT,
    ensures
        match r {
            Ok(b) => eval_text_field(line@, op as int, operand@, cond@) == Ok::<
                bool,
                Seq<char>,
            >(b),
            Err(e) => eval_text_field(line@, op as int, operand@, cond@) == Err::<
                bool,
                Seq<char>,
            >(e@),
        },
{
    if op == OP_CONTAINS || op == OP_NOT_CONTAINS {
        let line_low = to_lower_chars(line);
        Ok(terms_fold_exec(&line_low, operand, op == OP_CONTAINS))
    } else if op == OP_BETWEEN || op == OP_NOT_BETWEEN {
        let dots = str_to_chars("..");
        match split2_exec(operand, &dots) {
            None => Err(copy_vec(operand)),
            Some(parts) => {
                let s1 = unquote_chars(&parts.0);
                match parse_dec(&s1) {
                    None => Err(s1),
                    Some(a) => {
                        let s2 = unquote_chars(&parts.1);
                        match parse_dec(&s2) {
                            None => Err(s2),
                            Some(b) => {
                                let nums = extract_numbers(line);
                                let any = any_in_range_exec(&nums, a, b);
                                Ok(
                                    if op == OP_BETWEEN {
                                        any
                                    } else {
                                        !any
                                    },
                                )
                            },
                        }
                    },
                }
            },
        }
    } else if op == OP_CONTAINS_PLUS || op == OP_NOT_CONTAINS_PLUS || op == OP_CONTAINS_MINUS || op
        == OP_NOT_CONTAINS_MINUS {
        let qv = unquote_chars(operand);
        match parse_dec(&qv) {
            None => Err(copy_vec(operand)),
            Some(q) => {
                let nums = extract_numbers(line);
                if op == OP_CONTAINS_PLUS {
                    Ok(any_ge_exec(&nums, q))
                } else if op == OP_NOT_CONTAINS_PLUS {
                    Ok(!any_ge_exec(&nums, q))
                } else if op == OP_CONTAINS_MINUS {
                    Ok(any_le_exec(&nums, q))
                } else {
                    Ok(!any_le_exec(&nums, q))
                }
            },
        }
    } else {
        Err(copy_vec(cond))
    }
}

/// A resolved value forced numeric by a `num(...)` wrapper: a number stays,
/// a string must parse as a numeric literal, and any other kind fails.
pub open spec fn force_numeric_spec(orig: LogValue) -> Option<LogValue> {
    match orig {
        LogValue::Num(d) => Some(LogValue::Num(d)),
        LogValue::Str(s) => match parse_dec_spec(s@) {
            Some(d) => Some(LogValue::Num(d)),
            None => None,
        },
        _ => None,
    }
}

fn force_numeric_exec(orig: &LogValue) -> (r: Option<LogValue>)
    requires
        orig.wf(),
    ensures
        match r {
            Some(lv) => force_numeric_spec(*orig) == Some(lv) && lv.wf(),
            None => force_numeric_spec(*orig) is None,
        },
{
    match orig {
        LogValue::Num(d) => Some(LogValue::Num(*d)),
        LogValue::Str(s) => {
            let sv = str_to_chars(s.as_str());
            match parse_dec(&sv) {
                Some(d) => Some(LogValue::Num(d)),
                None => None,
            }
        },
        _ => None,
    }
}

/// A comparison operator applied to one resolved (and possibly forced)
/// value.
pub open spec fn eval_field_op(lv: LogValue, op: int, operand: Seq<char>, now: Instant) -> Result<
    bool,
    Seq<char>,
> {
    if op == 13 {
        spec_between(lv, operand, false, now)
    } else if op == 2 {
        match spec_between(lv, operand, false, now) {
            Ok(b) => Ok(!b),
            Err(e) => Err(e),
        }
    } else if op == 17 {
        Ok(compare_values_spec(lv, operand, true) == Some(Cmp::Eq))
    } else if op == 3 {
        Ok(compare_values_spec(lv, operand, true) != Some(Cmp::Eq))
    } else if op == 14 {
        match lv {
            LogValue::Str(s) => Ok(has_sub(s@, unquote_spec(operand))),
            _ => Ok(false),
        }
    } else if op == 4 {
        match lv {
            LogValue::Str(s) => Ok(!has_sub(s@, unquote_spec(operand))),
            _ => Ok(true),
        }
    } else if op == 9 || op == 16 {
        Ok(compare_values_spec(lv, operand, false) == Some(Cmp::Eq))
    } else if op == 10 || op == 6 {
        Ok(compare_values_spec(lv, operand, false) != Some(Cmp::Eq))
    } else if op == 18 {
        Ok(compare_values_spec(lv, operand, false) == Some(Cmp::Gt))
    } else if op == 19 {
        Ok(compare_values_spec(lv, operand, false) == Some(Cmp::Lt))
    } else if op == 7 {
        Ok(
            match compare_values_spec(lv, operand, false) {
                Some(c) => c != Cmp::Lt,
                None => false,
            },
        )
    } else if op == 8 {
        Ok(
            match compare_values_spec(lv, operand, false) {
                Some(c) => c != Cmp::Gt,
                None => false,
            },
        )
    } else {
        Ok(false)
    }
}

fn eval_field_op_exec(lv: &LogValue, op: usize, operand: &Vec<char>, now: Instant) -> (r: Result<
    bool,
    Vec<char>,
>)
    requires
        lv.wf(),
        now.wf(),
        op < OP_COUNT,
    ensures
        match r {
            Ok(b) => eval_field_op(*lv, op as int, operand@, now) == Ok::<bool, Seq<char>>(b),
            Err(e) => eval_field_op(*lv, op as int, operand@, now) == Err::<bool, Seq<char>>(e@),
        },
{
    if op == OP_BETWEEN {
        eval_between(lv, operand, false, now)
    } else if op == OP_NOT_BETWEEN {
        match eval_between(lv, operand, false, now) {
            Ok(b) => Ok(!b),
            Err(e) => Err(e),
        }
    } else if op == OP_TILDE_EQ {
        Ok(compare_values(lv, operand, true) == Some(Cmp::Eq))
    } else if op == OP_NOT_TILDE_EQ {
        Ok(compare_values(lv, operand, true) != Some(Cmp::Eq))
    } else if op == OP_CONTAINS || op == OP_NOT_CONTAINS {
        match lv {
            LogValue::Str(s) => {
                let sv = str_to_chars(s.as_str());
                let q = unquote_chars(operand);
                let present = contains_sub(&sv, &q);
                Ok(
                    if op == OP_CONTAINS {
                        present
                    } else {
                        !present
                    },
                )
            },
            _ => Ok(op == OP_NOT_CONTAINS),
        }
    } else if op == OP_EQ || op == OP_IS {
        Ok(compare_values(lv, operand, false) == Some(Cmp::Eq))
    } else if op == OP_NE || op == OP_ISNOT {
        Ok(compare_values(lv, operand, false) != Some(Cmp::Eq))
    } else if op == OP_GT {
        Ok(compare_values(lv, operand, false) == Some(Cmp::Gt))
    } else if op == OP_LT {
        Ok(compare_values(lv, operand, false) == Some(Cmp::Lt))
    } else if op == OP_GE {
        Ok(
            match compare_values(lv, operand, false) {
                Some(c) => c != Cmp::Lt,
                None => false,
            },
        )
    } else if op == OP_LE {
        Ok(
            match compare_values(lv, operand, false) {
                Some(c) => c != Cmp::Gt,
                None => false,
            },
        )
    } else {
        Ok(false)
    }
}

/// A comparison on an ordinary field: an absent field satisfies only the
/// negated equalities; a present field is forced numeric when `num(...)`
/// wrapped it, a failed forcing failing the condition without error.
pub open spec fn eval_plain_field(
    v: LogValue,
    field: Seq<char>,
    op: int,
    operand: Seq<char>,
    force: bool,
    now: Instant,
) -> Result<bool, Seq<char>> {
    match field_lookup(v, field) {
        None => Ok(op == 10 || op == 6),
        Some(orig) => {
            let forced = if force {
                force_numeric_spec(orig)
            } else {
                Some(orig)
            };
            match forced {
                None => Ok(false),
                Some(lv) => eval_field_op(lv, op, operand, now),
            }
        },
    }
}

fn eval_plain_field_exec(
    v: &LogValue,
    field: &Vec<char>,
    op: usize,
    operand: &Vec<char>,
    force: bool,
    now: Instant,
) -> (r: Result<bool, Vec<char>>)
    requires
        v.wf(),
        now.wf(),
        op < OP_COUNT,
    ensures
        match r {
            Ok(b) => eval_plain_field(*v, field@, op as int, operand@, force, now) == Ok::<
                bool,
                Seq<char>,
            >(b),
            Err(e) => eval_plain_field(*v, field@, op as int, operand@, force, now) == Err::<
                bool,
                Seq<char>,
            >(e@),
        },
{
    proof {
        lemma_field_lookup_wf(*v, field@);
    }
    match field_lookup_exec(v, field) {
        None => Ok(op == OP_NE || op == OP_ISNOT),
        Some(orig) => {
            if force {
                match force_numeric_exec(orig) {
                    None => Ok(false),
                    Some(lv) => eval_field_op_exec(&lv, op, operand, now),
                }
            } else {
                eval_field_op_exec(orig, op, operand, now)
            }
        },
    }
}

/// Operator punctuation: an operand that begins with one of these marks a
/// condition the split misread, which is malformed.
pub open spec fn is_op_char(c: char) -> bool {
    c == '!' || c == '<' || c == '>' || c == '=' || c == '~'
}

fn is_op_char_exec(c: char) -> (r: bool)
    ensures
        r == is_op_char(c),
{
    c == '!' || c == '<' || c == '>' || c == '=' || c == '~'
}

/// One condition: the operator is the first of the table that occurs in the
/// text, the condition splits at that operator's first occurrence, and the
/// field decides the semantics — existence checks, timestamp fields, the
/// `text` pseudo-field, or an ordinary field.
pub open spec fn eval_condition(v: LogValue, line: Seq<char>, cond: Seq<char>, now: Instant) -> Result<
    bool,
    Seq<char>,
> {
    match find_op(cond) {
        None => Err(cond),
        Some(op) => match find_from(cond, op_spec(op), 0) {
            None => Err(cond),
            Some(i) => {
                if op == 15 || op == 5 {
                    let f = strip_num(trim_spec(cond.subrange(0, i))).0;
                    let present = field_lookup(v, f) is Some;
                    Ok(
                        if op == 15 {
                            present
                        } else {
                            !present
                        },
                    )
                } else {
                    let field_raw = trim_spec(cond.subrange(0, i));
                    let operand = trim_spec(
                        cond.subrange(i + op_spec(op).len(), cond.len() as int),
                    );
                    if operand.len() > 0 && is_op_char(operand[0]) {
                        Err(cond)
                    } else {
                        let sn = strip_num(field_raw);
                        if is_ts_key(sn.0) {
                            eval_ts_field(v, op, operand, now, cond)
                        } else if sn.0 == "text"@ {
                            eval_text_field(line, op, operand, cond)
                        } else {
                            eval_plain_field(v, sn.0, op, operand, sn.1, now)
                        }
                    }
                }
            },
        },
    }
}

fn eval_condition_exec(v: &LogValue, line: &Vec<char>, cond: &Vec<char>, now: Instant) -> (r:
    Result<bool, Vec<char>>)
    requires
        v.wf(),
        now.wf(),
    ensures
        match r {
            Ok(b) => eval_condition(*v, line@, cond@, now) == Ok::<bool, Seq<char>>(b),
            Err(e) => eval_condition(*v, line@, cond@, now) == Err::<bool, Seq<char>>(e@),
        },
{
    let n = cond.len();
    match find_op_exec(cond) {
        None => Err(copy_vec(cond)),
        Some(op) => {
            let opv = str_to_chars(op_str(op));
            proof {
                lemma_find_from_bounds(cond@, op_spec(op as int), 0);
            }
            match find_sub(cond, &opv, 0) {
                None => Err(copy_vec(cond)),
                Some(i) => {
                    if op == OP_EXISTS || op == OP_NOT_EXISTS {
                        let before = sub_vec(cond, 0, i);
                        let trimmed = trim_chars(&before);
                        let sn = strip_num_exec(&trimmed);
                        let present = match field_lookup_exec(v, &sn.0) {
                            Some(_) => true,
                            None => false,
                        };
                        Ok(
                            if op == OP_EXISTS {
                                present
                            } else {
                                !present
                            },
                        )
                    } else {
                        let before = sub_vec(cond, 0, i);
                        let field_raw = trim_chars(&before);
                        let after = sub_vec(cond, i + opv.len(), n);
                        let operand = trim_chars(&after);
                        if operand.len() > 0 && is_op_char_exec(operand[0]) {
                            Err(copy_vec(cond))
                        } else {
                            let sn = strip_num_exec(&field_raw);
                            if is_ts_key_exec(&sn.0) {
                                eval_ts_field_exec(v, op, &operand, now, cond)
                            } else {
                                let textv = str_to_chars("text");
                                if chars_eq(&sn.0, &textv) {
                                    eval_text_field_exec(line, op, &operand, cond)
                                } else {
                                    eval_plain_field_exec(v, &sn.0, op, &operand, sn.1, now)
                                }
                            }
                        }
                    }
                },
            }
        },
    }
}

/// One clause, an AND of conditions split on `&&`: blank conditions are
/// skipped, the first false condition settles the clause, and the first
/// malformed condition aborts with its error.
pub open spec fn and_fold(v: LogValue, line: Seq<char>, rest: Seq<char>, now: Instant) -> Result<
    bool,
    Seq<char>,
>
    decreases rest.len(),
    via and_fold_decreases
{
    match find_from(rest, "&&"@, 0) {
        Some(i) => {
            let c = trim_spec(rest.subrange(0, i));
            let tail = rest.subrange(i + "&&"@.len() as int, rest.len() as int);
            if c.len() == 0 {
                and_fold(v, line, tail, now)
            } else {
                match eval_condition(v, line, c, now) {
                    Err(e) => Err(e),
                    Ok(b) => if b {
                        and_fold(v, line, tail, now)
                    } else {
                        Ok(false)
                    },
                }
            }
        },
        None => {
            let c = trim_spec(rest);
            if c.len() == 0 {
                Ok(true)
            } else {
                eval_condition(v, line, c, now)
            }
        },
    }
}

#[via_fn]
proof fn and_fold_decreases(v: LogValue, line: Seq<char>, rest: Seq<char>, now: Instant) {
    reveal_strlit("&&");
    lemma_find_from_bounds(rest, "&&"@, 0);
}

fn and_fold_exec(v: &LogValue, line: &Vec<char>, rest: &Vec<char>, now: Instant) -> (r: Result<
    bool,
    Vec<char>,
>)
    requires
        v.wf(),
        now.wf(),
    ensures
        match r {
            Ok(b) => and_fold(*v, line@, rest@, now) == Ok::<bool, Seq<char>>(b),
            Err(e) => and_fold(*v, line@, rest@, now) == Err::<bool, Seq<char>>(e@),
        },
    decreases rest@.len(),
{
    let n = rest.len();
    let sep = str_to_chars("&&");
    proof {
        reveal_strlit("&&");
        lemma_find_from_bounds(rest@, "&&"@, 0);
    }
    match find_sub(rest, &sep, 0) {
        Some(i) => {
            let head = sub_vec(rest, 0, i);
            let c = trim_chars(&head);
            let tail = sub_vec(rest, i + 2, n);
            if c.len() == 0 {
                and_fold_exec(v, line, &tail, now)
            } else {
                match eval_condition_exec(v, line, &c, now) {
                    Err(e) => Err(e),
                    Ok(b) => {
                        if b {
                            and_fold_exec(v, line, &tail, now)
                        } else {
                            Ok(false)
                        }
                    },
                }
            }
        },
        None => {
            let c = trim_chars(rest);
            if c.len() == 0 {
                Ok(true)
            } else {
                eval_condition_exec(v, line, &c, now)
            }
        },
    }
}

/// The query, an OR of clauses split on `||`: blank clauses are skipped, the
/// first true clause settles the query, and the first error — even in a
/// clause that a later true clause would have made moot — aborts the whole
/// evaluation.
pub open spec fn or_fold(v: LogValue, line: Seq<char>, rest: Seq<char>, now: Instant) -> Result<
    bool,
    Seq<char>,
>
    decreases rest.len(),
    via or_fold_decreases
{
    match find_from(rest, "||"@, 0) {
        Some(i) => {
            let c = trim_spec(rest.subrange(0, i));
            let tail = rest.subrange(i + "||"@.len() as int, rest.len() as int);
            if c.len() == 0 {
                or_fold(v, line, tail, now)
            } else {
                match and_fold(v, line, c, now) {
                    Err(e) => Err(e),
                    Ok(b) => if b {
                        Ok(true)
                    } else {
                        or_fold(v, line, tail, now)
                    },
                }
            }
        },
        None => {
            let c = trim_spec(rest);
            if c.len() == 0 {
                Ok(false)
            } else {
                and_fold(v, line, c, now)
            }
        },
    }
}

#[via_fn]
proof fn or_fold_decreases(v: LogValue, line: Seq<char>, rest: Seq<char>, now: Instant) {
    reveal_strlit("||");
    lemma_find_from_bounds(rest, "||"@, 0);
}

fn or_fold_exec(v: &LogValue, line: &Vec<char>, rest: &Vec<char>, now: Instant) -> (r: Result<
    bool,
    Vec<char>,
>)
    requires
        v.wf(),
        now.wf(),
    ensures
        match r {
            Ok(b) => or_fold(*v, line@, rest@, now) == Ok::<bool, Seq<char>>(b),
            Err(e) => or_fold(*v, line@, rest@, now) == Err::<bool, Seq<char>>(e@),
        },
    decreases rest@.len(),
{
    let n = rest.len();
    let sep = str_to_chars("||");
    proof {
        reveal_strlit("||");
        lemma_find_from_bounds(rest@, "||"@, 0);
    }
    match find_sub(rest, &sep, 0) {
        Some(i) => {
            let head = sub_vec(rest, 0, i);
            let c = trim_chars(&head);
            let tail = sub_vec(rest, i + 2, n);
            if c.len() == 0 {
                or_fold_exec(v, line, &tail, now)
            } else {
                match and_fold_exec(v, line, &c, now) {
                    Err(e) => Err(e),
                    Ok(b) => {
                        if b {
                            Ok(true)
                        } else {
                            or_fold_exec(v, line, &tail, now)
                        }
                    },
                }
            }
        },
        None => {
            let c = trim_chars(rest);
            if c.len() == 0 {
                Ok(false)
            } else {
                and_fold_exec(v, line, &c, now)
            }
        },
    }
}

/// The clause separators brought to one spelling: the word forms of OR and
/// AND become `||` and `&&`.
pub open spec fn normalize_query(q: Seq<char>) -> Seq<char> {
    replace_spec(
        replace_spec(replace_spec(replace_spec(q, " OR "@, "||"@), " or "@, "||"@), " AND "@, "&&"@),
        " and "@,
        "&&"@,
    )
}

/// The whole engine, at the instant `now`.  A blank query matches; a query
/// without any operator token is a case-insensitive substring search on the
/// raw line, negated when it begins with `!`; anything else is the OR-of-AND
/// evaluation.
pub open spec fn spec_evaluate(v: LogValue, line: Seq<char>, q: Seq<char>, now: Instant) -> Result<
    bool,
    Seq<char>,
> {
    if trim_spec(q).len() == 0 {
        Ok(true)
    } else if find_op(q) is None {
        let neg = q.len() > 0 && q[0] == '!';
        let eff = if neg {
            q.skip(1)
        } else {
            q
        };
        let m = has_sub(lower_of(line), lower_of(eff));
        Ok(
            if neg {
                !m
            } else {
                m
            },
        )
    } else {
        or_fold(v, line, normalize_query(q), now)
    }
}

/// Evaluates `query` against a structured value and its raw source line, at
/// the instant `now`; relative time expressions are taken relative to `now`.
pub fn evaluate_at(value: &LogValue, raw_line: &str, query: &str, now: Instant) -> (r: Result<
    bool,
    QueryError,
>)
    requires
        value.wf(),
        now.wf(),
    ensures
        match r {
            Ok(b) => spec_evaluate(*value, raw_line@, query@, now) == Ok::<bool, Seq<char>>(b),
            Err(e) => match e {
                QueryError::InvalidFormat(s) => spec_evaluate(*value, raw_line@, query@, now)
                    == Err::<bool, Seq<char>>(s@),
            },
        },
{
    let q = str_to_chars(query);
    let line = str_to_chars(raw_line);
    let qt = trim_chars(&q);
    if qt.len() == 0 {
        Ok(true)
    } else {
        match find_op_exec(&q) {
            None => {
                let neg = q.len() > 0 && q[0] == '!';
                let eff = if neg {
                    sub_vec(&q, 1, q.len())
                } else {
                    copy_vec(&q)
                };
                proof {
                    if q@.len() > 0 && q@[0] == '!' {
                        assert(q@.subrange(1, q@.len() as int) =~= q@.skip(1));
                    }
                }
                let line_low = to_lower_chars(&line);
                let eff_low = to_lower_chars(&eff);
                let m = contains_sub(&line_low, &eff_low);
                Ok(
                    if neg {
                        !m
                    } else {
                        m
                    },
                )
            },
            Some(_) => {
                proof {
                    reveal_strlit(" OR ");
                    reveal_strlit(" or ");
                    reveal_strlit(" AND ");
                    reveal_strlit(" and ");
                }
                let f1 = str_to_chars(" OR ");
                let f2 = str_to_chars(" or ");
                let f3 = str_to_chars(" AND ");
                let f4 = str_to_chars(" and ");
                let t_or = str_to_chars("||");
                let t_and = str_to_chars("&&");
                let s1 = replace_chars(&q, &f1, &t_or);
                let s2 = replace_chars(&s1, &f2, &t_or);
                let s3 = replace_chars(&s2, &f3, &t_and);
                let s4 = replace_chars(&s3, &f4, &t_and);
                match or_fold_exec(value, &line, &s4, now) {
                    Ok(b) => Ok(b),
                    Err(e) => Err(QueryError::InvalidFormat(chars_to_string(&e))),
                }
            },
        }
    }
}

/// Evaluates `query` against a structured value and its raw source line at
/// the current instant.
pub fn evaluate(value: &LogValue, raw_line: &str, query: &str) -> (r: Result<bool, QueryError>)
    requires
        value.wf(),
    ensures
        exists|now: Instant|
            #[trigger] now.wf() && match r {
                Ok(b) => spec_evaluate(*value, raw_line@, query@, now) == Ok::<bool, Seq<char>>(b),
                Err(e) => match e {
                    QueryError::InvalidFormat(s) => spec_evaluate(*value, raw_line@, query@, now)
                        == Err::<bool, Seq<char>>(s@),
                },
            },
{
    let n = now_instant();
    let r = evaluate_at(value, raw_line, query, n);
    proof {
        assert(n.wf() && match r {
            Ok(b) => spec_evaluate(*value, raw_line@, query@, n) == Ok::<bool, Seq<char>>(b),
            Err(ref e) => match e {
                QueryError::InvalidFormat(s) => spec_evaluate(*value, raw_line@, query@, n)
                    == Err::<bool, Seq<char>>(s@),
            },
        });
    }
    r
}

} // verus!
