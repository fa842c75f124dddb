//! Structured log values and field resolution.
//!
//! A `LogValue` is the JSON-like tree an upstream line parser produces.  A
//! field selector is either a plain object key, or — when it begins with
//! `/` — a pointer path through nested objects and arrays whose segments are
//! separated by `/`, with `~1` standing for `/` and `~0` for `~`, and whose
//! array indices are decimal numbers without a leading `+` or leading zeros.

use vstd::prelude::*;
use vstd::string::*;
use crate::num::Dec;
use crate::num::dval;
use crate::num::is_digit;
use crate::num::is_digit_c;
use crate::num::digit_run_end;
use crate::num::lemma_digit_run_end;
use crate::num::render_dec;
use crate::num::render_dec_exec;
use crate::text::char_find;
use crate::text::replace_spec;
use crate::text::replace_chars;
use crate::text::str_to_chars;
use crate::text::sub_vec;

verus! {

/// A structured log value: a JSON-like tree.
#[derive(Debug)]
pub enum LogValue {
    Null,
    Bool(bool),
    Num(Dec),
    Str(String),
    Arr(Vec<LogValue>),
    Obj(Vec<(String, LogValue)>),
}

/// One parsed log line: structured when an upstream parser recognized its
/// format, the raw text otherwise.
#[derive(Debug)]
pub enum LogEntry {
    Structured(LogValue),
    Unstructured(String),
}

impl LogValue {
    /// Every number in the tree is a well-formed decimal.
    pub open spec fn wf(self) -> bool
        decreases self,
    {
        match self {
            LogValue::Num(d) => d.wf(),
            LogValue::Arr(items) => forall|i: int|
                0 <= i < items@.len() ==> (#[trigger] items@[i]).wf(),
            LogValue::Obj(fields) => forall|i: int|
                0 <= i < fields@.len() ==> (#[trigger] fields@[i]).1.wf(),
            _ => true,
        }
    }
}

/// The value under the first field named `k`, if any.
pub open spec fn assoc_get(fields: Seq<(String, LogValue)>, k: Seq<char>) -> Option<LogValue>
    decreases fields.len(),
{
    if fields.len() == 0 {
        None
    } else if fields[0].0@ == k {
        Some(fields[0].1)
    } else {
        assoc_get(fields.skip(1), k)
    }
}

/// Plain key lookup: the value under key `k` of an object; `None` on any
/// other kind of value.
pub open spec fn obj_get(v: LogValue, k: Seq<char>) -> Option<LogValue> {
    match v {
        LogValue::Obj(fields) => assoc_get(fields@, k),
        _ => None,
    }
}

/// Whether `s@` and `k@` are the same characters.
fn str_eq_chars(s: &String, k: &Vec<char>) -> (r: bool)
    ensures
        r == (s@ == k@),
{
    let n = s.as_str().unicode_len();
    if n != k.len() {
        return false;
    }
    let mut i: usize = 0;
    while i < n
        invariant
            n == s@.len(),
            n == k@.len(),
            i <= n,
            forall|j: int| 0 <= j < i ==> s@[j] == k@[j],
        decreases n - i,
    {
        if s.as_str().get_char(i) != k[i] {
            proof {
                assert(s@ != k@) by {
                    if s@ == k@ {
                        assert(s@[i as int] == k@[i as int]);
                    }
                }
            }
            return false;
        }
        i = i + 1;
    }
    proof {
        assert(s@ =~= k@);
    }
    true
}

pub(crate) fn assoc_get_exec<'a>(fields: &'a Vec<(String, LogValue)>, k: &Vec<char>) -> (r: Option<
    &'a LogValue,
>)
    ensures
        match r {
            Some(x) => assoc_get(fields@, k@) == Some(*x),
            None => assoc_get(fields@, k@) is None,
        },
{
    let n = fields.len();
    proof {
        assert(fields@.skip(0) =~= fields@);
    }
    let mut i: usize = 0;
    while i < n
        invariant
            n == fields@.len(),
            i <= n,
            assoc_get(fields@, k@) == assoc_get(fields@.skip(i as int), k@),
        decreases n - i,
    {
        let pair: &(String, LogValue) = &fields[i];
        proof {
            assert(fields@.skip(i as int)[0] == fields@[i as int]);
        }
        if str_eq_chars(&pair.0, k) {
            return Some(&pair.1);
        }
        proof {
            assert(fields@.skip(i as int).skip(1) =~= fields@.skip((i + 1) as int));
        }
        i = i + 1;
    }
    proof {
        assert(fields@.skip(n as int) =~= Seq::<(String, LogValue)>::empty());
    }
    None
}

/// A pointer token with its escapes undone: `~1` becomes `/`, then `~0`
/// becomes `~`.
pub open spec fn unescape(t: Seq<char>) -> Seq<char> {
    replace_spec(replace_spec(t, "~1"@, "/"@), "~0"@, "~"@)
}

fn unescape_exec(t: &Vec<char>) -> (r: Vec<char>)
    ensures
        r@ == unescape(t@),
{
    proof {
        reveal_strlit("~1");
        reveal_strlit("~0");
        reveal_strlit("/");
        reveal_strlit("~");
    }
    let f1 = str_to_chars("~1");
    let t1 = str_to_chars("/");
    let f0 = str_to_chars("~0");
    let t0 = str_to_chars("~");
    let step = replace_chars(t, &f1, &t1);
    replace_chars(&step, &f0, &t0)
}

/// The non-negative integer denoted by the digits `s[i..j)`.
pub open spec fn digits_int(s: Seq<char>, i: int, j: int) -> int
    decreases j - i,
{
    if j <= i {
        0
    } else {
        digits_int(s, i, j - 1) * 10 + dval(s[j - 1])
    }
}

proof fn lemma_digits_int_nonneg(s: Seq<char>, i: int, j: int)
    requires
        forall|k: int| i <= k < j ==> is_digit(#[trigger] s[k]),
    ensures
        digits_int(s, i, j) >= 0,
    decreases j - i,
{
    if j > i {
        lemma_digits_int_nonneg(s, i, j - 1);
    }
}

/// An array index, as a pointer token denotes it: plain decimal digits, no
/// leading `+`, no leading zeros, and a value that fits the platform's
/// index type.
pub open spec fn parse_idx_spec(t: Seq<char>) -> Option<int> {
    if t.len() == 0 {
        None
    } else if t[0] == '+' {
        None
    } else if t[0] == '0' && t.len() != 1 {
        None
    } else if digit_run_end(t, 0) != t.len() {
        None
    } else if digits_int(t, 0, t.len() as int) > usize::MAX as int {
        None
    } else {
        Some(digits_int(t, 0, t.len() as int))
    }
}

fn digits_usize(t: &Vec<char>, i: usize, j: usize) -> (r: Option<usize>)
    requires
        i <= j && j <= t@.len(),
        forall|k: int| i <= k < j ==> is_digit(#[trigger] t@[k]),
    ensures
        match r {
            Some(u) => u as int == digits_int(t@, i as int, j as int),
            None => digits_int(t@, i as int, j as int) > usize::MAX as int,
        },
    decreases j - i,
{
    if j == i {
        Some(0)
    } else {
        proof {
            lemma_digits_int_nonneg(t@, i as int, j as int - 1);
        }
        let d = ((t[j - 1] as u32) - ('0' as u32)) as usize;
        match digits_usize(t, i, j - 1) {
            None => None,
            Some(a) => {
                match a.checked_mul(10) {
                    None => None,
                    Some(x) => x.checked_add(d),
                }
            },
        }
    }
}

fn parse_idx_exec(t: &Vec<char>) -> (r: Option<usize>)
    ensures
        match r {
            Some(u) => parse_idx_spec(t@) == Some(u as int),
            None => parse_idx_spec(t@) is None,
        },
{
    if t.len() == 0 {
        None
    } else if t[0] == '+' {
        None
    } else if t[0] == '0' && t.len() != 1 {
        None
    } else {
        proof {
            lemma_digit_run_end(t@, 0);
        }
        let e = crate::num::digit_run_end_exec(t, 0);
        if e != t.len() {
            None
        } else {
            digits_usize(t, 0, t.len())
        }
    }
}

/// One pointer step: key lookup in an object, index lookup in an array.
pub open spec fn ptr_step(v: LogValue, token: Seq<char>) -> Option<LogValue> {
    match v {
        LogValue::Obj(fields) => assoc_get(fields@, token),
        LogValue::Arr(items) => match parse_idx_spec(token) {
            Some(i) => if i < items@.len() {
                Some(items@[i])
            } else {
                None
            },
            None => None,
        },
        _ => None,
    }
}

fn ptr_step_exec<'a>(v: &'a LogValue, token: &Vec<char>) -> (r: Option<&'a LogValue>)
    ensures
        match r {
            Some(x) => ptr_step(*v, token@) == Some(*x),
            None => ptr_step(*v, token@) is None,
        },
{
    match v {
        LogValue::Obj(fields) => assoc_get_exec(fields, token),
        LogValue::Arr(items) => {
            match parse_idx_exec(token) {
                Some(i) => {
                    if i < items.len() {
                        Some(&items[i])
                    } else {
                        None
                    }
                },
                None => None,
            }
        },
        _ => None,
    }
}

pub proof fn lemma_char_find_bounds(s: Seq<char>, c: char, from: int)
    ensures
        match char_find(s, c, from) {
            Some(i) => from <= i && i < s.len() && s[i] == c,
            None => true,
        },
    decreases s.len() - from,
{
    if 0 <= from && from < s.len() && s[from] != c {
        lemma_char_find_bounds(s, c, from + 1);
    }
}

/// Pointer lookup over the path `rest`, the text after a consumed `/`.
pub open spec fn ptr_rec(v: LogValue, rest: Seq<char>) -> Option<LogValue>
    decreases rest.len(),
    via ptr_rec_decreases
{
    match char_find(rest, '/', 0) {
        Some(i) => match ptr_step(v, unescape(rest.subrange(0, i))) {
            Some(next) => ptr_rec(next, rest.subrange(i + 1, rest.len() as int)),
            None => None,
        },
        None => ptr_step(v, unescape(rest)),
    }
}

#[via_fn]
proof fn ptr_rec_decreases(v: LogValue, rest: Seq<char>) {
    lemma_char_find_bounds(rest, '/', 0);
}

pub(crate) fn char_find_vec(v: &Vec<char>, c: char, from: usize) -> (r: Option<usize>)
    requires
        from <= v@.len(),
    ensures
        match r {
            Some(i) => char_find(v@, c, from as int) == Some(i as int) && from <= i && i
                < v@.len(),
            None => char_find(v@, c, from as int) is None,
        },
    decreases v@.len() - from,
{
    if from == v.len() {
        None
    } else if v[from] == c {
        Some(from)
    } else {
        char_find_vec(v, c, from + 1)
    }
}

fn ptr_rec_exec<'a>(v: &'a LogValue, rest: &Vec<char>) -> (r: Option<&'a LogValue>)
    ensures
        match r {
            Some(x) => ptr_rec(*v, rest@) == Some(*x),
            None => ptr_rec(*v, rest@) is None,
        },
    decreases rest@.len(),
{
    let n = rest.len();
    match char_find_vec(rest, '/', 0) {
        Some(i) => {
            let token_raw = sub_vec(rest, 0, i);
            let token = unescape_exec(&token_raw);
            match ptr_step_exec(v, &token) {
                Some(next) => {
                    let tail = sub_vec(rest, i + 1, rest.len());
                    ptr_rec_exec(next, &tail)
                },
                None => None,
            }
        },
        None => {
            let token = unescape_exec(rest);
            ptr_step_exec(v, &token)
        },
    }
}

/// Field resolution: a selector beginning with `/` is a pointer path; any
/// other selector is a plain object key.
pub open spec fn field_lookup(v: LogValue, field: Seq<char>) -> Option<LogValue> {
    if field.len() > 0 && field[0] == '/' {
        ptr_rec(v, field.skip(1))
    } else {
        obj_get(v, field)
    }
}

/// Resolves a field selector against a value.
pub(crate) fn field_lookup_exec<'a>(v: &'a LogValue, field: &Vec<char>) -> (r: Option<
    &'a LogValue,
>)
    ensures
        match r {
            Some(x) => field_lookup(*v, field@) == Some(*x),
            None => field_lookup(*v, field@) is None,
        },
{
    if field.len() > 0 && field[0] == '/' {
        let rest = sub_vec(field, 1, field.len());
        proof {
            assert(field@.subrange(1, field@.len() as int) =~= field@.skip(1));
        }
        ptr_rec_exec(v, &rest)
    } else {
        match v {
            LogValue::Obj(fields) => assoc_get_exec(fields, field),
            _ => None,
        }
    }
}

proof fn lemma_assoc_get_wf(fields: Seq<(String, LogValue)>, k: Seq<char>)
    requires
        forall|i: int| 0 <= i < fields.len() ==> (#[trigger] fields[i]).1.wf(),
    ensures
        match assoc_get(fields, k) {
            Some(x) => x.wf(),
            None => true,
        },
    decreases fields.len(),
{
    if fields.len() > 0 && fields[0].0@ != k {
        lemma_assoc_get_wf(fields.skip(1), k);
    }
}

proof fn lemma_ptr_step_wf(v: LogValue, token: Seq<char>)
    requires
        v.wf(),
    ensures
        match ptr_step(v, token) {
            Some(x) => x.wf(),
            None => true,
        },
{
    match v {
        LogValue::Obj(fields) => {
            lemma_assoc_get_wf(fields@, token);
        },
        LogValue::Arr(items) => {
            match parse_idx_spec(token) {
                Some(i) => {
                    lemma_digit_run_end(token, 0);
                    lemma_digits_int_nonneg(token, 0, token.len() as int);
                    if i < items@.len() {
                        assert(items@[i].wf());
                    }
                },
                None => {},
            }
        },
        _ => {},
    }
}

proof fn lemma_ptr_rec_wf(v: LogValue, rest: Seq<char>)
    requires
        v.wf(),
    ensures
        match ptr_rec(v, rest) {
            Some(x) => x.wf(),
            None => true,
        },
    decreases rest.len(),
{
    lemma_char_find_bounds(rest, '/', 0);
    match char_find(rest, '/', 0) {
        Some(i) => {
            lemma_ptr_step_wf(v, unescape(rest.subrange(0, i)));
            match ptr_step(v, unescape(rest.subrange(0, i))) {
                Some(next) => {
                    lemma_ptr_rec_wf(next, rest.subrange(i + 1, rest.len() as int));
                },
                None => {},
            }
        },
        None => {
            lemma_ptr_step_wf(v, unescape(rest));
        },
    }
}

/// A resolved field of a well-formed value is itself well-formed.
pub proof fn lemma_field_lookup_wf(v: LogValue, field: Seq<char>)
    requires
        v.wf(),
    ensures
        match field_lookup(v, field) {
            Some(x) => x.wf(),
            None => true,
        },
{
    if field.len() > 0 && field[0] == '/' {
        lemma_ptr_rec_wf(v, field.skip(1));
    } else {
        match v {
            LogValue::Obj(fields) => {
                lemma_assoc_get_wf(fields@, field);
            },
            _ => {},
        }
    }
}

/// The text a value is coerced to for string comparison: a string as it is,
/// a number in its canonical form, a boolean as `true` or `false`; other
/// kinds have none.
pub open spec fn coerce_str(v: LogValue) -> Option<Seq<char>> {
    match v {
        LogValue::Str(s) => Some(s@),
        LogValue::Num(d) => Some(render_dec(d)),
        LogValue::Bool(b) => Some(
            if b {
                "true"@
            } else {
                "false"@
            },
        ),
        _ => None,
    }
}

pub(crate) fn coerce_str_exec(v: &LogValue) -> (r: Option<Vec<char>>)
    ensures
        match r {
            Some(cs) => coerce_str(*v) == Some(cs@),
            None => coerce_str(*v) is None,
        },
{
    match v {
        LogValue::Str(s) => Some(str_to_chars(s.as_str())),
        LogValue::Num(d) => Some(render_dec_exec(*d)),
        LogValue::Bool(b) => {
            if *b {
                Some(str_to_chars("true"))
            } else {
                Some(str_to_chars("false"))
            }
        },
        _ => None,
    }
}

/// The decimal a value holds, when it is a number.
pub open spec fn num_of(v: LogValue) -> Option<Dec> {
    match v {
        LogValue::Num(d) => Some(d),
        _ => None,
    }
}

} // verus!
