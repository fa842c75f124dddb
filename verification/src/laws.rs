//! Laws of the engine, stated and proved over the specification functions
//! that the executable functions' contracts use.

use vstd::prelude::*;
use crate::num::Dec;
use crate::query::dec_in_range;
use crate::query::eval_condition;
use crate::query::eval_field_op;
use crate::query::eval_plain_field;
use crate::query::eval_text_field;
use crate::query::eval_ts_field;
use crate::query::find_op;
use crate::query::find_op_from;
use crate::query::instant_in_range;
use crate::query::lex_in_range;
use crate::query::op_spec;
use crate::query::spec_between;
use crate::query::spec_evaluate;
use crate::query::split2;
use crate::query::strip_num;
use crate::text::find_from;
use crate::text::has_sub;
use crate::text::lower_of;
use crate::text::match_at;
use crate::text::trim_spec;
use crate::text::unquote_spec;
use crate::time::Instant;
use crate::time::extract_ts_spec;
use crate::time::parse_time_spec;
use crate::value::LogValue;
use crate::value::field_lookup;

verus! {

proof fn lemma_match_at_index(h: Seq<char>, n: Seq<char>, i: int, k: int)
    requires
        match_at(h, n, i),
        0 <= k < n.len(),
    ensures
        h[i + k] == n[k],
{
    assert(h.subrange(i, i + n.len() as int)[k] == n[k]);
}

proof fn lemma_no_sub_by_char(h: Seq<char>, n: Seq<char>, k: int, c: char)
    requires
        0 <= k < n.len(),
        n[k] == c,
        forall|j: int| 0 <= j < h.len() ==> h[j] != c,
    ensures
        !has_sub(h, n),
{
    assert(!has_sub(h, n)) by {
        if has_sub(h, n) {
            let i = choose|i: int| match_at(h, n, i);
            lemma_match_at_index(h, n, i, k);
        }
    }
}

proof fn lemma_no_sub_by_len(h: Seq<char>, n: Seq<char>)
    requires
        n.len() > h.len(),
    ensures
        !has_sub(h, n),
{
    assert(!has_sub(h, n)) by {
        if has_sub(h, n) {
            let i = choose|i: int| match_at(h, n, i);
        }
    }
}

proof fn lemma_find_from_char(h: Seq<char>, n: Seq<char>, from: int, i: int)
    requires
        0 <= from <= i,
        n.len() > 0,
        match_at(h, n, i),
        forall|j: int| from <= j < i ==> !match_at(h, n, j),
    ensures
        find_from(h, n, from) == Some(i),
    decreases i - from,
{
    if from < i {
        lemma_find_from_char(h, n, from + 1, i);
    }
}

proof fn lemma_match_in_sandwich(f: Seq<char>, t: Seq<char>, n: Seq<char>, i: int)
    requires
        n.len() > 0,
        forall|k: int| 0 <= k < n.len() ==> n[k] != ' ',
        match_at(f + seq![' '] + t, n, i),
    ensures
        (i + n.len() <= f.len() && match_at(f, n, i)) || (i >= f.len() + 1 && match_at(
            t,
            n,
            i - f.len() - 1,
        )),
{
    let s = f + seq![' '] + t;
    if i + n.len() <= f.len() {
        assert(f.subrange(i, i + n.len() as int) =~= s.subrange(i, i + n.len() as int));
    } else if i <= f.len() {
        let k = f.len() - i;
        lemma_match_at_index(s, n, i, k);
        assert(s[f.len() as int] == ' ');
        assert(false);
    } else {
        assert(t.subrange(i - f.len() - 1, i - f.len() - 1 + n.len() as int) =~= s.subrange(
            i,
            i + n.len() as int,
        ));
    }
}

proof fn lemma_no_match_head(f: Seq<char>, t: Seq<char>, n: Seq<char>)
    requires
        n.len() > 0,
        forall|k: int| 0 <= k < n.len() ==> n[k] != ' ',
        !has_sub(f, n),
    ensures
        forall|j: int| j <= f.len() ==> !match_at(f + seq![' '] + t, n, j),
{
    assert forall|j: int| j <= f.len() implies !match_at(f + seq![' '] + t, n, j) by {
        if match_at(f + seq![' '] + t, n, j) {
            lemma_match_in_sandwich(f, t, n, j);
        }
    }
}

proof fn lemma_sub_in_sandwich(f: Seq<char>, t: Seq<char>, n: Seq<char>)
    requires
        n.len() > 0,
        forall|k: int| 0 <= k < n.len() ==> n[k] != ' ',
        !has_sub(f, n),
        !has_sub(t, n),
    ensures
        !has_sub(f + seq![' '] + t, n),
{
    assert(!has_sub(f + seq![' '] + t, n)) by {
        if has_sub(f + seq![' '] + t, n) {
            let i = choose|i: int| match_at(f + seq![' '] + t, n, i);
            lemma_match_in_sandwich(f, t, n, i);
        }
    }
}

proof fn lemma_match_tail(f: Seq<char>, t: Seq<char>, n: Seq<char>, m: int)
    requires
        match_at(t, n, m),
    ensures
        match_at(f + seq![' '] + t, n, f.len() + 1 + m),
{
    let s = f + seq![' '] + t;
    assert(t.subrange(m, m + n.len() as int) =~= s.subrange(
        f.len() + 1 + m,
        f.len() + 1 + m + n.len() as int,
    ));
}

proof fn lemma_find_op_is(cond: Seq<char>, i: int, k: int)
    requires
        0 <= k <= i < 20,
        has_sub(cond, op_spec(i)),
        forall|j: int| k <= j < i ==> !has_sub(cond, op_spec(j)),
    ensures
        find_op_from(cond, k) == Some(i),
    decreases i - k,
{
    if k < i {
        lemma_find_op_is(cond, i, k + 1);
    }
}

proof fn lemma_find_op_complete(cond: Seq<char>, k: int)
    requires
        0 <= k <= 20,
    ensures
        match find_op_from(cond, k) {
            Some(i) => k <= i < 20 && has_sub(cond, op_spec(i)) && (forall|j: int|
                k <= j < i ==> !has_sub(cond, op_spec(j))),
            None => forall|j: int| k <= j < 20 ==> !has_sub(cond, op_spec(j)),
        },
    decreases 20 - k,
{
    if k < 20 && !has_sub(cond, op_spec(k)) {
        lemma_find_op_complete(cond, k + 1);
    }
}

/// Operator identification is priority-ordered: the operator found for a
/// condition is the first of the table that occurs anywhere in it, and no
/// earlier table entry occurs in the text at all.
pub proof fn lemma_operator_priority(cond: Seq<char>)
    ensures
        match find_op(cond) {
            Some(i) => 0 <= i < 20 && has_sub(cond, op_spec(i)) && (forall|j: int|
                0 <= j < i ==> !has_sub(cond, op_spec(j))),
            None => forall|j: int| 0 <= j < 20 ==> !has_sub(cond, op_spec(j)),
        },
{
    lemma_find_op_complete(cond, 0);
}

/// A non-blank query without any operator token is a case-insensitive
/// substring search of the raw line, negated exactly when the query begins
/// with `!`.
pub proof fn lemma_plain_query(v: LogValue, line: Seq<char>, q: Seq<char>, now: Instant)
    requires
        trim_spec(q).len() > 0,
        find_op(q) is None,
    ensures
        q.len() > 0,
        q[0] == '!' ==> spec_evaluate(v, line, q, now) == Ok::<bool, Seq<char>>(
            !has_sub(lower_of(line), lower_of(q.skip(1))),
        ),
        q[0] != '!' ==> spec_evaluate(v, line, q, now) == Ok::<bool, Seq<char>>(
            has_sub(lower_of(line), lower_of(q)),
        ),
{
    assert(q.len() > 0);
}

/// `between` and `!between` are exact complements for the same inputs, on
/// timestamp fields, on ordinary fields and on the `text` pseudo-field:
/// either both error with the same text, or they yield negated results.
pub proof fn lemma_between_complement(
    lv: LogValue,
    line: Seq<char>,
    operand: Seq<char>,
    now: Instant,
    cond: Seq<char>,
)
    ensures
        match eval_ts_field(lv, 13, operand, now, cond) {
            Ok(b) => eval_ts_field(lv, 2, operand, now, cond) == Ok::<bool, Seq<char>>(!b),
            Err(e) => eval_ts_field(lv, 2, operand, now, cond) == Err::<bool, Seq<char>>(e),
        },
        match eval_field_op(lv, 13, operand, now) {
            Ok(b) => eval_field_op(lv, 2, operand, now) == Ok::<bool, Seq<char>>(!b),
            Err(e) => eval_field_op(lv, 2, operand, now) == Err::<bool, Seq<char>>(e),
        },
        match eval_text_field(line, 13, operand, cond) {
            Ok(b) => eval_text_field(line, 2, operand, cond) == Ok::<bool, Seq<char>>(!b),
            Err(e) => eval_text_field(line, 2, operand, cond) == Err::<bool, Seq<char>>(e),
        },
{
}

proof fn lemma_dec_in_range_swap(x: Dec, a: Dec, b: Dec)
    ensures
        dec_in_range(x, a, b) == dec_in_range(x, b, a),
{
}

proof fn lemma_instant_in_range_swap(t: Instant, a: Instant, b: Instant)
    ensures
        instant_in_range(t, a, b) == instant_in_range(t, b, a),
{
}

proof fn lemma_split2_concat(a: Seq<char>, b: Seq<char>)
    requires
        !has_sub(a, ".."@),
        !has_sub(b, ".."@),
        a.len() == 0 || a[a.len() - 1] != '.',
    ensures
        split2(a + ".."@ + b, ".."@) == Some((a, b)),
{
    reveal_strlit("..");
    let s = a + ".."@ + b;
    let n = ".."@;
    assert(match_at(s, n, a.len() as int)) by {
        assert(s.subrange(a.len() as int, a.len() as int + 2) =~= n);
    }
    assert forall|j: int| 0 <= j < a.len() implies !match_at(s, n, j) by {
        if match_at(s, n, j) {
            if j + 2 <= a.len() {
                assert(a.subrange(j, j + 2) =~= s.subrange(j, j + 2));
                assert(match_at(a, n, j));
            } else {
                // the window covers the last character of `a`
                lemma_match_at_index(s, n, j, 0);
                assert(s[j] == a[a.len() - 1]);
                assert(n[0] == '.');
            }
        }
    }
    lemma_find_from_char(s, n, 0, a.len() as int);
    let rest = s.subrange(a.len() as int + 2, s.len() as int);
    assert(rest =~= b);
    assert(find_from(b, n, 0) is None) by {
        crate::text::lemma_find_from_bounds(b, n, 0);
        if find_from(b, n, 0) is Some {
        }
    }
    assert(s.subrange(0, a.len() as int) =~= a);
}

proof fn lemma_lex_in_range_swap(x: Seq<char>, a: Seq<char>, b: Seq<char>)
    ensures
        lex_in_range(x, a, b) == lex_in_range(x, b, a),
{
    crate::text::lemma_lex_cmp_antisym(a, b);
    crate::text::lemma_lex_cmp_eq(a, b);
}

/// Supplying the bounds of a range in either order yields identical results,
/// wherever the range evaluates without error: the bounds are swapped into
/// order before the inclusive membership test, for the numeric and the
/// timestamp interpretations of `between` and for the lexicographic fallback
/// of a string-valued field alike.
pub proof fn lemma_between_swap(
    lv: LogValue,
    a: Seq<char>,
    b: Seq<char>,
    is_ts: bool,
    now: Instant,
)
    requires
        !has_sub(a, ".."@),
        !has_sub(b, ".."@),
        a.len() == 0 || a[a.len() - 1] != '.',
        b.len() == 0 || b[b.len() - 1] != '.',
    ensures
        match spec_between(lv, a + ".."@ + b, is_ts, now) {
            Ok(r) => spec_between(lv, b + ".."@ + a, is_ts, now) == Ok::<bool, Seq<char>>(r),
            Err(e) => true,
        },
{
    lemma_split2_concat(a, b);
    lemma_split2_concat(b, a);
    let sa = unquote_spec(a);
    let sb = unquote_spec(b);
    if is_ts {
        match extract_ts_spec(lv) {
            None => {},
            Some(t) => {
                match (parse_time_spec(sa, now), parse_time_spec(sb, now)) {
                    (Some(t1), Some(t2)) => {
                        lemma_instant_in_range_swap(t, t1, t2);
                    },
                    _ => {},
                }
            },
        }
    } else {
        match crate::value::num_of(lv) {
            Some(x) => {
                match (crate::num::parse_dec_spec(sa), crate::num::parse_dec_spec(sb)) {
                    (Some(d1), Some(d2)) => {
                        lemma_dec_in_range_swap(x, d1, d2);
                    },
                    _ => {},
                }
            },
            None => {
                match lv {
                    LogValue::Str(s) => {
                        lemma_lex_in_range_swap(s@, sa, sb);
                    },
                    _ => {},
                }
            },
        }
    }
}

proof fn lemma_op_no_space(j: int)
    requires
        0 <= j < 20,
    ensures
        forall|k: int| 0 <= k < op_spec(j).len() ==> op_spec(j)[k] != ' ',
        op_spec(j).len() > 0,
{
    if j == 0 {
        assert(forall|k: int| 0 <= k < op_spec(0).len() ==> op_spec(0)[k] != ' ') by {
            reveal_strlit("!contains+");
        }
        assert(op_spec(0).len() > 0) by {
            reveal_strlit("!contains+");
        }
    } else if j == 1 {
        assert(forall|k: int| 0 <= k < op_spec(1).len() ==> op_spec(1)[k] != ' ') by {
            reveal_strlit("!contains-");
        }
        assert(op_spec(1).len() > 0) by {
            reveal_strlit("!contains-");
        }
    } else if j == 2 {
        assert(forall|k: int| 0 <= k < op_spec(2).len() ==> op_spec(2)[k] != ' ') by {
            reveal_strlit("!between");
        }
        assert(op_spec(2).len() > 0) by {
            reveal_strlit("!between");
        }
    } else if j == 3 {
        assert(forall|k: int| 0 <= k < op_spec(3).len() ==> op_spec(3)[k] != ' ') by {
            reveal_strlit("!~=");
        }
        assert(op_spec(3).len() > 0) by {
            reveal_strlit("!~=");
        }
    } else if j == 4 {
        assert(forall|k: int| 0 <= k < op_spec(4).len() ==> op_spec(4)[k] != ' ') by {
            reveal_strlit("!contains");
        }
        assert(op_spec(4).len() > 0) by {
            reveal_strlit("!contains");
        }
    } else if j == 5 {
        assert(forall|k: int| 0 <= k < op_spec(5).len() ==> op_spec(5)[k] != ' ') by {
            reveal_strlit("!exists");
        }
        assert(op_spec(5).len() > 0) by {
            reveal_strlit("!exists");
        }
    } else if j == 6 {
        assert(forall|k: int| 0 <= k < op_spec(6).len() ==> op_spec(6)[k] != ' ') by {
            reveal_strlit("isnot");
        }
        assert(op_spec(6).len() > 0) by {
            reveal_strlit("isnot");
        }
    } else if j == 7 {
        assert(forall|k: int| 0 <= k < op_spec(7).len() ==> op_spec(7)[k] != ' ') by {
            reveal_strlit(">=");
        }
        assert(op_spec(7).len() > 0) by {
            reveal_strlit(">=");
        }
    } else if j == 8 {
        assert(forall|k: int| 0 <= k < op_spec(8).len() ==> op_spec(8)[k] != ' ') by {
            reveal_strlit("<=");
        }
        assert(op_spec(8).len() > 0) by {
            reveal_strlit("<=");
        }
    } else if j == 9 {
        assert(forall|k: int| 0 <= k < op_spec(9).len() ==> op_spec(9)[k] != ' ') by {
            reveal_strlit("==");
        }
        assert(op_spec(9).len() > 0) by {
            reveal_strlit("==");
        }
    } else if j == 10 {
        assert(forall|k: int| 0 <= k < op_spec(10).len() ==> op_spec(10)[k] != ' ') by {
            reveal_strlit("!=");
        }
        assert(op_spec(10).len() > 0) by {
            reveal_strlit("!=");
        }
    } else if j == 11 {
        assert(forall|k: int| 0 <= k < op_spec(11).len() ==> op_spec(11)[k] != ' ') by {
            reveal_strlit("contains+");
        }
        assert(op_spec(11).len() > 0) by {
            reveal_strlit("contains+");
        }
    } else if j == 12 {
        assert(forall|k: int| 0 <= k < op_spec(12).len() ==> op_spec(12)[k] != ' ') by {
            reveal_strlit("contains-");
        }
        assert(op_spec(12).len() > 0) by {
            reveal_strlit("contains-");
        }
    } else if j == 13 {
        assert(forall|k: int| 0 <= k < op_spec(13).len() ==> op_spec(13)[k] != ' ') by {
            reveal_strlit("between");
        }
        assert(op_spec(13).len() > 0) by {
            reveal_strlit("between");
        }
    } else if j == 14 {
        assert(forall|k: int| 0 <= k < op_spec(14).len() ==> op_spec(14)[k] != ' ') by {
            reveal_strlit("contains");
        }
        assert(op_spec(14).len() > 0) by {
            reveal_strlit("contains");
        }
    } else if j == 15 {
        assert(forall|k: int| 0 <= k < op_spec(15).len() ==> op_spec(15)[k] != ' ') by {
            reveal_strlit("exists");
        }
        assert(op_spec(15).len() > 0) by {
            reveal_strlit("exists");
        }
    } else if j == 16 {
        assert(forall|k: int| 0 <= k < op_spec(16).len() ==> op_spec(16)[k] != ' ') by {
            reveal_strlit("is");
        }
        assert(op_spec(16).len() > 0) by {
            reveal_strlit("is");
        }
    } else if j == 17 {
        assert(forall|k: int| 0 <= k < op_spec(17).len() ==> op_spec(17)[k] != ' ') by {
            reveal_strlit("~=");
        }
        assert(op_spec(17).len() > 0) by {
            reveal_strlit("~=");
        }
    } else if j == 18 {
        assert(forall|k: int| 0 <= k < op_spec(18).len() ==> op_spec(18)[k] != ' ') by {
            reveal_strlit(">");
        }
        assert(op_spec(18).len() > 0) by {
            reveal_strlit(">");
        }
    } else {
        assert(forall|k: int| 0 <= k < op_spec(19).len() ==> op_spec(19)[k] != ' ') by {
            reveal_strlit("<");
        }
        assert(op_spec(19).len() > 0) by {
            reveal_strlit("<");
        }
    }
}

#[verifier::spinoff_prover]
proof fn lemma_exists_cond_shape(f: Seq<char>)
    requires
        forall|j: int| 0 <= j < 20 ==> !has_sub(f, #[trigger] op_spec(j)),
    ensures
        find_op(f + " exists"@) == Some(15int),
        find_from(f + " exists"@, op_spec(15), 0) == Some(f.len() as int + 1),
        (f + " exists"@).subrange(0, f.len() as int + 1) == f + seq![' '],
{
    let sp = seq![' '];
    let tail1 = "exists"@;
    let cond1 = f + " exists"@;
    assert(cond1 =~= f + sp + tail1) by {
        reveal_strlit(" exists");
        reveal_strlit("exists");
    }

    // none of the higher-priority operators occurs in the tail
    assert(!has_sub(tail1, op_spec(0))) by {
        reveal_strlit("exists");
        reveal_strlit("!contains+");
        lemma_no_sub_by_len(tail1, op_spec(0));
    }
    assert(!has_sub(tail1, op_spec(1))) by {
        reveal_strlit("exists");
        reveal_strlit("!contains-");
        lemma_no_sub_by_len(tail1, op_spec(1));
    }
    assert(!has_sub(tail1, op_spec(2))) by {
        reveal_strlit("exists");
        reveal_strlit("!between");
        lemma_no_sub_by_len(tail1, op_spec(2));
    }
    assert(!has_sub(tail1, op_spec(3))) by {
        reveal_strlit("exists");
        reveal_strlit("!~=");
        lemma_no_sub_by_char(tail1, op_spec(3), 0, '!');
    }
    assert(!has_sub(tail1, op_spec(4))) by {
        reveal_strlit("exists");
        reveal_strlit("!contains");
        lemma_no_sub_by_len(tail1, op_spec(4));
    }
    assert(!has_sub(tail1, op_spec(5))) by {
        reveal_strlit("exists");
        reveal_strlit("!exists");
        lemma_no_sub_by_len(tail1, op_spec(5));
    }
    assert(!has_sub(tail1, op_spec(6))) by {
        reveal_strlit("exists");
        reveal_strlit("isnot");
        lemma_no_sub_by_char(tail1, op_spec(6), 2, 'n');
    }
    assert(!has_sub(tail1, op_spec(7))) by {
        reveal_strlit("exists");
        reveal_strlit(">=");
        lemma_no_sub_by_char(tail1, op_spec(7), 0, '>');
    }
    assert(!has_sub(tail1, op_spec(8))) by {
        reveal_strlit("exists");
        reveal_strlit("<=");
        lemma_no_sub_by_char(tail1, op_spec(8), 0, '<');
    }
    assert(!has_sub(tail1, op_spec(9))) by {
        reveal_strlit("exists");
        reveal_strlit("==");
        lemma_no_sub_by_char(tail1, op_spec(9), 0, '=');
    }
    assert(!has_sub(tail1, op_spec(10))) by {
        reveal_strlit("exists");
        reveal_strlit("!=");
        lemma_no_sub_by_char(tail1, op_spec(10), 0, '!');
    }
    assert(!has_sub(tail1, op_spec(11))) by {
        reveal_strlit("exists");
        reveal_strlit("contains+");
        lemma_no_sub_by_len(tail1, op_spec(11));
    }
    assert(!has_sub(tail1, op_spec(12))) by {
        reveal_strlit("exists");
        reveal_strlit("contains-");
        lemma_no_sub_by_len(tail1, op_spec(12));
    }
    assert(!has_sub(tail1, op_spec(13))) by {
        reveal_strlit("exists");
        reveal_strlit("between");
        lemma_no_sub_by_len(tail1, op_spec(13));
    }
    assert(!has_sub(tail1, op_spec(14))) by {
        reveal_strlit("exists");
        reveal_strlit("contains");
        lemma_no_sub_by_len(tail1, op_spec(14));
    }
    assert forall|j: int| 0 <= j < 15 implies !has_sub(cond1, #[trigger] op_spec(j)) by {
        lemma_op_no_space(j);
        lemma_sub_in_sandwich(f, tail1, op_spec(j));
    }
    assert(match_at(tail1, op_spec(15), 0)) by {
        reveal_strlit("exists");
        assert(tail1.subrange(0, 6) =~= op_spec(15));
    }
    assert(has_sub(cond1, op_spec(15))) by {
        lemma_match_tail(f, tail1, op_spec(15), 0);
    }
    lemma_find_op_is(cond1, 15, 0);

    // the condition splits right after the separating blank
    lemma_match_tail(f, tail1, op_spec(15), 0);
    lemma_op_no_space(15);
    assert(op_spec(15).len() > 0) by {
        reveal_strlit("exists");
    }
    lemma_no_match_head(f, tail1, op_spec(15));
    lemma_find_from_char(cond1, op_spec(15), 0, f.len() as int + 1);
    assert(cond1.subrange(0, f.len() as int + 1) =~= f + sp);
}

#[verifier::spinoff_prover]
proof fn lemma_not_exists_cond_shape(f: Seq<char>)
    requires
        forall|j: int| 0 <= j < 20 ==> !has_sub(f, #[trigger] op_spec(j)),
    ensures
        find_op(f + " !exists"@) == Some(5int),
        find_from(f + " !exists"@, op_spec(5), 0) == Some(f.len() as int + 1),
        (f + " !exists"@).subrange(0, f.len() as int + 1) == f + seq![' '],
{
    let sp = seq![' '];
    let tail2 = "!exists"@;
    let cond2 = f + " !exists"@;
    assert(cond2 =~= f + sp + tail2) by {
        reveal_strlit(" !exists");
        reveal_strlit("!exists");
    }

    assert(!has_sub(tail2, op_spec(0))) by {
        reveal_strlit("!exists");
        reveal_strlit("!contains+");
        lemma_no_sub_by_len(tail2, op_spec(0));
    }
    assert(!has_sub(tail2, op_spec(1))) by {
        reveal_strlit("!exists");
        reveal_strlit("!contains-");
        lemma_no_sub_by_len(tail2, op_spec(1));
    }
    assert(!has_sub(tail2, op_spec(2))) by {
        reveal_strlit("!exists");
        reveal_strlit("!between");
        lemma_no_sub_by_len(tail2, op_spec(2));
    }
    assert(!has_sub(tail2, op_spec(3))) by {
        reveal_strlit("!exists");
        reveal_strlit("!~=");
        lemma_no_sub_by_char(tail2, op_spec(3), 1, '~');
    }
    assert(!has_sub(tail2, op_spec(4))) by {
        reveal_strlit("!exists");
        reveal_strlit("!contains");
        lemma_no_sub_by_len(tail2, op_spec(4));
    }
    assert forall|j: int| 0 <= j < 5 implies !has_sub(cond2, #[trigger] op_spec(j)) by {
        lemma_op_no_space(j);
        lemma_sub_in_sandwich(f, tail2, op_spec(j));
    }
    assert(match_at(tail2, op_spec(5), 0)) by {
        reveal_strlit("!exists");
        assert(tail2.subrange(0, 7) =~= op_spec(5));
    }
    assert(has_sub(cond2, op_spec(5))) by {
        lemma_match_tail(f, tail2, op_spec(5), 0);
    }
    lemma_find_op_is(cond2, 5, 0);

    lemma_match_tail(f, tail2, op_spec(5), 0);
    lemma_op_no_space(5);
    assert(op_spec(5).len() > 0) by {
        reveal_strlit("!exists");
    }
    lemma_no_match_head(f, tail2, op_spec(5));
    lemma_find_from_char(cond2, op_spec(5), 0, f.len() as int + 1);
    assert(cond2.subrange(0, f.len() as int + 1) =~= f + sp);
}

/// `exists` and `!exists` are exact complements: for a field text free of
/// operator tokens, the one condition holds exactly when the field resolves
/// to a value — a `Null` value counts as present — and the other exactly
/// when it does not.
#[verifier::rlimit(100)]
#[verifier::spinoff_prover]
pub proof fn lemma_exists_complement(v: LogValue, line: Seq<char>, f: Seq<char>, now: Instant)
    requires
        forall|j: int| 0 <= j < 20 ==> !has_sub(f, #[trigger] op_spec(j)),
    ensures
        eval_condition(v, line, f + " exists"@, now) == Ok::<bool, Seq<char>>(
            field_lookup(v, strip_num(trim_spec(f + seq![' '])).0) is Some,
        ),
        eval_condition(v, line, f + " !exists"@, now) == Ok::<bool, Seq<char>>(
            !(field_lookup(v, strip_num(trim_spec(f + seq![' '])).0) is Some),
        ),
{
    lemma_exists_cond_shape(f);
    lemma_not_exists_cond_shape(f);
}

/// For an absent field, `!=` and `isnot` hold and every other comparison
/// operator fails, with no error.
pub proof fn lemma_absent_field(
    v: LogValue,
    field: Seq<char>,
    op: int,
    operand: Seq<char>,
    force: bool,
    now: Instant,
)
    requires
        field_lookup(v, field) is None,
    ensures
        eval_plain_field(v, field, op, operand, force, now) == Ok::<bool, Seq<char>>(
            op == 10 || op == 6,
        ),
{
}

} // verus!
