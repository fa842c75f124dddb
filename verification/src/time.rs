//! The time interpreter.
//!
//! A time expression is the literal `now`, a relative duration (optionally
//! suffixed with ` ago`) subtracted from the current instant, or an RFC 3339
//! absolute timestamp.  A log's own timestamp is probed from the fixed key
//! set `timestamp`, `ts`, `@timestamp`: the first key present decides, and
//! holds either an RFC 3339 string or an integer of Unix epoch seconds.

use vstd::prelude::*;
use vstd::string::*;
use crate::num::dval;
use crate::num::is_digit;
use crate::num::is_digit_c;
use crate::text::Cmp;
use crate::text::chars_eq;
use crate::text::chars_to_string;
use crate::text::ends_with;
use crate::text::ends_with_chars;
use crate::text::lower_of;
use crate::text::str_to_chars;
use crate::text::sub_vec;
use crate::text::is_ws;
use crate::text::to_lower_chars;
use crate::text::uni_ws;
use crate::value::LogValue;
use crate::value::assoc_get;
use crate::value::obj_get;

verus! {

/// An absolute point in time: seconds since the Unix epoch, and nanoseconds
/// within the second.
#[derive(Clone, Copy, PartialEq, Eq, Structural, Debug)]
pub struct Instant {
    pub secs: i64,
    pub nanos: u32,
}

impl Instant {
    /// Sub-second nanoseconds stay below two seconds' worth; a leap second
    /// is represented by nanoseconds above 999,999,999.
    pub open spec fn wf(self) -> bool {
        self.nanos < 2_000_000_000
    }
}

/// Instants ordered by seconds, then nanoseconds.
pub open spec fn instant_le(a: Instant, b: Instant) -> bool {
    a.secs < b.secs || (a.secs == b.secs && a.nanos <= b.nanos)
}

/// Three-way comparison of instants.
pub open spec fn instant_cmp(a: Instant, b: Instant) -> Cmp {
    if a.secs < b.secs || (a.secs == b.secs && a.nanos < b.nanos) {
        Cmp::Lt
    } else if a.secs == b.secs && a.nanos == b.nanos {
        Cmp::Eq
    } else {
        Cmp::Gt
    }
}

pub(crate) fn instant_le_exec(a: Instant, b: Instant) -> (r: bool)
    ensures
        r == instant_le(a, b),
{
    a.secs < b.secs || (a.secs == b.secs && a.nanos <= b.nanos)
}

pub(crate) fn instant_cmp_exec(a: Instant, b: Instant) -> (r: Cmp)
    ensures
        r == instant_cmp(a, b),
{
    if a.secs < b.secs || (a.secs == b.secs && a.nanos < b.nanos) {
        Cmp::Lt
    } else if a.secs == b.secs && a.nanos == b.nanos {
        Cmp::Eq
    } else {
        Cmp::Gt
    }
}

/// What chrono's RFC 3339 parser makes of a text: the denoted instant as
/// epoch seconds and sub-second nanoseconds, or nothing.
pub uninterp spec fn rfc3339_of(s: Seq<char>) -> Option<(i64, u32)>;

/// The instant an RFC 3339 text denotes.
pub open spec fn rfc3339_instant(s: Seq<char>) -> Option<Instant> {
    match rfc3339_of(s) {
        Some(p) => Some(Instant { secs: p.0, nanos: p.1 }),
        None => None,
    }
}

/// Relies on chrono's DateTime::parse_from_rfc3339, timestamp and
/// timestamp_subsec_nanos: whether a text parses, and the instant it
/// denotes, depend on the text alone; sub-second nanoseconds exceed
/// 999,999,999 only to represent a leap second and stay below two seconds'
/// worth.
#[verifier::external_body]
fn parse_rfc3339(s: &str) -> (r: Option<Instant>)
    ensures
        match r {
            Some(t) => rfc3339_of(s@) == Some((t.secs, t.nanos)) && t.nanos < 2_000_000_000,
            None => rfc3339_of(s@) is None,
        },
{
    match chrono::DateTime::parse_from_rfc3339(s) {
        Ok(dt) => Some(Instant { secs: dt.timestamp(), nanos: dt.timestamp_subsec_nanos() }),
        Err(_) => None,
    }
}

/// The value of the digits in the span of digits and blanks beginning at
/// `i`, folded into `acc`: the duration grammar lets blanks stand between
/// the digits of one number, so a span's digits read as one number.
pub open spec fn span_val(s: Seq<char>, i: int, acc: int) -> int
    decreases s.len() - i,
{
    if i < 0 || i >= s.len() {
        acc
    } else if is_digit(s[i]) {
        span_val(s, i + 1, acc * 10 + dval(s[i]))
    } else if uni_ws(s[i]) {
        span_val(s, i + 1, acc)
    } else {
        acc
    }
}

/// Where the span of digits and blanks beginning at `i` ends.
pub open spec fn span_end(s: Seq<char>, i: int) -> int
    decreases s.len() - i,
{
    if i < 0 || i >= s.len() {
        i
    } else if is_digit(s[i]) || uni_ws(s[i]) {
        span_end(s, i + 1)
    } else {
        i
    }
}

proof fn lemma_span_end(s: Seq<char>, i: int)
    requires
        0 <= i && i <= s.len(),
    ensures
        i <= span_end(s, i) && span_end(s, i) <= s.len(),
    decreases s.len() - i,
{
    if i < s.len() && (is_digit(s[i]) || uni_ws(s[i])) {
        lemma_span_end(s, i + 1);
    }
}

/// The weight of a text for the duration parser: the value of each digit
/// span times the largest unit multiplier, a year's seconds, summed.
pub open spec fn dur_weight(s: Seq<char>, i: int) -> int
    decreases s.len() - i,
    via dur_weight_decreases
{
    if i < 0 || i >= s.len() {
        0
    } else if is_digit(s[i]) {
        span_val(s, i, 0) * 31_557_600 + dur_weight(s, span_end(s, i))
    } else {
        dur_weight(s, i + 1)
    }
}

#[via_fn]
proof fn dur_weight_decreases(s: Seq<char>, i: int) {
    if 0 <= i && i < s.len() && is_digit(s[i]) {
        lemma_span_end(s, i + 1);
    }
}

/// A text the duration parser may safely see.  The parser checks its own
/// arithmetic except the final carry of a full second of nanoseconds, which
/// overflows only when the seconds counter stands at its very ceiling; every
/// amount the parser adds to that counter is at most one digit span's value
/// times the largest unit multiplier, so a text whose weight stays below the
/// ceiling cannot drive the counter there.
pub open spec fn dur_text_safe(s: Seq<char>) -> bool {
    dur_weight(s, 0) < u64::MAX as int
}

proof fn lemma_span_val_ge_acc(s: Seq<char>, i: int, acc: int)
    requires
        acc >= 0,
    ensures
        span_val(s, i, acc) >= acc,
    decreases s.len() - i,
{
    if 0 <= i && i < s.len() {
        if is_digit(s[i]) {
            lemma_span_val_ge_acc(s, i + 1, acc * 10 + dval(s[i]));
        } else if uni_ws(s[i]) {
            lemma_span_val_ge_acc(s, i + 1, acc);
        }
    }
}

proof fn lemma_dur_weight_nonneg(s: Seq<char>, i: int)
    ensures
        dur_weight(s, i) >= 0,
    decreases s.len() - i,
{
    if 0 <= i && i < s.len() {
        if is_digit(s[i]) {
            lemma_span_end(s, i + 1);
            lemma_span_val_ge_acc(s, i, 0);
            lemma_dur_weight_nonneg(s, span_end(s, i));
        } else {
            lemma_dur_weight_nonneg(s, i + 1);
        }
    }
}

fn span_scan(v: &Vec<char>, i: usize, acc: u128) -> (r: Option<(u128, usize)>)
    requires
        i <= v@.len(),
        acc <= u64::MAX as u128,
    ensures
        match r {
            Some(p) => p.0 as int == span_val(v@, i as int, acc as int) && p.0 <= u64::MAX as u128
                && p.1 as int == span_end(v@, i as int) && i <= p.1 && p.1 <= v@.len(),
            None => span_val(v@, i as int, acc as int) > u64::MAX as int,
        },
    decreases v@.len() - i,
{
    if i == v.len() {
        Some((acc, i))
    } else {
        let c = v[i];
        if is_digit_c(c) {
            let d = (c as u32) - ('0' as u32);
            let acc2 = acc * 10 + (d as u128);
            if acc2 > u64::MAX as u128 {
                proof {
                    lemma_span_val_ge_acc(v@, i as int + 1, acc2 as int);
                }
                None
            } else {
                span_scan(v, i + 1, acc2)
            }
        } else if is_ws(c) {
            span_scan(v, i + 1, acc)
        } else {
            Some((acc, i))
        }
    }
}

fn weight_below(v: &Vec<char>, i: usize, acc: u128) -> (r: bool)
    requires
        i <= v@.len(),
        acc < u64::MAX as u128,
    ensures
        r == (acc as int + dur_weight(v@, i as int) < u64::MAX as int),
    decreases v@.len() - i,
{
    if i == v.len() {
        true
    } else {
        let c = v[i];
        if is_digit_c(c) {
            proof {
                lemma_span_end(v@, i as int + 1);
            }
            match span_scan(v, i, 0) {
                None => {
                    proof {
                        lemma_dur_weight_nonneg(v@, span_end(v@, i as int));
                    }
                    false
                },
                Some(p) => {
                    proof {
                        lemma_span_val_ge_acc(v@, i as int, 0);
                        assert((p.0 as int) * 31_557_600 <= (u64::MAX as int) * 31_557_600)
                            by (nonlinear_arith)
                            requires
                                0 <= p.0 as int,
                                p.0 as int <= u64::MAX as int,
                        ;
                    }
                    let w = p.0 * 31_557_600u128;
                    let acc2 = acc + w;
                    if acc2 >= u64::MAX as u128 {
                        proof {
                            lemma_dur_weight_nonneg(v@, p.1 as int);
                        }
                        false
                    } else {
                        weight_below(v, p.1, acc2)
                    }
                },
            }
        } else {
            weight_below(v, i + 1, acc)
        }
    }
}

/// What humantime's duration parser makes of a text: whole seconds and
/// sub-second nanoseconds, or nothing.
pub uninterp spec fn duration_of(s: Seq<char>) -> Option<(u64, u32)>;

/// Relies on humantime::parse_duration, Duration::as_secs and
/// Duration::subsec_nanos: the parsed duration depends on the text alone,
/// and std's Duration keeps sub-second nanoseconds below one second's
/// worth.  The precondition keeps the parser's seconds counter below its
/// ceiling (see `dur_text_safe`): without it, a text driving the counter to
/// the ceiling with a full second of nanoseconds left over makes the final
/// carry panic.
#[verifier::external_body]
fn parse_duration_text(s: &str) -> (r: Option<(u64, u32)>)
    requires
        dur_text_safe(s@),
    ensures
        r == duration_of(s@),
        r matches Some(d) ==> d.1 < 1_000_000_000,
{
    match humantime::parse_duration(s) {
        Ok(d) => Some((d.as_secs(), d.subsec_nanos())),
        Err(_) => None,
    }
}

/// Relies on std's SystemTime::now and chrono's conversion of a system time
/// to a UTC date-time — which, unlike chrono's own clock read, handles a
/// clock standing before the epoch — with timestamp and
/// timestamp_subsec_nanos reading the instant back: some current instant,
/// with sub-second nanoseconds below two seconds' worth.  A clock outside
/// chrono's representable calendar span (about 262,000 years either way) is
/// beyond the conversion.
#[verifier::external_body]
pub(crate) fn now_instant() -> (r: Instant)
    ensures
        r.wf(),
{
    let t: chrono::DateTime<chrono::Utc> = std::time::SystemTime::now().into();
    Instant { secs: t.timestamp(), nanos: t.timestamp_subsec_nanos() }
}

/// `t` minus a duration of `ds` seconds and `dn` nanoseconds; nothing when
/// the result lies before the earliest representable instant.
pub open spec fn instant_sub(t: Instant, ds: u64, dn: u32) -> Option<Instant> {
    let borrow: int = if t.nanos >= dn {
        0
    } else {
        1
    };
    let n2: int = if t.nanos >= dn {
        t.nanos - dn
    } else {
        t.nanos + 1_000_000_000 - dn
    };
    let s2: int = t.secs - ds - borrow;
    if s2 < i64::MIN {
        None
    } else {
        Some(Instant { secs: s2 as i64, nanos: n2 as u32 })
    }
}

fn instant_sub_exec(t: Instant, ds: u64, dn: u32) -> (r: Option<Instant>)
    requires
        t.wf(),
        dn < 1_000_000_000,
    ensures
        r == instant_sub(t, ds, dn),
        r matches Some(x) ==> x.wf(),
{
    let borrow: i64 = if t.nanos >= dn {
        0
    } else {
        1
    };
    let n2: u32 = if t.nanos >= dn {
        t.nanos - dn
    } else {
        t.nanos + 1_000_000_000 - dn
    };
    match t.secs.checked_sub_unsigned(ds) {
        None => None,
        Some(a) => {
            match a.checked_sub(borrow) {
                None => None,
                Some(s2) => Some(Instant { secs: s2, nanos: n2 }),
            }
        },
    }
}

/// The instant a time expression denotes, evaluated at the instant `now`:
/// the literal `now` in any letter case; a duration — its text within the
/// engine's magnitude bound — with an optional trailing ` ago`, subtracted
/// from `now`; or an RFC 3339 timestamp.
pub open spec fn parse_time_spec(s: Seq<char>, now: Instant) -> Option<Instant> {
    if lower_of(s) == "now"@ {
        Some(now)
    } else {
        let clean = if ends_with(s, " ago"@) {
            s.take(s.len() - 4)
        } else {
            s
        };
        if dur_text_safe(clean) {
            match duration_of(clean) {
                Some(d) => instant_sub(now, d.0, d.1),
                None => rfc3339_instant(s),
            }
        } else {
            rfc3339_instant(s)
        }
    }
}

/// Parses a time expression relative to the given instant.  The error
/// carries the text that failed to parse.
pub fn parse_time_string_at(time_str: &str, now: Instant) -> (r: Result<Instant, String>)
    requires
        now.wf(),
    ensures
        match r {
            Ok(t) => parse_time_spec(time_str@, now) == Some(t) && t.wf(),
            Err(e) => parse_time_spec(time_str@, now) is None && e@ == time_str@,
        },
{
    let chars = str_to_chars(time_str);
    let low = to_lower_chars(&chars);
    let now_lit = str_to_chars("now");
    if chars_eq(&low, &now_lit) {
        Ok(now)
    } else {
        let ago = str_to_chars(" ago");
        proof {
            reveal_strlit(" ago");
        }
        let clean_vec = if ends_with_chars(&chars, &ago) {
            proof {
                assert(time_str@.subrange(0, (time_str@.len() - 4) as int)
                    =~= time_str@.take(time_str@.len() - 4));
            }
            sub_vec(&chars, 0, chars.len() - 4)
        } else {
            chars
        };
        if weight_below(&clean_vec, 0, 0) {
            let clean_str = chars_to_string(&clean_vec);
            match parse_duration_text(clean_str.as_str()) {
                Some(d) => {
                    match instant_sub_exec(now, d.0, d.1) {
                        Some(t) => Ok(t),
                        None => Err(String::from_str(time_str)),
                    }
                },
                None => {
                    match parse_rfc3339(time_str) {
                        Some(t) => Ok(t),
                        None => Err(String::from_str(time_str)),
                    }
                },
            }
        } else {
            match parse_rfc3339(time_str) {
                Some(t) => Ok(t),
                None => Err(String::from_str(time_str)),
            }
        }
    }
}

/// Parses a time expression relative to the current instant.
pub fn parse_time_string(time_str: &str) -> (r: Result<Instant, String>)
    ensures
        exists|now: Instant|
            #[trigger] now.wf() && match r {
                Ok(t) => parse_time_spec(time_str@, now) == Some(t) && t.wf(),
                Err(e) => parse_time_spec(time_str@, now) is None && e@ == time_str@,
            },
{
    let n = now_instant();
    let r = parse_time_string_at(time_str, n);
    proof {
        assert(n.wf() && match r {
            Ok(t) => parse_time_spec(time_str@, n) == Some(t) && t.wf(),
            Err(ref e) => parse_time_spec(time_str@, n) is None && e@ == time_str@,
        });
    }
    r
}

/// The instant a timestamp field holds: an RFC 3339 string, or an integer
/// of Unix epoch seconds.
pub open spec fn ts_from_value(tv: LogValue) -> Option<Instant> {
    match tv {
        LogValue::Str(s) => rfc3339_instant(s@),
        LogValue::Num(d) => if d.scale == 0 {
            let v: int = if d.neg {
                -(d.mant as int)
            } else {
                d.mant as int
            };
            if i64::MIN <= v && v <= i64::MAX {
                Some(Instant { secs: v as i64, nanos: 0 })
            } else {
                None
            }
        } else {
            None
        },
        _ => None,
    }
}

fn ts_from_value_exec(tv: &LogValue) -> (r: Option<Instant>)
    ensures
        r == ts_from_value(*tv),
        r matches Some(t) ==> t.wf(),
{
    match tv {
        LogValue::Str(s) => parse_rfc3339(s.as_str()),
        LogValue::Num(d) => {
            if d.scale == 0 {
                if !d.neg {
                    if d.mant <= i64::MAX as u64 {
                        Some(Instant { secs: d.mant as i64, nanos: 0 })
                    } else {
                        None
                    }
                } else {
                    if d.mant <= i64::MAX as u64 {
                        Some(Instant { secs: -(d.mant as i64), nanos: 0 })
                    } else if d.mant == (i64::MAX as u64) + 1 {
                        Some(Instant { secs: i64::MIN, nanos: 0 })
                    } else {
                        None
                    }
                }
            } else {
                None
            }
        },
        _ => None,
    }
}

/// The log's own timestamp: the fixed key set is probed in order, the first
/// key present decides, and its value must be interpretable — a later key is
/// never tried once an earlier one is present.
pub open spec fn extract_ts_spec(v: LogValue) -> Option<Instant> {
    match obj_get(v, "timestamp"@) {
        Some(tv) => ts_from_value(tv),
        None => match obj_get(v, "ts"@) {
            Some(tv) => ts_from_value(tv),
            None => match obj_get(v, "@timestamp"@) {
                Some(tv) => ts_from_value(tv),
                None => None,
            },
        },
    }
}

/// Extracts and interprets the log's timestamp, probing `timestamp`, `ts`,
/// `@timestamp` in that order.
pub fn extract_and_parse_timestamp(value: &LogValue) -> (r: Option<Instant>)
    ensures
        r == extract_ts_spec(*value),
        r matches Some(t) ==> t.wf(),
{
    let k1 = str_to_chars("timestamp");
    match obj_get_key(value, &k1) {
        Some(tv) => ts_from_value_exec(tv),
        None => {
            let k2 = str_to_chars("ts");
            match obj_get_key(value, &k2) {
                Some(tv) => ts_from_value_exec(tv),
                None => {
                    let k3 = str_to_chars("@timestamp");
                    match obj_get_key(value, &k3) {
                        Some(tv) => ts_from_value_exec(tv),
                        None => None,
                    }
                },
            }
        },
    }
}

fn obj_get_key<'a>(v: &'a LogValue, k: &Vec<char>) -> (r: Option<&'a LogValue>)
    ensures
        match r {
            Some(x) => obj_get(*v, k@) == Some(*x),
            None => obj_get(*v, k@) is None,
        },
{
    match v {
        LogValue::Obj(fields) => crate::value::assoc_get_exec(fields, k),
        _ => None,
    }
}

} // verus!
