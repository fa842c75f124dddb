use loglens_core::evaluate_at;
use loglens_core::extract_and_parse_timestamp;
use loglens_core::extract_quoted;
use loglens_core::parse_time_string;
use loglens_core::parse_time_string_at;
use loglens_core::split_once_char;
use loglens_core::Dec;
use loglens_core::Instant;
use loglens_core::LogValue;

fn obj(fields: Vec<(&str, LogValue)>) -> LogValue {
    LogValue::Obj(fields.into_iter().map(|(k, v)| (k.to_string(), v)).collect())
}

fn s(text: &str) -> LogValue {
    LogValue::Str(text.to_string())
}

fn epoch(secs: i64) -> LogValue {
    if secs >= 0 {
        LogValue::Num(Dec { neg: false, mant: secs as u64, scale: 0 })
    } else {
        LogValue::Num(Dec { neg: true, mant: (-secs) as u64, scale: 0 })
    }
}

const NOW: Instant = Instant { secs: 1_700_000_000, nanos: 0 };

#[test]
fn absolute_time_parses_exactly() {
    let t = parse_time_string_at("2024-01-01T00:00:00Z", NOW).unwrap();
    assert_eq!(t.secs, 1_704_067_200);
    assert_eq!(t.nanos, 0);
    let u = parse_time_string_at("\"garbage\"", NOW);
    assert!(u.is_err());
}

#[test]
fn relative_time_subtracts_from_now() {
    let t = parse_time_string_at("5m", NOW).unwrap();
    assert_eq!(t.secs, NOW.secs - 300);
    let u = parse_time_string_at("2h ago", NOW).unwrap();
    assert_eq!(u.secs, NOW.secs - 7200);
    let n = parse_time_string_at("NOW", NOW).unwrap();
    assert_eq!(n, NOW);
}

#[test]
fn current_time_is_accepted() {
    assert!(parse_time_string("now").is_ok());
    assert!(parse_time_string("15m ago").is_ok());
    assert!(parse_time_string("2023-06-01T12:00:00+02:00").is_ok());
    assert!(parse_time_string("not a time").is_err());
}

#[test]
fn timestamp_extraction_probes_keys_in_order() {
    let v1 = obj(vec![("timestamp", s("2024-01-01T00:00:00Z"))]);
    assert_eq!(extract_and_parse_timestamp(&v1).unwrap().secs, 1_704_067_200);
    let v2 = obj(vec![("ts", epoch(1_700_000_000))]);
    assert_eq!(extract_and_parse_timestamp(&v2).unwrap().secs, 1_700_000_000);
    let v3 = obj(vec![("@timestamp", s("1970-01-01T00:00:10Z"))]);
    assert_eq!(extract_and_parse_timestamp(&v3).unwrap().secs, 10);
    // the first key present decides: a malformed value there does not fall
    // through to a later key
    let v4 = obj(vec![("timestamp", s("garbage")), ("ts", epoch(1_700_000_000))]);
    assert!(extract_and_parse_timestamp(&v4).is_none());
    let v5 = obj(vec![("other", epoch(5))]);
    assert!(extract_and_parse_timestamp(&v5).is_none());
}

#[test]
fn timestamp_between_with_swapped_bounds() {
    let v = obj(vec![("timestamp", s("2024-01-01T00:00:00Z"))]);
    let line = "x";
    let q1 = "timestamp between \"2023-12-31T00:00:00Z\"..\"2024-02-01T00:00:00Z\"";
    let q2 = "timestamp between \"2024-02-01T00:00:00Z\"..\"2023-12-31T00:00:00Z\"";
    assert_eq!(evaluate_at(&v, line, q1, NOW).unwrap(), true);
    assert_eq!(evaluate_at(&v, line, q2, NOW).unwrap(), true);
    let q3 = "timestamp !between \"2023-12-31T00:00:00Z\"..\"2024-02-01T00:00:00Z\"";
    assert_eq!(evaluate_at(&v, line, q3, NOW).unwrap(), false);
    let q4 = "timestamp between \"2024-02-01T00:00:00Z\"..\"2024-03-01T00:00:00Z\"";
    assert_eq!(evaluate_at(&v, line, q4, NOW).unwrap(), false);
}

#[test]
fn timestamp_ordering_operators() {
    let v = obj(vec![("timestamp", epoch(NOW.secs - 100))]);
    let line = "x";
    assert_eq!(evaluate_at(&v, line, "timestamp > \"5m ago\"", NOW).unwrap(), true);
    assert_eq!(evaluate_at(&v, line, "timestamp < \"5m ago\"", NOW).unwrap(), false);
    assert_eq!(evaluate_at(&v, line, "timestamp < now", NOW).unwrap(), true);
    assert_eq!(evaluate_at(&v, line, "timestamp >= now", NOW).unwrap(), false);
    // only ordering and range operators are legal on timestamp fields
    assert!(evaluate_at(&v, line, "timestamp contains 17", NOW).is_err());
    // a log without an extractable timestamp fails the condition quietly
    let w = obj(vec![("other", epoch(1))]);
    assert_eq!(evaluate_at(&w, line, "timestamp > \"5m ago\"", NOW).unwrap(), false);
    assert_eq!(evaluate_at(&w, line, "timestamp between now..now", NOW).unwrap(), false);
}

#[test]
fn oversized_durations_fail_cleanly() {
    // a duration text that would drive the parser's seconds counter to its
    // ceiling is rejected as unparseable rather than attempted
    let crafted = "18446744073709551615s 1000000000ns";
    assert!(parse_time_string_at(crafted, NOW).is_err());
    assert!(parse_time_string(crafted).is_err());
    let v = obj(vec![("timestamp", epoch(NOW.secs - 100))]);
    let q = format!("timestamp > \"{}\"", crafted);
    // an uninterpretable time operand fails the ordering condition quietly
    assert_eq!(evaluate_at(&v, "x", &q, NOW).unwrap(), false);
    let qb = format!("timestamp between \"{}\"..now", crafted);
    assert!(evaluate_at(&v, "x", &qb, NOW).is_err());
}

#[test]
fn split_once_char_splits_at_first() {
    assert_eq!(split_once_char("a b c", ' '), Some(("a", "b c")));
    assert_eq!(split_once_char("abc", ' '), None);
    assert_eq!(split_once_char(" x", ' '), Some(("", "x")));
}

#[test]
fn extract_quoted_takes_first_span() {
    assert_eq!(extract_quoted("\"GET /\" 200 \"-\""), Some(("GET /", "200 \"-\"")));
    assert_eq!(extract_quoted("no quotes"), None);
    assert_eq!(extract_quoted("\"unterminated"), None);
}
