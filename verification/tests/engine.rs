use loglens_core::evaluate;
use loglens_core::Dec;
use loglens_core::LogValue;
use loglens_core::QueryError;

fn num(n: u64) -> LogValue {
    LogValue::Num(Dec { neg: false, mant: n, scale: 0 })
}

fn s(text: &str) -> LogValue {
    LogValue::Str(text.to_string())
}

fn obj(fields: Vec<(&str, LogValue)>) -> LogValue {
    LogValue::Obj(fields.into_iter().map(|(k, v)| (k.to_string(), v)).collect())
}

fn status_msg() -> LogValue {
    obj(vec![("status", num(200)), ("msg", s("ok"))])
}

#[test]
fn empty_query_matches() {
    let v = status_msg();
    assert_eq!(evaluate(&v, "status=200 msg=ok", "").unwrap(), true);
    assert_eq!(evaluate(&v, "status=200 msg=ok", "   ").unwrap(), true);
}

#[test]
fn plain_query_is_substring_search() {
    let v = status_msg();
    assert_eq!(evaluate(&v, "Hello World", "world").unwrap(), true);
    assert_eq!(evaluate(&v, "Hello World", "WORLD").unwrap(), true);
    assert_eq!(evaluate(&v, "Hello World", "mars").unwrap(), false);
    assert_eq!(evaluate(&v, "Hello World", "!world").unwrap(), false);
    assert_eq!(evaluate(&v, "Hello World", "!mars").unwrap(), true);
}

#[test]
fn scenario_status_and_text() {
    let v = status_msg();
    let line = "status=200 msg=ok";
    assert_eq!(evaluate(&v, line, "status==200").unwrap(), true);
    assert_eq!(evaluate(&v, line, "status>=300").unwrap(), false);
    assert_eq!(evaluate(&v, line, "text contains \"ok,status\"").unwrap(), true);
    assert_eq!(evaluate(&v, line, "missing exists").unwrap(), false);
    assert_eq!(evaluate(&v, line, "missing !exists").unwrap(), true);
}

#[test]
fn exists_complements() {
    let v = obj(vec![("present", LogValue::Null), ("status", num(200))]);
    let line = "x";
    // a Null value still counts as present
    assert_eq!(evaluate(&v, line, "present exists").unwrap(), true);
    assert_eq!(evaluate(&v, line, "present !exists").unwrap(), false);
    assert_eq!(evaluate(&v, line, "status exists").unwrap(), true);
    assert_eq!(evaluate(&v, line, "status !exists").unwrap(), false);
    assert_eq!(evaluate(&v, line, "absent exists").unwrap(), false);
    assert_eq!(evaluate(&v, line, "absent !exists").unwrap(), true);
    // num(...) wrapping has no effect on existence checks
    assert_eq!(evaluate(&v, line, "num(status) exists").unwrap(), true);
    assert_eq!(evaluate(&v, line, "num(absent) !exists").unwrap(), true);
}

#[test]
fn absent_field_semantics() {
    let v = status_msg();
    let line = "status=200 msg=ok";
    assert_eq!(evaluate(&v, line, "missing != \"x\"").unwrap(), true);
    assert_eq!(evaluate(&v, line, "missing isnot \"x\"").unwrap(), true);
    assert_eq!(evaluate(&v, line, "missing == \"x\"").unwrap(), false);
    assert_eq!(evaluate(&v, line, "missing > 1").unwrap(), false);
    assert_eq!(evaluate(&v, line, "missing < 1").unwrap(), false);
    assert_eq!(evaluate(&v, line, "missing >= 1").unwrap(), false);
    assert_eq!(evaluate(&v, line, "missing <= 1").unwrap(), false);
    assert_eq!(evaluate(&v, line, "missing ~= x").unwrap(), false);
    assert_eq!(evaluate(&v, line, "missing !~= x").unwrap(), false);
    assert_eq!(evaluate(&v, line, "missing contains x").unwrap(), false);
    assert_eq!(evaluate(&v, line, "missing !contains x").unwrap(), false);
    assert_eq!(evaluate(&v, line, "missing between 1..2").unwrap(), false);
    assert_eq!(evaluate(&v, line, "missing !between 1..2").unwrap(), false);
}

#[test]
fn forced_numeric_comparisons() {
    let v = obj(vec![("port", s("5")), ("name", s("bob")), ("status", num(200))]);
    let line = "port=5 name=bob";
    assert_eq!(evaluate(&v, line, "num(port) == 5").unwrap(), true);
    // forcing a non-numeric string fails the condition, it is not an error
    assert_eq!(evaluate(&v, line, "num(name) == 1").unwrap(), false);
    assert_eq!(evaluate(&v, line, "num(status) >= 200").unwrap(), true);
    // without forcing, "5" and 5 compare as text against the operand
    assert_eq!(evaluate(&v, line, "port == 5").unwrap(), true);
}

#[test]
fn forced_numeric_rejects_other_kinds() {
    let v = obj(vec![
        ("arr", LogValue::Arr(vec![num(1)])),
        ("flag", LogValue::Bool(true)),
    ]);
    assert_eq!(evaluate(&v, "x", "num(arr) == 1").unwrap(), false);
    assert_eq!(evaluate(&v, "x", "num(flag) == 1").unwrap(), false);
}

#[test]
fn operator_priority_not_contains_plus() {
    // "text!contains+200" must resolve to `!contains+`, never `contains+`:
    // every number of the line is below 200, so the negated form holds; a
    // misidentified `contains+` would make the field "text!", which is
    // absent, and the condition false.
    let v = status_msg();
    assert_eq!(evaluate(&v, "latency=45ms", "text!contains+200").unwrap(), true);
}

#[test]
fn text_threshold_operators() {
    let v = status_msg();
    let line = "latency=45ms took 120ms total";
    assert_eq!(evaluate(&v, line, "text contains+50").unwrap(), true);
    assert_eq!(evaluate(&v, line, "text !contains+200").unwrap(), true);
    assert_eq!(evaluate(&v, line, "text contains+200").unwrap(), false);
    assert_eq!(evaluate(&v, line, "text contains-50").unwrap(), true);
    assert_eq!(evaluate(&v, line, "text !contains-40").unwrap(), true);
    assert_eq!(evaluate(&v, line, "text contains-40").unwrap(), false);
}

#[test]
fn text_between_over_embedded_numbers() {
    let v = status_msg();
    let line = "latency=45ms took 120ms total";
    assert_eq!(evaluate(&v, line, "text between 100..200").unwrap(), true);
    assert_eq!(evaluate(&v, line, "text between 200..100").unwrap(), true);
    assert_eq!(evaluate(&v, line, "text !between 100..200").unwrap(), false);
    assert_eq!(evaluate(&v, line, "text between 46..100").unwrap(), false);
    assert_eq!(evaluate(&v, line, "text !between 46..100").unwrap(), true);
}

#[test]
fn text_contains_terms() {
    let v = status_msg();
    let line = "Connection Refused by Host";
    assert_eq!(evaluate(&v, line, "text contains refused,host").unwrap(), true);
    assert_eq!(evaluate(&v, line, "text contains refused,mars").unwrap(), false);
    assert_eq!(evaluate(&v, line, "text !contains mars,venus").unwrap(), true);
    assert_eq!(evaluate(&v, line, "text !contains refused,mars").unwrap(), false);
    // an empty term list matches vacuously
    assert_eq!(evaluate(&v, line, "text contains \"\"").unwrap(), true);
    assert_eq!(evaluate(&v, line, "text !contains \"\"").unwrap(), true);
}

#[test]
fn field_between_numeric_and_string() {
    let v = obj(vec![("status", num(200)), ("level", s("b"))]);
    let line = "x";
    assert_eq!(evaluate(&v, line, "status between 100..300").unwrap(), true);
    assert_eq!(evaluate(&v, line, "status between 300..100").unwrap(), true);
    assert_eq!(evaluate(&v, line, "status !between 100..300").unwrap(), false);
    assert_eq!(evaluate(&v, line, "status !between 300..100").unwrap(), false);
    assert_eq!(evaluate(&v, line, "status between 201..300").unwrap(), false);
    // lexicographic fallback for a string value, bounds in either order
    assert_eq!(evaluate(&v, line, "level between a..c").unwrap(), true);
    assert_eq!(evaluate(&v, line, "level between c..a").unwrap(), true);
    assert_eq!(evaluate(&v, line, "level !between c..a").unwrap(), false);
    assert_eq!(evaluate(&v, line, "level between c..d").unwrap(), false);
    assert_eq!(evaluate(&v, line, "level between d..c").unwrap(), false);
}

#[test]
fn comparison_operators_on_fields() {
    let v = obj(vec![("status", num(200)), ("msg", s("OK")), ("flag", LogValue::Bool(true))]);
    let line = "x";
    assert_eq!(evaluate(&v, line, "status > 199").unwrap(), true);
    assert_eq!(evaluate(&v, line, "status < 201").unwrap(), true);
    assert_eq!(evaluate(&v, line, "status >= 200").unwrap(), true);
    assert_eq!(evaluate(&v, line, "status <= 200").unwrap(), true);
    assert_eq!(evaluate(&v, line, "status != 200").unwrap(), false);
    assert_eq!(evaluate(&v, line, "status is 200").unwrap(), true);
    assert_eq!(evaluate(&v, line, "status isnot 201").unwrap(), true);
    // case-insensitive equality, against a case-sensitive one
    assert_eq!(evaluate(&v, line, "msg ~= ok").unwrap(), true);
    assert_eq!(evaluate(&v, line, "msg == ok").unwrap(), false);
    assert_eq!(evaluate(&v, line, "msg !~= ok").unwrap(), false);
    // booleans coerce to their text for comparison
    assert_eq!(evaluate(&v, line, "flag == true").unwrap(), true);
    assert_eq!(evaluate(&v, line, "flag != false").unwrap(), true);
}

#[test]
fn field_contains_is_case_sensitive() {
    let v = obj(vec![("msg", s("hello world")), ("status", num(200))]);
    let line = "x";
    assert_eq!(evaluate(&v, line, "msg contains world").unwrap(), true);
    assert_eq!(evaluate(&v, line, "msg contains World").unwrap(), false);
    assert_eq!(evaluate(&v, line, "msg !contains xyz").unwrap(), true);
    // a non-string value never contains anything
    assert_eq!(evaluate(&v, line, "status contains 2").unwrap(), false);
    assert_eq!(evaluate(&v, line, "status !contains 2").unwrap(), true);
}

#[test]
fn boolean_clauses() {
    let v = status_msg();
    let line = "status=200 msg=ok";
    assert_eq!(evaluate(&v, line, "status==200 && msg==ok").unwrap(), true);
    assert_eq!(evaluate(&v, line, "status==200 && msg==bad").unwrap(), false);
    assert_eq!(evaluate(&v, line, "status==500 || msg==ok").unwrap(), true);
    assert_eq!(evaluate(&v, line, "status==500 || msg==bad").unwrap(), false);
    assert_eq!(evaluate(&v, line, "status==200 AND msg==ok").unwrap(), true);
    assert_eq!(evaluate(&v, line, "status==500 or msg==ok").unwrap(), true);
    assert_eq!(evaluate(&v, line, "status==500 OR status==200").unwrap(), true);
    assert_eq!(evaluate(&v, line, "status==200 and msg==ok").unwrap(), true);
    // blank segments from repeated separators are skipped
    assert_eq!(evaluate(&v, line, "status==200 && && msg==ok").unwrap(), true);
    assert_eq!(evaluate(&v, line, "|| status==200").unwrap(), true);
}

#[test]
fn malformed_query_errors() {
    let v = status_msg();
    let line = "status=200 msg=ok";
    assert!(matches!(evaluate(&v, line, "status>>5"), Err(QueryError::InvalidFormat(_))));
    assert!(matches!(evaluate(&v, line, "status between 5"), Err(QueryError::InvalidFormat(_))));
    assert!(matches!(
        evaluate(&v, line, "status between 1..2..3"),
        Err(QueryError::InvalidFormat(_))
    ));
    assert!(matches!(evaluate(&v, line, "text between a..b"), Err(QueryError::InvalidFormat(_))));
    assert!(matches!(evaluate(&v, line, "text contains+abc"), Err(QueryError::InvalidFormat(_))));
    assert!(matches!(evaluate(&v, line, "text == ok"), Err(QueryError::InvalidFormat(_))));
    // a malformed condition aborts the evaluation when it is reached,
    // even though an AND short-circuit or a true OR clause can stop first
    assert!(matches!(evaluate(&v, line, "status>>5 || status==200"), Err(_)));
    assert_eq!(evaluate(&v, line, "status==200 || status>>5").unwrap(), true);
    assert_eq!(evaluate(&v, line, "status==500 && status>>5").unwrap(), false);
}

#[test]
fn error_carries_offending_text() {
    let v = status_msg();
    match evaluate(&v, "x", "status>>5") {
        Err(e) => assert_eq!(e.message(), "status>>5"),
        Ok(_) => panic!("expected an error"),
    }
}

#[test]
fn pointer_paths() {
    let inner = obj(vec![("b", num(5))]);
    let v = obj(vec![
        ("a", inner),
        ("arr", LogValue::Arr(vec![num(1), num(2), num(3)])),
        ("x/y", num(7)),
    ]);
    let line = "x";
    assert_eq!(evaluate(&v, line, "/a/b == 5").unwrap(), true);
    assert_eq!(evaluate(&v, line, "/arr/1 == 2").unwrap(), true);
    assert_eq!(evaluate(&v, line, "/arr/3 exists").unwrap(), false);
    // ~1 stands for a slash inside a key
    assert_eq!(evaluate(&v, line, "/x~1y == 7").unwrap(), true);
    // array indices reject leading zeros
    assert_eq!(evaluate(&v, line, "/arr/01 exists").unwrap(), false);
}

#[test]
fn decimal_literals() {
    let v = obj(vec![
        ("half", LogValue::Num(Dec { neg: false, mant: 5, scale: 1 })),
        ("neg", LogValue::Num(Dec { neg: true, mant: 5, scale: 0 })),
        ("kilo", s("1e3")),
    ]);
    let line = "x";
    assert_eq!(evaluate(&v, line, "half > 0.4").unwrap(), true);
    assert_eq!(evaluate(&v, line, "half == 0.50").unwrap(), true);
    assert_eq!(evaluate(&v, line, "neg < 0").unwrap(), true);
    assert_eq!(evaluate(&v, line, "neg == -5").unwrap(), true);
    assert_eq!(evaluate(&v, line, "num(kilo) == 1000").unwrap(), true);
}

#[test]
fn negative_numbers_in_text() {
    let v = status_msg();
    let line = "delta=-12.5 other 3";
    assert_eq!(evaluate(&v, line, "text between -13..-12").unwrap(), true);
    assert_eq!(evaluate(&v, line, "text between -12..-13").unwrap(), true);
    assert_eq!(evaluate(&v, line, "text !between -12..-11").unwrap(), true);
}

#[test]
fn forced_numeric_range() {
    let v = obj(vec![("port", s("8080"))]);
    assert_eq!(evaluate(&v, "x", "num(port) between 8000..9000").unwrap(), true);
    assert_eq!(evaluate(&v, "x", "num(port) !between 8000..9000").unwrap(), false);
    // without forcing, the string value falls back to lexicographic bounds
    assert_eq!(evaluate(&v, "x", "port between 8000..9000").unwrap(), true);
}

#[test]
fn num_wrapper_on_text_is_cosmetic() {
    let v = status_msg();
    assert_eq!(evaluate(&v, "took 120ms", "num(text) contains+50").unwrap(), true);
}

#[test]
fn quoted_operands_are_cleaned() {
    let v = obj(vec![("msg", s("hello"))]);
    assert_eq!(evaluate(&v, "x", "msg == 'hello'").unwrap(), true);
    assert_eq!(evaluate(&v, "x", "msg ==  \"hello\"  ").unwrap(), true);
    assert_eq!(evaluate(&v, "x", " msg == hello").unwrap(), true);
}
