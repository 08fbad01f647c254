use fuzzamoto::assertions::{
    collect_assertions, decode_assertion_payload, stdout_message_lines, AssertionFeedback,
    AssertionMap, AssertionScope, Condition,
};

fn sometimes(c: Condition, m: &str) -> AssertionScope {
    AssertionScope::Sometimes(c, m.to_string())
}

fn always(c: Condition, m: &str) -> AssertionScope {
    AssertionScope::Always(c, m.to_string())
}

#[test]
fn distances() {
    assert_eq!(Condition::Gt(150, 100).distance(), 0);
    assert_eq!(Condition::Gt(95, 100).distance(), 6);
    assert_eq!(Condition::Gte(100, 100).distance(), 0);
    assert_eq!(Condition::Gte(1, 4).distance(), 3);
    assert_eq!(Condition::Lt(5, 3).distance(), 3);
    assert_eq!(Condition::Lt(2, 3).distance(), 0);
    assert_eq!(Condition::Lte(5, 3).distance(), 2);
    assert_eq!(Condition::Lte(3, 3).distance(), 0);
    assert_eq!(Condition::Cond(true).distance(), 0);
    assert_eq!(Condition::Cond(false).distance(), 1);
    assert_eq!(Condition::Gte(i128::MIN, i128::MAX).distance(), u128::MAX);
    assert_eq!(Condition::Lt(i128::MAX, i128::MIN).distance(), u128::MAX);
    assert_eq!(Condition::Lte(0, -5).distance(), 5);
    assert!(sometimes(Condition::Gt(2, 1), "x").evaluate());
    assert!(!always(Condition::Lt(2, 1), "x").evaluate());
    assert_eq!(always(Condition::Lt(2, 1), "msg").message(), "msg");
}

#[test]
fn sometimes_assertions_guide_towards_satisfaction() {
    let mut f = AssertionFeedback::new(true);
    assert!(f.evaluate_assertion(sometimes(Condition::Gt(95, 100), "m")));
    assert!(f.evaluate_assertion(sometimes(Condition::Gt(97, 100), "m")));
    assert!(!f.evaluate_assertion(sometimes(Condition::Gt(90, 100), "m")));
    assert!(!f.evaluate_assertion(sometimes(Condition::Gt(97, 100), "m")));
    assert!(f.evaluate_assertion(sometimes(Condition::Gt(101, 100), "m")));
    // Once satisfied, nothing replaces it.
    assert!(!f.evaluate_assertion(sometimes(Condition::Gt(500, 100), "m")));
    assert_eq!(f.assertions().len(), 1);
    let meta = f.updated_assertions();
    assert_eq!(meta.assertions.len(), 1);
    assert!(meta.assertions.get(&"m".to_string()).unwrap().evaluate());
}

#[test]
fn always_only_feedback() {
    let mut f = AssertionFeedback::new_only_always(true);
    assert!(f.is_only_always());
    assert!(!f.evaluate_assertion(sometimes(Condition::Cond(true), "s")));
    assert!(!f.evaluate_assertion(always(Condition::Cond(false), "a")));
    assert!(f.evaluate_assertion(always(Condition::Cond(true), "a")));
    assert!(!f.evaluate_assertion(always(Condition::Cond(false), "a")));
    assert_eq!(f.assertions().len(), 1);
}

#[test]
fn evaluating_an_execution() {
    let mut f = AssertionFeedback::new(true);
    let first = vec![
        sometimes(Condition::Lt(10, 5), "a"),
        always(Condition::Cond(true), "b"),
    ];
    assert!(f.evaluate_all(first));
    assert_eq!(f.updated_assertions().assertions.len(), 2);
    let second = vec![sometimes(Condition::Lt(20, 5), "a"), always(Condition::Cond(true), "b")];
    assert!(!f.evaluate_all(second));
    assert_eq!(f.updated_assertions().assertions.len(), 0);
    let third = vec![sometimes(Condition::Lt(8, 5), "a")];
    assert!(f.evaluate_all(third));
    let meta = f.updated_assertions();
    assert_eq!(meta.assertions.len(), 1);
    assert_eq!(meta.assertions.get(&"a".to_string()).unwrap().distance(), 4);

    let mut off = AssertionFeedback::new(false);
    assert!(!off.is_enabled());
    assert!(!off.evaluate_all(vec![sometimes(Condition::Cond(true), "a")]));
    assert_eq!(off.assertions().len(), 0);
}

#[test]
fn later_reports_win() {
    let map = collect_assertions(vec![
        sometimes(Condition::Cond(false), "a"),
        always(Condition::Cond(true), "b"),
        sometimes(Condition::Cond(true), "a"),
    ]);
    assert_eq!(map.len(), 2);
    assert!(map.get(&"a".to_string()).unwrap().evaluate());
    let mut m = AssertionMap::new();
    assert!(m.get(&"z".to_string()).is_none());
    m.insert(always(Condition::Cond(false), "z"));
    m.insert(always(Condition::Cond(true), "z"));
    assert_eq!(m.len(), 1);
    assert_eq!(m.values().len(), 1);
    assert!(m.get(&"z".to_string()).unwrap().evaluate());
}

#[test]
fn stdout_lines_are_trimmed() {
    let lines = stdout_message_lines(b"  a \r\n\0\0b\0\n\n c");
    assert_eq!(lines, vec!["a", "b", "", "c"]);
    let lines = stdout_message_lines(b"x\n");
    assert_eq!(lines, vec!["x"]);
    assert!(stdout_message_lines(b"").is_empty());
    let lines = stdout_message_lines("\u{3000}{\"Assertion\":\"x\"}\u{a0}\r".as_bytes());
    assert_eq!(lines, vec!["{\"Assertion\":\"x\"}"]);
    // Invalid UTF-8 becomes the replacement character.
    let lines = stdout_message_lines(b"a\xffb");
    assert_eq!(lines, vec!["a\u{fffd}b"]);
}

#[test]
fn assertion_payloads() {
    assert_eq!(decode_assertion_payload("aGVsbG8="), Some("hello".to_string()));
    assert_eq!(decode_assertion_payload(""), Some(String::new()));
    assert_eq!(decode_assertion_payload("!!"), None);
    assert_eq!(decode_assertion_payload("/w=="), None);
}

#[test]
fn payload_needs_canonical_base64() {
    // Padding is required, trailing bits must be zero, whitespace is refused.
    assert_eq!(decode_assertion_payload("aGVsbG8"), None);
    assert_eq!(decode_assertion_payload("aGVsbG9="), None);
    assert_eq!(decode_assertion_payload("aGVs bG8="), None);
    assert_eq!(decode_assertion_payload("aGk="), Some("hi".to_string()));
    assert_eq!(decode_assertion_payload("aGV5"), Some("hey".to_string()));
}
