use ragger_api::explanations::{encode_explanations, explanation_listed};
use ragger_api::text::decimal_string;

#[test]
fn decimal_string_of_zero_and_small_numbers() {
    assert_eq!(decimal_string(0), "0");
    assert_eq!(decimal_string(7), "7");
    assert_eq!(decimal_string(10), "10");
    assert_eq!(decimal_string(1700000000), "1700000000");
}

#[test]
fn decimal_string_of_negative_numbers() {
    assert_eq!(decimal_string(-1), "-1");
    assert_eq!(decimal_string(-120), "-120");
}

#[test]
fn decimal_string_matches_to_string_at_the_limits() {
    assert_eq!(decimal_string(i64::MIN), i64::MIN.to_string());
    assert_eq!(decimal_string(i64::MAX), i64::MAX.to_string());
    for n in [-1000i64, -999, -10, -9, 9, 99, 100, 123456789] {
        assert_eq!(decimal_string(n), n.to_string());
    }
}

#[test]
fn encode_explanations_writes_a_json_list() {
    let values = vec!["hello".to_string(), "你好".to_string(), "a\"b".to_string()];
    assert_eq!(encode_explanations(&values), "[\"hello\",\"你好\",\"a\\\"b\"]");
    assert_eq!(encode_explanations(&Vec::new()), "[]");
}

#[test]
fn encoded_explanations_read_back() {
    let values = vec!["问候".to_string(), "你好".to_string()];
    let text = encode_explanations(&values);
    let back: Vec<String> = serde_json::from_str(&text).unwrap();
    assert_eq!(back, values);
}

#[test]
fn explanation_listed_finds_exact_members_only() {
    let values = vec!["问候".to_string(), "你好".to_string()];
    assert!(explanation_listed(&values, "你好"));
    assert!(explanation_listed(&values, "问候"));
    assert!(!explanation_listed(&values, "你"));
    assert!(!explanation_listed(&values, " 你好"));
    assert!(!explanation_listed(&Vec::new(), ""));
}
