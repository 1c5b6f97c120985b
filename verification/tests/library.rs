use policyai::number;
use policyai::{Field, JsonNumber, OnConflict, PolicyType};

fn number(s: &str) -> JsonNumber {
    JsonNumber::from_literal(s.to_string())
}

#[test]
fn readme() {
    let policy = PolicyType {
        name: "policyai::EmailPolicy".to_string(),
        fields: vec![
            Field::Bool {
                name: "unread".to_string(),
                default: true,
                on_conflict: OnConflict::Default,
            },
            Field::StringEnum {
                name: "priority".to_string(),
                values: vec!["low".to_string(), "medium".to_string(), "high".to_string()],
                default: None,
                on_conflict: OnConflict::LargestValue,
            },
            Field::StringEnum {
                name: "category".to_string(),
                values: vec!["ai".to_string(), "distributed systems".to_string(), "other".to_string()],
                default: Some("other".to_string()),
                on_conflict: OnConflict::Agreement,
            },
            Field::String {
                name: "template".to_string(),
                default: None,
                on_conflict: OnConflict::Agreement,
            },
            Field::StringArray {
                name: "labels".to_string(),
            },
        ],
    };
    assert_eq!(
        r#"type policyai::EmailPolicy {
    unread: bool = true,
    priority: ["low", "medium", "high"] @ highest wins,
    category: ["ai", "distributed systems", "other"] @ agreement = "other",
    template: string @ agreement,
    labels: [string],
}"#,
        policy.to_text()
    );
}

#[test]
fn number_is_equal() {
    assert!(number::number_is_equal(&number("42"), &number("42")));
    assert!(number::number_is_equal(&number("3.25"), &number("3.25")));
    assert!(!number::number_is_equal(&number("42"), &number("43")));
    assert!(number::number_is_equal(&number("42"), &number("42.0")));
    assert!(number::number_is_equal(&number("-0"), &number("0")));
}

#[test]
fn number_less_than() {
    assert!(number::number_less_than(&number("41"), &number("42")));
    assert!(!number::number_less_than(&number("42"), &number("41")));
    assert!(number::number_less_than(&number("-5"), &number("3")));
    assert!(!number::number_less_than(&number("3"), &number("-5")));
    assert!(number::number_less_than(&number("3.24"), &number("3.25")));
    assert!(!number::number_less_than(&number("3.25"), &number("3.24")));
    assert!(!number::number_less_than(&number("7"), &number("7.0")));
}

#[test]
fn malformed_numbers_are_neither_equal_nor_less() {
    assert!(!number::number_is_equal(&number("abc"), &number("abd")));
    assert!(number::number_is_equal(&number("abc"), &number("abc")));
    assert!(!number::number_less_than(&number("1"), &number("x")));
}

#[test]
fn exponent_numbers_compare_by_value() {
    assert!(number::number_is_equal(&number("1e20"), &number("1e20")));
    assert!(!number::number_less_than(&number("1e20"), &number("1e20")));
    assert!(number::number_is_equal(&number("1e2"), &number("100")));
    assert!(number::number_is_equal(&number("-2.5E1"), &number("-25")));
    assert!(number::number_less_than(&number("1.5e-2"), &number("0.02")));
    assert!(number::number_less_than(&number("99999999999999999999"), &number("1e20")));
    assert!(number::number_less_than(&number("-1e+3"), &number("-999")));
}

#[test]
fn decimal_form_writes_out_exponents() {
    assert_eq!(number::decimal_form_of("1.5e3"), "1500");
    assert_eq!(number::decimal_form_of("1.5e-2"), "0.015");
    assert_eq!(number::decimal_form_of("-12.5E1"), "-125");
    assert_eq!(number::decimal_form_of("42"), "42");
    assert_eq!(number::decimal_form_of("1e12345"), "1e12345");
}
