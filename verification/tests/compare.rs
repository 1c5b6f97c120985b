use policyai::compare::{calculate_field_metrics, is_regression, values_match, values_match_with, MatchOptions};
use policyai::{Json, JsonNumber};

/// Evaluation's comparison: at most 0.001% apart, relative to the expected number.
fn close(expected: &JsonNumber, actual: &JsonNumber) -> bool {
    let v1: f64 = expected.as_str().parse().unwrap();
    let v2: f64 = actual.as_str().parse().unwrap();
    if v1 == 0.0 && v2 == 0.0 {
        true
    } else if v1 == 0.0 || v2 == 0.0 {
        false
    } else {
        ((v1 - v2) / v1).abs() <= 0.00001
    }
}

/// Regressions' comparison: the actual number within 0.1% of the expected one.
fn tenth(actual: &JsonNumber, expected: &JsonNumber) -> bool {
    let a: f64 = actual.as_str().parse().unwrap();
    let b: f64 = expected.as_str().parse().unwrap();
    (a - b).abs() <= b.abs() * 0.001
}

fn num(s: &str) -> Json {
    Json::Number(JsonNumber::from_literal(s.to_string()))
}

fn text(s: &str) -> Json {
    Json::String(s.to_string())
}

fn object(members: Vec<(&str, Json)>) -> Json {
    Json::Object(members.into_iter().map(|(k, v)| (k.to_string(), v)).collect())
}

fn members(members: Vec<(&str, Json)>) -> Vec<(String, Json)> {
    members.into_iter().map(|(k, v)| (k.to_string(), v)).collect()
}

fn opts(include_baseline_failures: bool, ignore_whitespace: bool, ignore_array_order: bool) -> MatchOptions {
    MatchOptions { include_baseline_failures, ignore_whitespace, ignore_array_order }
}

fn regression(expected: Option<Json>, policyai_output: Json, baseline_output: Option<Json>, o: MatchOptions) -> bool {
    is_regression(&policyai_output, expected.as_ref(), baseline_output.as_ref(), o, &tenth)
}

fn field1(v: &str) -> Json {
    object(vec![("field1", text(v))])
}

#[test]
fn calculate_field_metrics_ignores_rule_numbers() {
    let expected = members(vec![("field1", text("value1")), ("field2", num("42"))]);
    let actual = object(vec![
        ("field1", text("value1")),
        ("field2", num("42")),
        ("__rule_numbers__", Json::Array(vec![num("1"), num("2")])),
    ]);
    assert_eq!(calculate_field_metrics(&expected, &actual, &close), (2, 0, 0, 0));
}

#[test]
fn values_match_identical_numbers() {
    assert!(values_match(&num("42"), &num("42"), &close));
    assert!(values_match(&num("2.71"), &num("2.71"), &close));
    assert!(values_match(&num("0"), &num("0"), &close));
    assert!(values_match(&num("0.0"), &num("0.0"), &close));
}

#[test]
fn values_match_zero_equivalence() {
    assert!(values_match(&num("0.0"), &num("0"), &close));
    assert!(values_match(&num("0"), &num("0.0"), &close));
    assert!(values_match(&num("0.0"), &num("0"), &close));
}

#[test]
fn values_match_with_tolerance() {
    assert!(values_match(&num("1000.0"), &num("1000.009"), &close));
    assert!(values_match(&num("1000.0"), &num("999.991"), &close));
    assert!(!values_match(&num("1000.0"), &num("1000.011"), &close));
    assert!(!values_match(&num("1000.0"), &num("999.989"), &close));
}

#[test]
fn values_match_different_types() {
    assert!(!values_match(&text("42"), &num("42"), &close));
    assert!(!values_match(&Json::Bool(true), &num("1"), &close));
    assert!(!values_match(&Json::Null, &num("0"), &close));
}

#[test]
fn calculate_field_metrics_all_match() {
    let expected = members(vec![("field1", text("value1")), ("field2", num("42")), ("field3", Json::Bool(true))]);
    let actual = object(vec![("field1", text("value1")), ("field2", num("42")), ("field3", Json::Bool(true))]);
    assert_eq!(calculate_field_metrics(&expected, &actual, &close), (3, 0, 0, 0));
}

#[test]
fn calculate_field_metrics_numeric_tolerance() {
    let expected = members(vec![("count", num("1000.0")), ("zero_float", num("0.0")), ("value", num("42"))]);
    let actual = object(vec![("count", num("1000.009")), ("zero_float", num("0")), ("value", num("42.0"))]);
    assert_eq!(calculate_field_metrics(&expected, &actual, &close), (3, 0, 0, 0));
}

#[test]
fn calculate_field_metrics_with_wrong_values() {
    let expected = members(vec![("field1", text("value1")), ("field2", num("42")), ("field3", Json::Bool(true))]);
    let actual = object(vec![("field1", text("different")), ("field2", num("99")), ("field3", Json::Bool(true))]);
    assert_eq!(calculate_field_metrics(&expected, &actual, &close), (1, 2, 0, 0));
}

#[test]
fn calculate_field_metrics_with_missing_fields() {
    let expected = members(vec![("field1", text("value1")), ("field2", num("42")), ("field3", Json::Bool(true))]);
    let actual = object(vec![("field1", text("value1"))]);
    assert_eq!(calculate_field_metrics(&expected, &actual, &close), (1, 0, 2, 0));
}

#[test]
fn calculate_field_metrics_with_extra_fields() {
    let expected = members(vec![("field1", text("value1"))]);
    let actual = object(vec![("field1", text("value1")), ("field2", num("42")), ("field3", Json::Bool(true))]);
    assert_eq!(calculate_field_metrics(&expected, &actual, &close), (1, 0, 0, 2));
}

#[test]
fn calculate_field_metrics_empty_expected() {
    let expected = members(vec![]);
    let actual = object(vec![("field1", text("value1"))]);
    assert_eq!(calculate_field_metrics(&expected, &actual, &close), (0, 0, 0, 1));
}

#[test]
fn calculate_field_metrics_empty_actual() {
    let expected = members(vec![("field1", text("value1"))]);
    assert_eq!(calculate_field_metrics(&expected, &object(vec![]), &close), (0, 0, 1, 0));
}

#[test]
fn calculate_field_metrics_both_empty() {
    assert_eq!(calculate_field_metrics(&members(vec![]), &object(vec![]), &close), (0, 0, 0, 0));
}

#[test]
fn calculate_field_metrics_actual_not_object() {
    let expected = members(vec![("field1", text("value1"))]);
    assert_eq!(calculate_field_metrics(&expected, &text("not an object"), &close), (0, 0, 1, 0));
}

#[test]
fn baseline_pass_policyai_fail_is_regression() {
    assert!(regression(Some(field1("value1")), field1("wrong_value"), Some(field1("value1")), opts(false, false, false)));
}

#[test]
fn baseline_fail_policyai_pass_not_regression() {
    assert!(!regression(Some(field1("value1")), field1("value1"), Some(field1("wrong_value")), opts(false, false, false)));
}

#[test]
fn both_pass_not_regression() {
    assert!(!regression(Some(field1("value1")), field1("value1"), Some(field1("value1")), opts(false, false, false)));
}

#[test]
fn both_fail_not_regression_by_default() {
    assert!(!regression(Some(field1("value1")), field1("wrong1"), Some(field1("wrong2")), opts(false, false, false)));
}

#[test]
fn both_fail_is_regression_with_flag() {
    assert!(regression(Some(field1("value1")), field1("wrong1"), Some(field1("wrong2")), opts(true, false, false)));
}

#[test]
fn no_expected_not_regression() {
    assert!(!regression(None, field1("value1"), Some(field1("value1")), opts(false, false, false)));
}

#[test]
fn no_baseline_not_regression() {
    assert!(!regression(Some(field1("value1")), field1("wrong_value"), None, opts(false, false, false)));
}

fn user(name: &str, age: &str) -> Json {
    object(vec![(
        "user",
        object(vec![
            ("name", text(name)),
            ("age", num(age)),
            ("tags", Json::Array(vec![text("important"), text("urgent")])),
        ]),
    )])
}

#[test]
fn complex_json_exact_match() {
    assert!(regression(Some(user("John", "30")), user("John", "25"), Some(user("John", "30")), opts(false, false, false)));
}

#[test]
fn empty_objects_match() {
    assert!(!regression(Some(object(vec![])), object(vec![]), Some(object(vec![])), opts(false, false, false)));
}

fn score(s: &str) -> Json {
    object(vec![("score", num(s))])
}

#[test]
fn floating_point_exact_match() {
    assert!(!regression(Some(score("0.123456")), score("0.123456"), Some(score("0.123456")), opts(false, false, false)));
}

#[test]
fn floating_point_slight_difference_is_regression() {
    assert!(regression(Some(score("100.0")), score("100.2"), Some(score("100.0")), opts(false, false, false)));
}

#[test]
fn floating_point_tolerance_prevents_regression() {
    assert!(!regression(Some(score("100.0")), score("100.05"), Some(score("100.0")), opts(false, false, false)));
}

#[test]
fn floating_point_tolerance_still_catches_large_differences() {
    assert!(regression(Some(score("100.0")), score("102.0"), Some(score("100.0")), opts(false, false, false)));
}

fn message(s: &str) -> Json {
    object(vec![("message", text(s))])
}

#[test]
fn whitespace_differences_ignored_when_flag_set() {
    assert!(!regression(Some(message("Hello World")), message("Hello  World"), Some(message("Hello World")), opts(false, true, false)));
}

#[test]
fn whitespace_differences_matter_by_default() {
    assert!(regression(Some(message("Hello World")), message("Hello  World"), Some(message("Hello World")), opts(false, false, false)));
}

fn tags(a: &str, b: &str) -> Json {
    object(vec![("tags", Json::Array(vec![text(a), text(b)]))])
}

#[test]
fn array_order_ignored_when_flag_set() {
    assert!(!regression(
        Some(tags("urgent", "important")),
        tags("important", "urgent"),
        Some(tags("urgent", "important")),
        opts(false, false, true)
    ));
}

#[test]
fn array_order_matters_by_default() {
    assert!(regression(
        Some(tags("urgent", "important")),
        tags("important", "urgent"),
        Some(tags("urgent", "important")),
        opts(false, false, false)
    ));
}

#[test]
fn complex_nested_matching_with_all_options() {
    let person = |name: &str, s: &str, a: &str, b: &str| {
        object(vec![(
            "user",
            object(vec![("name", text(name)), ("score", num(s)), ("tags", Json::Array(vec![text(a), text(b)]))]),
        )])
    };
    let expected = person("John Doe", "95.0", "premium", "verified");
    let policyai_output = person("John  Doe", "95.05", "verified", "premium");
    let baseline_output = person("John Doe", "95.0", "premium", "verified");
    assert!(!regression(Some(expected), policyai_output, Some(baseline_output), opts(false, true, true)));
}

#[test]
fn array_with_different_elements_still_fails() {
    assert!(regression(
        Some(tags("urgent", "important")),
        tags("urgent", "spam"),
        Some(tags("urgent", "important")),
        opts(false, false, true)
    ));
}

#[test]
fn mixed_type_comparison_fails() {
    let value = |v: Json| object(vec![("value", v)]);
    assert!(regression(Some(value(num("42"))), value(text("42")), Some(value(num("42"))), opts(false, false, false)));
}

#[test]
fn unordered_arrays_match_by_some_reordering() {
    // The first element alone matches both expected numbers; only pairing it
    // with the second makes the whole array match.
    let actual = Json::Array(vec![num("100.05"), num("99.95")]);
    let expected = Json::Array(vec![num("100.0"), num("100.1")]);
    assert!(values_match_with(&actual, &expected, opts(false, false, true), &tenth));
    assert!(!values_match_with(&actual, &expected, opts(false, false, false), &tenth));
}

#[test]
fn unordered_arrays_use_each_element_once() {
    let actual = Json::Array(vec![text("a"), text("a")]);
    let expected = Json::Array(vec![text("a"), text("b")]);
    assert!(!values_match_with(&actual, &expected, opts(false, false, true), &tenth));
}
