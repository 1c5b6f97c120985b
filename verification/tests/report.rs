use policyai::json::json_eq;
use policyai::report::{FieldStats, Report};
use policyai::{Conflict, Json, JsonNumber, OnConflict, PolicyError};

fn empty_report() -> Report {
    Report::new(vec![], vec![], vec![], vec![], vec![], vec![], vec![])
}

fn number(s: &str) -> JsonNumber {
    JsonNumber::from_literal(s.to_string())
}

fn object(members: Vec<(&str, Json)>) -> Json {
    Json::Object(members.into_iter().map(|(k, v)| (k.to_string(), v)).collect())
}

fn levels() -> Vec<String> {
    vec!["low".to_string(), "medium".to_string(), "high".to_string()]
}

#[test]
fn field_stats_record_bool() {
    let mut stats = FieldStats::default();
    stats.record(&Json::Bool(true));
    stats.record(&Json::Bool(true));
    stats.record(&Json::Bool(false));

    assert_eq!(stats.count, 3);
    assert_eq!(stats.count_of("true"), 2);
    assert_eq!(stats.count_of("false"), 1);
}

#[test]
fn field_stats_record_number() {
    let mut stats = FieldStats::default();
    stats.record(&Json::Number(number("42")));
    stats.record(&Json::Number(number("42")));
    stats.record(&Json::Number(number("100")));

    assert_eq!(stats.count, 3);
    assert_eq!(stats.count_of("42"), 2);
    assert_eq!(stats.count_of("100"), 1);
}

#[test]
fn field_stats_record_string() {
    let mut stats = FieldStats::default();
    stats.record(&Json::String("high".to_string()));
    stats.record(&Json::String("low".to_string()));
    stats.record(&Json::String("high".to_string()));

    assert_eq!(stats.count, 3);
    assert_eq!(stats.count_of("high"), 2);
    assert_eq!(stats.count_of("low"), 1);
}

#[test]
fn field_stats_record_array_element() {
    let mut stats = FieldStats::default();
    stats.record_array_element("tag1");
    stats.record_array_element("tag2");
    stats.record_array_element("tag1");

    assert_eq!(stats.count, 3);
    assert_eq!(stats.count_of("tag1"), 2);
    assert_eq!(stats.count_of("tag2"), 1);
}

#[test]
fn field_stats_keep_first_seen_order() {
    let mut stats = FieldStats::default();
    stats.record_array_element("b");
    stats.record_array_element("a");
    stats.record_array_element("b");
    let keys: Vec<&str> = stats.distribution.iter().map(|(k, _)| k.as_str()).collect();
    assert_eq!(keys, vec!["b", "a"]);
    assert_eq!(stats.count_of("missing"), 0);
}

#[test]
fn report_tracks_bool_stats() {
    let mut report = empty_report();
    report.report_bool(1, "active", true, OnConflict::Default);
    report.report_bool(2, "active", true, OnConflict::Default);
    report.report_bool(3, "active", false, OnConflict::Default);

    let stats = report.field_stats("active").expect("active field should have stats");
    assert_eq!(stats.count, 3);
    assert_eq!(stats.count_of("true"), 2);
    assert_eq!(stats.count_of("false"), 1);
}

#[test]
fn report_tracks_number_stats() {
    let mut report = empty_report();
    report.report_number(1, "score", number("10"), OnConflict::Default);
    report.report_number(2, "score", number("20"), OnConflict::Default);
    report.report_number(3, "score", number("10"), OnConflict::Default);

    let stats = report.field_stats("score").expect("score field should have stats");
    assert_eq!(stats.count, 3);
    assert_eq!(stats.count_of("10"), 2);
    assert_eq!(stats.count_of("20"), 1);
}

#[test]
fn report_tracks_string_stats() {
    let mut report = empty_report();
    report.report_string(1, "title", "Hello".to_string(), OnConflict::Default);
    report.report_string(2, "title", "World".to_string(), OnConflict::Default);

    let stats = report.field_stats("title").expect("title field should have stats");
    assert_eq!(stats.count, 2);
    assert_eq!(stats.count_of("Hello"), 1);
    assert_eq!(stats.count_of("World"), 1);
}

#[test]
fn report_tracks_string_enum_stats() {
    let mut report = empty_report();
    let values = levels();
    report.report_string_enum(1, "priority", "high".to_string(), &values, OnConflict::Default);
    report.report_string_enum(2, "priority", "low".to_string(), &values, OnConflict::Default);
    report.report_string_enum(3, "priority", "high".to_string(), &values, OnConflict::Default);

    let stats = report.field_stats("priority").expect("priority field should have stats");
    assert_eq!(stats.count, 3);
    assert_eq!(stats.count_of("high"), 2);
    assert_eq!(stats.count_of("low"), 1);
}

#[test]
fn report_tracks_string_array_stats() {
    let mut report = empty_report();
    report.report_string_array(1, "tags", "urgent".to_string());
    report.report_string_array(2, "tags", "important".to_string());
    report.report_string_array(3, "tags", "urgent".to_string());

    let stats = report.field_stats("tags").expect("tags field should have stats");
    assert_eq!(stats.count, 3);
    assert_eq!(stats.count_of("urgent"), 2);
    assert_eq!(stats.count_of("important"), 1);
}

#[test]
fn report_number_largest_value_keeps_largest_without_conflict() {
    let mut report = empty_report();
    report.report_number(1, "score", number("10"), OnConflict::LargestValue);
    report.report_number(2, "score", number("20"), OnConflict::LargestValue);
    report.report_number(3, "score", number("5"), OnConflict::LargestValue);

    assert!(json_eq(&object(vec![("score", Json::Number(number("20")))]), &report.value()));
    assert!(report.conflicts().is_empty());
}

#[test]
fn report_string_enum_largest_value_uses_declared_order() {
    let mut report = empty_report();
    let values = levels();
    report.report_string_enum(1, "priority", "medium".to_string(), &values, OnConflict::LargestValue);
    report.report_string_enum(2, "priority", "high".to_string(), &values, OnConflict::LargestValue);
    report.report_string_enum(3, "priority", "medium".to_string(), &values, OnConflict::LargestValue);

    assert!(json_eq(&object(vec![("priority", Json::String("high".to_string()))]), &report.value()));
    assert!(report.conflicts().is_empty());
}

#[test]
fn report_all_field_stats() {
    let mut report = empty_report();
    report.report_bool(1, "active", true, OnConflict::Default);
    report.report_number(2, "score", number("42"), OnConflict::Default);

    let all_stats = report.all_field_stats();
    assert!(all_stats.iter().any(|(k, _)| k == "active"));
    assert!(all_stats.iter().any(|(k, _)| k == "score"));
    assert_eq!(all_stats.len(), 2);
}

#[test]
fn report_field_stats_none_for_unreported() {
    let report = empty_report();
    assert!(report.field_stats("nonexistent").is_none());
}

#[test]
fn report_default_last_writer_wins() {
    let mut report = empty_report();
    report.report_string(1, "title", "first".to_string(), OnConflict::Default);
    report.report_string(2, "title", "second".to_string(), OnConflict::Default);
    assert!(json_eq(&object(vec![("title", Json::String("second".to_string()))]), &report.value()));
    assert!(report.conflicts().is_empty());

    let mut report = empty_report();
    report.report_bool(1, "f", true, OnConflict::Default);
    report.report_bool(2, "f", false, OnConflict::Default);
    assert!(json_eq(&object(vec![("f", Json::Bool(false))]), &report.value()));
    assert!(report.conflicts().is_empty());
    assert!(report.errors().is_empty());
    assert_eq!(report.rules_matched(), &vec![1usize, 2]);
}

#[test]
fn report_agreement_records_conflict() {
    let mut report = empty_report();
    report.report_string(1, "title", "a".to_string(), OnConflict::Agreement);
    report.report_string(2, "title", "b".to_string(), OnConflict::Agreement);
    assert_eq!(report.conflicts().len(), 1);
    match &report.conflicts()[0] {
        Conflict::StringConflict { field, val1, val2 } => {
            assert_eq!(field, "title");
            assert_eq!(val1, "a");
            assert_eq!(val2, "b");
        }
        other => panic!("unexpected {other:?}"),
    }
}

#[test]
fn report_agreement_on_equal_values_is_no_conflict() {
    let mut report = empty_report();
    report.report_bool(1, "flag", true, OnConflict::Agreement);
    report.report_bool(2, "flag", true, OnConflict::Agreement);
    assert!(report.conflicts().is_empty());
    assert!(json_eq(&object(vec![("flag", Json::Bool(true))]), &report.value()));
}

#[test]
fn report_largest_bool_prefers_true() {
    let mut report = empty_report();
    report.report_bool(1, "flag", false, OnConflict::LargestValue);
    report.report_bool(2, "flag", true, OnConflict::LargestValue);
    report.report_bool(3, "flag", false, OnConflict::LargestValue);
    assert!(json_eq(&object(vec![("flag", Json::Bool(true))]), &report.value()));
}

#[test]
fn report_largest_string_prefers_longer() {
    let mut report = empty_report();
    report.report_string(1, "s", "abc".to_string(), OnConflict::LargestValue);
    report.report_string(2, "s", "a".to_string(), OnConflict::LargestValue);
    report.report_string(3, "s", "abcd".to_string(), OnConflict::LargestValue);
    assert!(json_eq(&object(vec![("s", Json::String("abcd".to_string()))]), &report.value()));
}

#[test]
fn report_string_array_has_no_duplicates() {
    let mut report = empty_report();
    report.report_string_array(1, "tags", "a".to_string());
    report.report_string_array(2, "tags", "b".to_string());
    report.report_string_array(3, "tags", "a".to_string());
    let expected = object(vec![(
        "tags",
        Json::Array(vec![Json::String("a".to_string()), Json::String("b".to_string())]),
    )]);
    assert!(json_eq(&expected, &report.value()));
}

#[test]
fn report_reported_value_wins_over_default() {
    let mut report = empty_report();
    report.report_bool_default("flag", false);
    report.report_bool(1, "flag", true, OnConflict::Default);
    report.report_string_default("title", "untitled");
    assert!(json_eq(
        &object(vec![("flag", Json::Bool(true)), ("title", Json::String("untitled".to_string()))]),
        &report.value()
    ));
}

#[test]
fn report_violation_is_an_error() {
    let mut report = empty_report();
    assert!(!report.has_errors());
    report.report_invariant_violation("src/x.rs", 7, "broken");
    assert!(report.has_errors());
    match &report.errors()[0] {
        PolicyError::InvariantViolation { file, line, message } => {
            assert_eq!(file, "src/x.rs");
            assert_eq!(*line, 7);
            assert_eq!(message, "broken");
        }
        other => panic!("unexpected {other:?}"),
    }
}

#[test]
fn report_empty_value_is_empty_object() {
    let report = empty_report();
    assert!(json_eq(&Json::object(), &report.value()));
}

#[test]
fn report_text_shows_ir_and_values() {
    let mut report = empty_report();
    assert_eq!(report.to_text(), "ir: {}\nso: {}\n");

    report.ir = Some(object(vec![("a", Json::Bool(true))]));
    report.report_bool(1, "active", true, OnConflict::Default);
    assert_eq!(report.to_text(), "ir: {\n  \"a\": true\n}\nso: {\n  \"active\": true\n}\n");
}
