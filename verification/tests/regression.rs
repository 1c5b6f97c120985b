use policyai::analysis::{ConfusionMatrix, RegressionAnalysis};
use policyai::data::Metrics;
use policyai::json::json_eq;
use policyai::{Json, JsonNumber};
use policyai::regression::{
    add_field_counts, clean_baseline, example_for_regression, normalize_whitespace, FieldAccuracyMatrices, FieldQualitySummary, FieldQualityTotals,
};

#[test]
fn field_accuracy_matrices_compare_expected_to_control_and_experimental() {
    let metrics = Metrics {
        policyai_fields_matched: 2,
        policyai_fields_with_wrong_value: 3,
        policyai_fields_missing: 5,
        policyai_extra_fields: 7,
        baseline_fields_matched: 11,
        baseline_fields_with_wrong_value: 13,
        baseline_fields_missing: 17,
        baseline_extra_fields: 19,
        ..Default::default()
    };

    let mut matrices = FieldAccuracyMatrices::new();
    matrices.add_report(&metrics);

    assert_eq!(
        matrices.control,
        ConfusionMatrix { true_positive: 11, false_positive: 32, true_negative: 0, false_negative: 30 }
    );
    assert_eq!(
        matrices.experimental,
        ConfusionMatrix { true_positive: 2, false_positive: 10, true_negative: 0, false_negative: 8 }
    );
}

#[test]
fn field_quality_summary_uses_confusion_matrix_counts() {
    let metrics = Metrics {
        policyai_fields_matched: 761,
        policyai_fields_with_wrong_value: 8,
        policyai_fields_missing: 24,
        policyai_extra_fields: 23,
        baseline_fields_matched: 612,
        baseline_fields_with_wrong_value: 2,
        baseline_fields_missing: 56,
        baseline_extra_fields: 0,
        ..Default::default()
    };

    let mut analysis = RegressionAnalysis::new();
    analysis.add_report(&metrics);
    let mut matrices = FieldAccuracyMatrices::new();
    matrices.add_report(&metrics);

    assert_eq!(
        FieldQualitySummary::from_analysis_and_matrices(&analysis, &matrices),
        FieldQualitySummary {
            policyai: FieldQualityTotals {
                matched_field_values: 761,
                not_expected_not_output_field_values: 0,
                wrong_values: 8,
                missing_field_values: 32,
                extra_field_values: 31,
            },
            baseline: FieldQualityTotals {
                matched_field_values: 612,
                not_expected_not_output_field_values: 0,
                wrong_values: 2,
                missing_field_values: 58,
                extra_field_values: 2,
            },
        }
    );
}

#[test]
fn add_field_counts_formula() {
    let mut m = ConfusionMatrix::new();
    add_field_counts(&mut m, 1, 2, 3, 4);
    assert_eq!(m, ConfusionMatrix { true_positive: 1, false_positive: 6, true_negative: 0, false_negative: 5 });
}

#[test]
fn normalize_whitespace_collapses_runs() {
    assert_eq!(normalize_whitespace("  a \t b\n\nc  "), "a b c");
    assert_eq!(normalize_whitespace(""), "");
    assert_eq!(normalize_whitespace("   "), "");
    assert_eq!(normalize_whitespace("one"), "one");
}

fn object(members: Vec<(&str, Json)>) -> Json {
    Json::Object(members.into_iter().map(|(k, v)| (k.to_string(), v)).collect())
}

fn string(s: &str) -> Json {
    Json::String(s.to_string())
}

#[test]
fn example_output_uses_expected_instead_of_report_ir() {
    let regression = object(vec![
        (
            "input",
            object(vec![("text", string("example text")), ("expected", object(vec![("field", string("expected value"))]))]),
        ),
        (
            "report",
            object(vec![
                ("messages", Json::Array(vec![object(vec![("content", string("rules\n"))])])),
                ("ir", object(vec![("field", string("bad value"))])),
            ]),
        ),
    ]);

    let example = example_for_regression(&regression);

    assert!(example.contains("\"field\": \"expected value\""));
    assert!(!example.contains("\"field\": \"bad value\""));
}

#[test]
fn example_output_defaults_to_empty_object_without_expected() {
    let regression = object(vec![
        ("input", object(vec![("text", string("example text"))])),
        ("report", object(vec![("messages", Json::Array(vec![object(vec![("content", string("rules\n"))])]))])),
    ]);

    let example = example_for_regression(&regression);

    assert!(example.contains("<output>\n{}\n</output>"));
}

#[test]
fn example_for_regression_lays_out_rules_text_and_output() {
    let regression = object(vec![
        ("input", object(vec![("text", string("hello")), ("expected", object(vec![("n", Json::Number(policyai::JsonNumber::from_literal("3".to_string())))]))])),
        ("report", object(vec![("messages", Json::Array(vec![object(vec![("content", string("R\n"))])]))])),
    ]);

    let example = example_for_regression(&regression);

    assert_eq!(
        example,
        "<example>\n<input>\nR\n<text>hello</text>\n</input>\n<output>\n{\n  \"n\": 3\n}\n</output>\n</example>\n"
    );
}

#[test]
fn example_for_regression_reads_missing_parts_as_empty() {
    let example = example_for_regression(&Json::Null);

    assert_eq!(example, "<example>\n<input>\n<text></text>\n</input>\n<output>\n{}\n</output>\n</example>\n");
}

fn integer(s: &str) -> Json {
    Json::Number(JsonNumber::from_literal(s.to_string()))
}

#[test]
fn clean_baseline_removes_rule_numbers() {
    let baseline = object(vec![
        ("field1", string("value1")),
        ("field2", integer("42")),
        ("__rule_numbers__", Json::Array(vec![integer("1"), integer("2"), integer("3")])),
    ]);

    let cleaned = clean_baseline(&baseline);

    assert!(cleaned.get("field1").is_some());
    assert!(cleaned.get("field2").is_some());
    assert!(cleaned.get("__rule_numbers__").is_none());
    match &cleaned {
        Json::Object(m) => assert_eq!(m.len(), 2),
        other => panic!("unexpected {other:?}"),
    }
}

#[test]
fn clean_baseline_handles_missing_rule_numbers() {
    let baseline = object(vec![("field1", string("value1")), ("field2", integer("42"))]);

    let cleaned = clean_baseline(&baseline);
    assert!(json_eq(&cleaned, &baseline));
}

#[test]
fn clean_baseline_handles_non_object() {
    let baseline = string("not an object");
    let cleaned = clean_baseline(&baseline);
    assert!(json_eq(&cleaned, &baseline));
}
