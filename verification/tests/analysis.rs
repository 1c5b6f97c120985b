use policyai::analysis::{ConfusionMatrix, FieldMatchAccuracyMatrix, RegressionAnalysis};
use policyai::data::Metrics;

fn metrics(
    matched: (usize, usize),
    wrong: (usize, usize),
    missing: (usize, usize),
    extra: (usize, usize),
    errors: (Option<&str>, Option<&str>),
    durations: (u32, u32),
) -> Metrics {
    Metrics {
        policyai_fields_matched: matched.0,
        baseline_fields_matched: matched.1,
        policyai_fields_with_wrong_value: wrong.0,
        baseline_fields_with_wrong_value: wrong.1,
        policyai_fields_missing: missing.0,
        baseline_fields_missing: missing.1,
        policyai_extra_fields: extra.0,
        baseline_extra_fields: extra.1,
        policyai_error: errors.0.map(|s| s.to_string()),
        baseline_error: errors.1.map(|s| s.to_string()),
        policyai_apply_duration_ms: durations.0,
        baseline_apply_duration_ms: durations.1,
        policyai_usage: None,
        baseline_usage: None,
    }
}

#[test]
fn confusion_matrix_new() {
    let matrix = ConfusionMatrix::new();
    assert_eq!(matrix.true_positive, 0);
    assert_eq!(matrix.false_positive, 0);
    assert_eq!(matrix.true_negative, 0);
    assert_eq!(matrix.false_negative, 0);
}

#[test]
fn confusion_matrix_add_predictions() {
    let mut matrix = ConfusionMatrix::new();

    matrix.add_prediction(true, true);
    assert_eq!(matrix.true_positive, 1);

    matrix.add_prediction(true, false);
    assert_eq!(matrix.false_negative, 1);

    matrix.add_prediction(false, true);
    assert_eq!(matrix.false_positive, 1);

    matrix.add_prediction(false, false);
    assert_eq!(matrix.true_negative, 1);

    assert_eq!(matrix.true_positive, 1);
    assert_eq!(matrix.false_negative, 1);
    assert_eq!(matrix.false_positive, 1);
    assert_eq!(matrix.true_negative, 1);
}

#[test]
fn regression_analysis_new() {
    let analysis = RegressionAnalysis::new();
    assert_eq!(analysis.total_reports, 0);
    assert_eq!(analysis.policyai_total_fields_matched, 0);
    assert_eq!(analysis.baseline_total_fields_matched, 0);
    assert_eq!(analysis.policyai_errors, 0);
    assert_eq!(analysis.baseline_errors, 0);
}

#[test]
fn regression_analysis_add_report() {
    let mut analysis = RegressionAnalysis::new();
    let metrics = metrics((5, 3), (1, 2), (0, 1), (2, 0), (None, Some("error")), (100, 150));

    analysis.add_report(&metrics);

    assert_eq!(analysis.total_reports, 1);
    assert_eq!(analysis.policyai_total_fields_matched, 5);
    assert_eq!(analysis.baseline_total_fields_matched, 3);
    assert_eq!(analysis.policyai_total_wrong_values, 1);
    assert_eq!(analysis.baseline_total_wrong_values, 2);
    assert_eq!(analysis.policyai_total_missing_fields, 0);
    assert_eq!(analysis.baseline_total_missing_fields, 1);
    assert_eq!(analysis.policyai_total_extra_fields, 2);
    assert_eq!(analysis.baseline_total_extra_fields, 0);
    assert_eq!(analysis.policyai_errors, 0);
    assert_eq!(analysis.baseline_errors, 1);
    assert_eq!(analysis.policyai_total_duration_ms, 100);
    assert_eq!(analysis.baseline_total_duration_ms, 150);
}

#[test]
fn regression_analysis_sums_two_reports() {
    let mut analysis = RegressionAnalysis::new();
    analysis.add_report(&metrics((4, 2), (0, 1), (1, 2), (0, 0), (Some("error"), None), (200, 300)));
    analysis.add_report(&metrics((6, 4), (2, 1), (0, 1), (1, 2), (None, Some("error")), (100, 200)));

    assert_eq!(analysis.total_reports, 2);
    assert_eq!(analysis.policyai_total_fields_matched, 10);
    assert_eq!(analysis.baseline_total_fields_matched, 6);
    assert_eq!(analysis.policyai_total_duration_ms, 300);
    assert_eq!(analysis.baseline_total_duration_ms, 500);
    assert_eq!(analysis.policyai_errors, 1);
    assert_eq!(analysis.baseline_errors, 1);
}

#[test]
fn one_prediction_fills_exactly_one_cell() {
    for actual in [false, true] {
        for predicted in [false, true] {
            let mut matrix = ConfusionMatrix::new();
            matrix.add_prediction(actual, predicted);
            let total = matrix.true_positive + matrix.false_positive + matrix.true_negative + matrix.false_negative;
            assert_eq!(total, 1);
        }
    }
}

#[test]
fn field_match_accuracy_matrix_counts_correct_answers() {
    let mut matrix = FieldMatchAccuracyMatrix::new();
    // Both systems matched every expected field.
    matrix.add_report(&metrics((2, 2), (0, 0), (0, 0), (0, 0), (None, None), (1, 1)), 2);
    // The baseline missed a field, policyai did not.
    matrix.add_report(&metrics((2, 1), (0, 0), (0, 1), (0, 0), (None, None), (1, 1)), 2);
    let m = &matrix.confusion_matrix;
    assert_eq!(m.true_positive, 1);
    assert_eq!(m.false_positive, 1);
    assert_eq!(m.true_negative, 0);
    assert_eq!(m.false_negative, 0);
}
