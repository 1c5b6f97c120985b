//! Counts that compare the policies' output with a baseline's.
use vstd::prelude::*;

use crate::data::Metrics;

verus! {

/// Counts of a binary prediction against the actual outcome.
#[derive(Clone, Copy, Debug, PartialEq, Eq, Structural)]
pub struct ConfusionMatrix {
    pub true_positive: usize,
    pub false_positive: usize,
    pub true_negative: usize,
    pub false_negative: usize,
}

impl Default for ConfusionMatrix {
    fn default() -> (r: ConfusionMatrix)
        ensures
            r == (ConfusionMatrix { true_positive: 0, false_positive: 0, true_negative: 0, false_negative: 0 }),
    {
        ConfusionMatrix { true_positive: 0, false_positive: 0, true_negative: 0, false_negative: 0 }
    }
}

impl ConfusionMatrix {
    /// All counts zero.
    pub fn new() -> (r: ConfusionMatrix)
        ensures
            r == (ConfusionMatrix { true_positive: 0, false_positive: 0, true_negative: 0, false_negative: 0 }),
    {
        ConfusionMatrix::default()
    }

    /// Counts one prediction in the cell of `(actual, predicted)`.
    pub fn add_prediction(&mut self, actual: bool, predicted: bool)
        requires
            actual && predicted ==> old(self).true_positive < usize::MAX,
            actual && !predicted ==> old(self).false_negative < usize::MAX,
            !actual && predicted ==> old(self).false_positive < usize::MAX,
            !actual && !predicted ==> old(self).true_negative < usize::MAX,
        ensures
            *final(self) == (if actual && predicted {
                ConfusionMatrix { true_positive: (old(self).true_positive + 1) as usize, ..*old(self) }
            } else if actual {
                ConfusionMatrix { false_negative: (old(self).false_negative + 1) as usize, ..*old(self) }
            } else if predicted {
                ConfusionMatrix { false_positive: (old(self).false_positive + 1) as usize, ..*old(self) }
            } else {
                ConfusionMatrix { true_negative: (old(self).true_negative + 1) as usize, ..*old(self) }
            }),
    {
        match (actual, predicted) {
            (true, true) => self.true_positive = self.true_positive + 1,
            (true, false) => self.false_negative = self.false_negative + 1,
            (false, true) => self.false_positive = self.false_positive + 1,
            (false, false) => self.true_negative = self.true_negative + 1,
        }
    }
}

/// Every prediction lands in exactly one cell: the total grows by one.
pub proof fn law_one_cell_per_prediction(before: ConfusionMatrix, after: ConfusionMatrix, actual: bool, predicted: bool)
    requires
        after == (if actual && predicted {
            ConfusionMatrix { true_positive: (before.true_positive + 1) as usize, ..before }
        } else if actual {
            ConfusionMatrix { false_negative: (before.false_negative + 1) as usize, ..before }
        } else if predicted {
            ConfusionMatrix { false_positive: (before.false_positive + 1) as usize, ..before }
        } else {
            ConfusionMatrix { true_negative: (before.true_negative + 1) as usize, ..before }
        }),
        before.true_positive < usize::MAX,
        before.false_negative < usize::MAX,
        before.false_positive < usize::MAX,
        before.true_negative < usize::MAX,
    ensures
        after.true_positive + after.false_positive + after.true_negative + after.false_negative
            == before.true_positive + before.false_positive + before.true_negative + before.false_negative + 1,
{
}

/// Totals over the test cases of a regression run.
#[derive(Clone, Copy, Debug, PartialEq, Eq, Structural)]
pub struct RegressionAnalysis {
    pub total_reports: usize,
    pub policyai_total_fields_matched: usize,
    pub baseline_total_fields_matched: usize,
    pub policyai_total_wrong_values: usize,
    pub baseline_total_wrong_values: usize,
    pub policyai_total_missing_fields: usize,
    pub baseline_total_missing_fields: usize,
    pub policyai_total_extra_fields: usize,
    pub baseline_total_extra_fields: usize,
    pub policyai_errors: usize,
    pub baseline_errors: usize,
    pub policyai_total_duration_ms: u64,
    pub baseline_total_duration_ms: u64,
}

impl Default for RegressionAnalysis {
    fn default() -> (r: RegressionAnalysis)
        ensures
            r == RegressionAnalysis::zero(),
    {
        RegressionAnalysis {
            total_reports: 0,
            policyai_total_fields_matched: 0,
            baseline_total_fields_matched: 0,
            policyai_total_wrong_values: 0,
            baseline_total_wrong_values: 0,
            policyai_total_missing_fields: 0,
            baseline_total_missing_fields: 0,
            policyai_total_extra_fields: 0,
            baseline_total_extra_fields: 0,
            policyai_errors: 0,
            baseline_errors: 0,
            policyai_total_duration_ms: 0,
            baseline_total_duration_ms: 0,
        }
    }
}

impl RegressionAnalysis {
    /// All totals zero.
    pub open spec fn zero() -> RegressionAnalysis {
        RegressionAnalysis {
            total_reports: 0,
            policyai_total_fields_matched: 0,
            baseline_total_fields_matched: 0,
            policyai_total_wrong_values: 0,
            baseline_total_wrong_values: 0,
            policyai_total_missing_fields: 0,
            baseline_total_missing_fields: 0,
            policyai_total_extra_fields: 0,
            baseline_total_extra_fields: 0,
            policyai_errors: 0,
            baseline_errors: 0,
            policyai_total_duration_ms: 0,
            baseline_total_duration_ms: 0,
        }
    }

    /// All totals zero.
    pub fn new() -> (r: RegressionAnalysis)
        ensures
            r == RegressionAnalysis::zero(),
    {
        RegressionAnalysis::default()
    }

    /// The totals with one more test case added.
    pub open spec fn added(a: RegressionAnalysis, m: Metrics) -> RegressionAnalysis {
        RegressionAnalysis {
            total_reports: (a.total_reports + 1) as usize,
            policyai_total_fields_matched: (a.policyai_total_fields_matched + m.policyai_fields_matched) as usize,
            baseline_total_fields_matched: (a.baseline_total_fields_matched + m.baseline_fields_matched) as usize,
            policyai_total_wrong_values: (a.policyai_total_wrong_values + m.policyai_fields_with_wrong_value) as usize,
            baseline_total_wrong_values: (a.baseline_total_wrong_values + m.baseline_fields_with_wrong_value) as usize,
            policyai_total_missing_fields: (a.policyai_total_missing_fields + m.policyai_fields_missing) as usize,
            baseline_total_missing_fields: (a.baseline_total_missing_fields + m.baseline_fields_missing) as usize,
            policyai_total_extra_fields: (a.policyai_total_extra_fields + m.policyai_extra_fields) as usize,
            baseline_total_extra_fields: (a.baseline_total_extra_fields + m.baseline_extra_fields) as usize,
            policyai_errors: (a.policyai_errors + if m.policyai_error is Some {
                1int
            } else {
                0int
            }) as usize,
            baseline_errors: (a.baseline_errors + if m.baseline_error is Some {
                1int
            } else {
                0int
            }) as usize,
            policyai_total_duration_ms: (a.policyai_total_duration_ms + m.policyai_apply_duration_ms) as u64,
            baseline_total_duration_ms: (a.baseline_total_duration_ms + m.baseline_apply_duration_ms) as u64,
        }
    }

    /// Whether adding `m` keeps every total within its type.
    pub open spec fn fits(a: RegressionAnalysis, m: Metrics) -> bool {
        &&& a.total_reports + 1 <= usize::MAX
        &&& a.policyai_total_fields_matched + m.policyai_fields_matched <= usize::MAX
        &&& a.baseline_total_fields_matched + m.baseline_fields_matched <= usize::MAX
        &&& a.policyai_total_wrong_values + m.policyai_fields_with_wrong_value <= usize::MAX
        &&& a.baseline_total_wrong_values + m.baseline_fields_with_wrong_value <= usize::MAX
        &&& a.policyai_total_missing_fields + m.policyai_fields_missing <= usize::MAX
        &&& a.baseline_total_missing_fields + m.baseline_fields_missing <= usize::MAX
        &&& a.policyai_total_extra_fields + m.policyai_extra_fields <= usize::MAX
        &&& a.baseline_total_extra_fields + m.baseline_extra_fields <= usize::MAX
        &&& a.policyai_errors + 1 <= usize::MAX
        &&& a.baseline_errors + 1 <= usize::MAX
        &&& a.policyai_total_duration_ms + m.policyai_apply_duration_ms <= u64::MAX
        &&& a.baseline_total_duration_ms + m.baseline_apply_duration_ms <= u64::MAX
    }

    /// Adds the counts of one test case.
    pub fn add_report(&mut self, metrics: &Metrics)
        requires
            RegressionAnalysis::fits(*old(self), *metrics),
        ensures
            *final(self) == RegressionAnalysis::added(*old(self), *metrics),
    {
        self.total_reports = self.total_reports + 1;
        self.policyai_total_fields_matched = self.policyai_total_fields_matched + metrics.policyai_fields_matched;
        self.baseline_total_fields_matched = self.baseline_total_fields_matched + metrics.baseline_fields_matched;
        self.policyai_total_wrong_values = self.policyai_total_wrong_values + metrics.policyai_fields_with_wrong_value;
        self.baseline_total_wrong_values = self.baseline_total_wrong_values + metrics.baseline_fields_with_wrong_value;
        self.policyai_total_missing_fields = self.policyai_total_missing_fields + metrics.policyai_fields_missing;
        self.baseline_total_missing_fields = self.baseline_total_missing_fields + metrics.baseline_fields_missing;
        self.policyai_total_extra_fields = self.policyai_total_extra_fields + metrics.policyai_extra_fields;
        self.baseline_total_extra_fields = self.baseline_total_extra_fields + metrics.baseline_extra_fields;
        if metrics.policyai_error.is_some() {
            self.policyai_errors = self.policyai_errors + 1;
        }
        if metrics.baseline_error.is_some() {
            self.baseline_errors = self.baseline_errors + 1;
        }
        self.policyai_total_duration_ms = self.policyai_total_duration_ms + metrics.policyai_apply_duration_ms as u64;
        self.baseline_total_duration_ms = self.baseline_total_duration_ms + metrics.baseline_apply_duration_ms as u64;
    }
}

/// How often the policies and the baseline each got the expected number of fields.
#[derive(Clone, Copy, Debug, PartialEq, Eq, Structural)]
pub struct FieldMatchAccuracyMatrix {
    /// Actual: the baseline matched; predicted: the policies matched.
    pub confusion_matrix: ConfusionMatrix,
}

impl Default for FieldMatchAccuracyMatrix {
    fn default() -> (r: FieldMatchAccuracyMatrix)
        ensures
            r == (FieldMatchAccuracyMatrix {
                confusion_matrix: ConfusionMatrix { true_positive: 0, false_positive: 0, true_negative: 0, false_negative: 0 },
            }),
    {
        FieldMatchAccuracyMatrix { confusion_matrix: ConfusionMatrix::new() }
    }
}

impl FieldMatchAccuracyMatrix {
    /// An empty matrix.
    pub fn new() -> (r: FieldMatchAccuracyMatrix)
        ensures
            r == (FieldMatchAccuracyMatrix {
                confusion_matrix: ConfusionMatrix { true_positive: 0, false_positive: 0, true_negative: 0, false_negative: 0 },
            }),
    {
        FieldMatchAccuracyMatrix::default()
    }

    /// Counts one test case: whether the baseline, and whether the policies,
    /// matched exactly the expected number of fields.
    pub fn add_report(&mut self, metrics: &Metrics, expected_field_count: usize)
        requires
            ({
                let actual = metrics.baseline_fields_matched == expected_field_count;
                let predicted = metrics.policyai_fields_matched == expected_field_count;
                let c = old(self).confusion_matrix;
                &&& actual && predicted ==> c.true_positive < usize::MAX
                &&& actual && !predicted ==> c.false_negative < usize::MAX
                &&& !actual && predicted ==> c.false_positive < usize::MAX
                &&& !actual && !predicted ==> c.true_negative < usize::MAX
            }),
        ensures
            ({
                let actual = metrics.baseline_fields_matched == expected_field_count;
                let predicted = metrics.policyai_fields_matched == expected_field_count;
                let c = old(self).confusion_matrix;
                final(self).confusion_matrix == (if actual && predicted {
                    ConfusionMatrix { true_positive: (c.true_positive + 1) as usize, ..c }
                } else if actual {
                    ConfusionMatrix { false_negative: (c.false_negative + 1) as usize, ..c }
                } else if predicted {
                    ConfusionMatrix { false_positive: (c.false_positive + 1) as usize, ..c }
                } else {
                    ConfusionMatrix { true_negative: (c.true_negative + 1) as usize, ..c }
                })
            }),
    {
        let baseline_correct = metrics.baseline_fields_matched == expected_field_count;
        let policyai_correct = metrics.policyai_fields_matched == expected_field_count;
        self.confusion_matrix.add_prediction(baseline_correct, policyai_correct);
    }
}

} // verus!
