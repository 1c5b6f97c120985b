//! Field-level counts of regression runs, and text normalisation for comparing outputs.
use vstd::prelude::*;

use crate::analysis::{ConfusionMatrix, RegressionAnalysis};
use crate::data::Metrics;
use crate::json::{json_get, json_pretty, json_pretty_text, obj_view, Json, JsonV};
use crate::parser::skip_ws;
use crate::text::{char_is_whitespace, chars_of, is_white_space, push_text, string_of, text_eq};

verus! {

/// The field counts of one output added to a confusion matrix: a wrong
/// value both misses the expected value and emits one that was not expected.
pub open spec fn field_counts_added(m: ConfusionMatrix, matched: usize, wrong_value: usize, missing: usize, extra: usize) -> ConfusionMatrix {
    ConfusionMatrix {
        true_positive: (m.true_positive + matched) as usize,
        false_positive: (m.false_positive + wrong_value + extra) as usize,
        false_negative: (m.false_negative + wrong_value + missing) as usize,
        ..m
    }
}

/// Adds the field counts of one output to a confusion matrix.
pub fn add_field_counts(matrix: &mut ConfusionMatrix, matched: usize, wrong_value: usize, missing: usize, extra: usize)
    requires
        old(matrix).true_positive + matched <= usize::MAX,
        old(matrix).false_positive + wrong_value + extra <= usize::MAX,
        old(matrix).false_negative + wrong_value + missing <= usize::MAX,
    ensures
        *final(matrix) == field_counts_added(*old(matrix), matched, wrong_value, missing, extra),
{
    matrix.true_positive = matrix.true_positive + matched;
    matrix.false_positive = matrix.false_positive + (wrong_value + extra);
    matrix.false_negative = matrix.false_negative + (wrong_value + missing);
}

/// Field-level confusion matrices of the baseline (control) and the policies (experimental).
#[derive(Clone, Copy, Debug, PartialEq, Eq, Structural)]
pub struct FieldAccuracyMatrices {
    pub control: ConfusionMatrix,
    pub experimental: ConfusionMatrix,
}

impl FieldAccuracyMatrices {
    /// Both matrices empty.
    pub fn new() -> (r: FieldAccuracyMatrices)
        ensures
            r.control == (ConfusionMatrix { true_positive: 0, false_positive: 0, true_negative: 0, false_negative: 0 }),
            r.experimental == (ConfusionMatrix { true_positive: 0, false_positive: 0, true_negative: 0, false_negative: 0 }),
    {
        FieldAccuracyMatrices { control: ConfusionMatrix::new(), experimental: ConfusionMatrix::new() }
    }

    /// Adds the field counts of one test case to both matrices.
    pub fn add_report(&mut self, metrics: &Metrics)
        requires
            old(self).control.true_positive + metrics.baseline_fields_matched <= usize::MAX,
            old(self).control.false_positive + metrics.baseline_fields_with_wrong_value + metrics.baseline_extra_fields <= usize::MAX,
            old(self).control.false_negative + metrics.baseline_fields_with_wrong_value + metrics.baseline_fields_missing <= usize::MAX,
            old(self).experimental.true_positive + metrics.policyai_fields_matched <= usize::MAX,
            old(self).experimental.false_positive + metrics.policyai_fields_with_wrong_value + metrics.policyai_extra_fields <= usize::MAX,
            old(self).experimental.false_negative + metrics.policyai_fields_with_wrong_value + metrics.policyai_fields_missing <= usize::MAX,
        ensures
            final(self).control == field_counts_added(
                old(self).control,
                metrics.baseline_fields_matched,
                metrics.baseline_fields_with_wrong_value,
                metrics.baseline_fields_missing,
                metrics.baseline_extra_fields,
            ),
            final(self).experimental == field_counts_added(
                old(self).experimental,
                metrics.policyai_fields_matched,
                metrics.policyai_fields_with_wrong_value,
                metrics.policyai_fields_missing,
                metrics.policyai_extra_fields,
            ),
    {
        add_field_counts(
            &mut self.control,
            metrics.baseline_fields_matched,
            metrics.baseline_fields_with_wrong_value,
            metrics.baseline_fields_missing,
            metrics.baseline_extra_fields,
        );
        add_field_counts(
            &mut self.experimental,
            metrics.policyai_fields_matched,
            metrics.policyai_fields_with_wrong_value,
            metrics.policyai_fields_missing,
            metrics.policyai_extra_fields,
        );
    }
}

/// Field-level totals of one side of a regression run.
#[derive(Clone, Copy, Debug, PartialEq, Eq, Structural)]
pub struct FieldQualityTotals {
    pub matched_field_values: usize,
    pub not_expected_not_output_field_values: usize,
    pub wrong_values: usize,
    pub missing_field_values: usize,
    pub extra_field_values: usize,
}

/// Field-level totals of the policies and of the baseline.
#[derive(Clone, Copy, Debug, PartialEq, Eq, Structural)]
pub struct FieldQualitySummary {
    pub policyai: FieldQualityTotals,
    pub baseline: FieldQualityTotals,
}

/// The totals a confusion matrix and a count of wrong values give.
pub open spec fn totals_of(m: ConfusionMatrix, wrong_values: usize) -> FieldQualityTotals {
    FieldQualityTotals {
        matched_field_values: m.true_positive,
        not_expected_not_output_field_values: m.true_negative,
        wrong_values,
        missing_field_values: m.false_negative,
        extra_field_values: m.false_positive,
    }
}

impl FieldQualitySummary {
    /// The totals of both sides: the cells of their field matrices, and the
    /// wrong values the analysis counted.
    pub fn from_analysis_and_matrices(analysis: &RegressionAnalysis, field_matrices: &FieldAccuracyMatrices) -> (r: FieldQualitySummary)
        ensures
            r.policyai == totals_of(field_matrices.experimental, analysis.policyai_total_wrong_values),
            r.baseline == totals_of(field_matrices.control, analysis.baseline_total_wrong_values),
    {
        FieldQualitySummary {
            policyai: FieldQualityTotals {
                matched_field_values: field_matrices.experimental.true_positive,
                not_expected_not_output_field_values: field_matrices.experimental.true_negative,
                wrong_values: analysis.policyai_total_wrong_values,
                missing_field_values: field_matrices.experimental.false_negative,
                extra_field_values: field_matrices.experimental.false_positive,
            },
            baseline: FieldQualityTotals {
                matched_field_values: field_matrices.control.true_positive,
                not_expected_not_output_field_values: field_matrices.control.true_negative,
                wrong_values: analysis.baseline_total_wrong_values,
                missing_field_values: field_matrices.control.false_negative,
                extra_field_values: field_matrices.control.false_positive,
            },
        }
    }
}

// ------------------------------------------------------------------ white space

/// The index past the word that starts at `i`.
pub open spec fn word_end(s: Seq<char>, i: int) -> int
    decreases s.len() - i,
{
    if 0 <= i < s.len() && !is_white_space(s[i]) {
        word_end(s, i + 1)
    } else {
        i
    }
}

/// The words of `s` from index `i`: the maximal runs of characters that are
/// not white space.
pub open spec fn words_from(s: Seq<char>, i: int) -> Seq<Seq<char>>
    decreases s.len() - i,
{
    let a = skip_ws(s, i);
    if i < 0 || a >= s.len() || a < i {
        Seq::empty()
    } else {
        let b = word_end(s, a);
        if b <= a || b > s.len() {
            Seq::empty()
        } else {
            seq![s.subrange(a, b)] + words_from(s, b)
        }
    }
}

/// Words joined by single spaces.
pub open spec fn join_words(ws: Seq<Seq<char>>) -> Seq<char>
    decreases ws.len(),
{
    if ws.len() == 0 {
        Seq::empty()
    } else if ws.len() == 1 {
        ws[0]
    } else {
        join_words(ws.drop_last()) + seq![' '] + ws.last()
    }
}

proof fn lemma_word_end(s: Seq<char>, i: int)
    requires
        0 <= i <= s.len(),
    ensures
        i <= word_end(s, i) <= s.len(),
        word_end(s, i) < s.len() ==> is_white_space(s[word_end(s, i)]),
    decreases s.len() - i,
{
    if i < s.len() && !is_white_space(s[i]) {
        lemma_word_end(s, i + 1);
    }
}

proof fn lemma_skip_ws(s: Seq<char>, i: int)
    requires
        0 <= i <= s.len(),
    ensures
        i <= skip_ws(s, i) <= s.len(),
        skip_ws(s, i) < s.len() ==> !is_white_space(s[skip_ws(s, i)]),
    decreases s.len() - i,
{
    if i < s.len() && is_white_space(s[i]) {
        lemma_skip_ws(s, i + 1);
    }
}

/// The words of `s` joined by single spaces, as splitting at white space and
/// joining with `" "` gives them.
pub fn normalize_whitespace(s: &str) -> (r: String)
    ensures
        r@ == join_words(words_from(s@, 0)),
{
    let cs = chars_of(s);
    let ghost t = cs@;
    let mut out = String::new();
    let ghost mut done: Seq<Seq<char>> = Seq::empty();
    let mut first = true;
    let mut i: usize = 0;
    while i < cs.len()
        invariant
            0 <= i <= cs@.len(),
            first == (done.len() == 0),
            t == cs@,
            t == s@,
            out@ == join_words(done),
            done + words_from(t, i as int) == words_from(t, 0),
        decreases cs@.len() - i,
    {
        let mut a = i;
        while a < cs.len() && char_is_whitespace(cs[a])
            invariant
                i <= a <= cs@.len(),
                t == cs@,
                skip_ws(t, a as int) == skip_ws(t, i as int),
            decreases cs@.len() - a,
        {
            a = a + 1;
        }
        proof {
            lemma_skip_ws(t, i as int);
        }
        if a >= cs.len() {
            assert(words_from(t, i as int) =~= Seq::<Seq<char>>::empty());
            assert(done + Seq::<Seq<char>>::empty() =~= done);
            assert(words_from(t, a as int) =~= Seq::<Seq<char>>::empty());
            i = a;
        } else {
            let mut b = a;
            while b < cs.len() && !char_is_whitespace(cs[b])
                invariant
                    a <= b <= cs@.len(),
                    t == cs@,
                    word_end(t, b as int) == word_end(t, a as int),
                decreases cs@.len() - b,
            {
                b = b + 1;
            }
            proof {
                lemma_word_end(t, a as int);
            }
            if !first {
                out.push(' ');
            }
            first = false;
            let mut k = a;
            let ghost before = out@;
            while k < b
                invariant
                    a <= k <= b <= cs@.len(),
                    t == cs@,
                    out@ == before + t.subrange(a as int, k as int),
                decreases b - k,
            {
                out.push(cs[k]);
                k = k + 1;
                assert(out@ =~= before + t.subrange(a as int, k as int));
            }
            proof {
                let w = t.subrange(a as int, b as int);
                assert(words_from(t, i as int) == seq![w] + words_from(t, b as int));
                let nd = done.push(w);
                assert(nd.drop_last() =~= done);
                if done.len() == 0 {
                    assert(join_words(nd) == w);
                    assert(out@ =~= w);
                } else {
                    assert(out@ =~= join_words(done) + seq![' '] + w);
                }
                assert(done + words_from(t, i as int) =~= nd + words_from(t, b as int));
                done = nd;
            }
            i = b;
        }
    }
    proof {
        assert(words_from(t, i as int) =~= Seq::<Seq<char>>::empty());
        assert(done + Seq::<Seq<char>>::empty() =~= done);
        assert(done =~= words_from(t, 0));
    }
    out
}

// ------------------------------------------------------------------ examples

/// `v[key]` as `serde_json` indexes a value: the member of an object, and
/// `null` where there is no such member or `v` is no object.
pub open spec fn member_or_null(v: JsonV, key: Seq<char>) -> JsonV {
    match json_get(v, key) {
        Some(x) => x,
        None => JsonV::Null,
    }
}

/// The first element of an array; `null` for an empty array or any other value.
pub open spec fn first_or_null(v: JsonV) -> JsonV {
    match v {
        JsonV::Array(a) => if a.len() > 0 { a[0] } else { JsonV::Null },
        _ => JsonV::Null,
    }
}

/// The characters of a string value; nothing for any other value.
pub open spec fn text_or_empty(v: JsonV) -> Seq<char> {
    match v {
        JsonV::String(s) => s,
        _ => Seq::empty(),
    }
}

/// The example written for a regression record: the rules (the content of
/// the first message of its report), the input text, and the expected
/// output, indented, or `{}` where the record expects nothing.
pub open spec fn regression_example(r: JsonV) -> Seq<char> {
    let report = member_or_null(r, "report"@);
    let rules = text_or_empty(member_or_null(first_or_null(member_or_null(report, "messages"@)), "content"@));
    let input = member_or_null(r, "input"@);
    let text = text_or_empty(member_or_null(input, "text"@));
    let expected = member_or_null(input, "expected"@);
    let output = if expected is Null { "{}"@ } else { json_pretty(expected) };
    "<example>\n<input>\n"@ + rules + "<text>"@ + text + "</text>\n</input>\n<output>\n"@ + output
        + "\n</output>\n</example>\n"@
}

/// The text of `v[key]` where it is a string.
fn member_text(v: Option<&Json>, key: &str) -> (r: String)
    ensures
        r@ == text_or_empty(member_or_null(
            match v {
                Some(x) => x@,
                None => JsonV::Null,
            },
            key@,
        )),
{
    let mut r = String::new();
    if let Some(x) = v {
        if let Some(Json::String(s)) = x.get(key) {
            r = s.clone();
        }
    }
    r
}

/// Writes a regression record as a prompt example: its rules and input
/// text, and the output it expected.
pub fn example_for_regression(regression: &Json) -> (r: String)
    ensures
        r@ == regression_example(regression@),
{
    let report = regression.get("report");
    let mut first: Option<&Json> = None;
    if let Some(rep) = report {
        if let Some(Json::Array(ms)) = rep.get("messages") {
            if ms.len() > 0 {
                first = Some(&ms[0]);
            }
        }
    }
    proof {
        let m = member_or_null(member_or_null(regression@, "report"@), "messages"@);
        assert(first_or_null(m) == match first {
            Some(x) => x@,
            None => JsonV::Null,
        }) by {
            if let JsonV::Array(a) = m {
                if a.len() > 0 {
                    assert(first is Some);
                }
            }
        }
    }
    let rules = member_text(first, "content");
    let input = regression.get("input");
    let text = member_text(input, "text");
    let output = match input {
        Some(i) => match i.get("expected") {
            Some(Json::Null) => string_of("{}"),
            Some(e) => json_pretty_text(e),
            None => string_of("{}"),
        },
        None => string_of("{}"),
    };
    let mut out = String::new();
    push_text(&mut out, "<example>\n<input>\n");
    push_text(&mut out, rules.as_str());
    push_text(&mut out, "<text>");
    push_text(&mut out, text.as_str());
    push_text(&mut out, "</text>\n</input>\n<output>\n");
    push_text(&mut out, output.as_str());
    push_text(&mut out, "\n</output>\n</example>\n");
    assert(out@ =~= regression_example(regression@));
    out
}

// ------------------------------------------------------------------ baselines

/// The members of an object without those named `k`, in order.
pub open spec fn without_member(m: Seq<(Seq<char>, JsonV)>, k: Seq<char>) -> Seq<(Seq<char>, JsonV)>
    decreases m.len(),
{
    if m.len() == 0 {
        Seq::empty()
    } else if m.last().0 == k {
        without_member(m.drop_last(), k)
    } else {
        without_member(m.drop_last(), k).push(m.last())
    }
}

/// A baseline's output without its `__rule_numbers__` member; any value that
/// is not an object, unchanged.
pub open spec fn cleaned_baseline(v: JsonV) -> JsonV {
    match v {
        JsonV::Object(m) => JsonV::Object(without_member(m, "__rule_numbers__"@)),
        _ => v,
    }
}

/// Removes the `__rule_numbers__` member from a baseline's output, which
/// the baseline's answer carries and the expected values do not.
pub fn clean_baseline(baseline: &Json) -> (r: Json)
    ensures
        r@ == cleaned_baseline(baseline@),
{
    match baseline {
        Json::Object(m) => {
            let ghost mv = obj_view(m@);
            assert(baseline@ == JsonV::Object(mv)) by {
                if let JsonV::Object(a) = baseline@ {
                    assert(a =~= mv);
                }
            }
            let mut out: Vec<(String, Json)> = Vec::new();
            let mut i: usize = 0;
            while i < m.len()
                invariant
                    0 <= i <= m@.len(),
                    mv == obj_view(m@),
                    obj_view(out@) == without_member(mv.take(i as int), "__rule_numbers__"@),
                decreases m@.len() - i,
            {
                assert(mv.take(i + 1).drop_last() =~= mv.take(i as int));
                assert(mv.take(i + 1).last() == mv[i as int]);
                if !text_eq(m[i].0.as_str(), "__rule_numbers__") {
                    let ghost before = obj_view(out@);
                    out.push((m[i].0.clone(), m[i].1.copy()));
                    assert(obj_view(out@) =~= before.push(mv[i as int]));
                }
                i = i + 1;
            }
            assert(mv.take(i as int) =~= mv);
            let r = Json::Object(out);
            assert(r@ =~= cleaned_baseline(baseline@)) by {
                if let JsonV::Object(a) = r@ {
                    assert(a =~= obj_view(out@));
                }
            }
            r
        },
        _ => baseline.copy(),
    }
}

} // verus!
