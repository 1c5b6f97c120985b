//! Test data and evaluation records, and the vote that decides whether a
//! policy applies to a text.
use vstd::prelude::*;

use crate::json::Json;
use crate::policy::Policy;
use crate::report::Report;
use crate::usage::Usage;

verus! {

/// Candidate semantic injections for a text, with the rationale of each.
#[derive(Clone, Debug)]
pub struct SemanticInjection {
    /// Candidate semantic injection texts.
    pub injections: Vec<String>,
    /// Why each candidate might apply.
    pub rationales: Vec<String>,
    /// The text the candidates are meant to match.
    pub text: String,
}

impl Default for SemanticInjection {
    fn default() -> (r: SemanticInjection)
        ensures
            r.injections@.len() == 0,
            r.rationales@.len() == 0,
            r.text@.len() == 0,
    {
        SemanticInjection { injections: Vec::new(), rationales: Vec::new(), text: String::new() }
    }
}

/// A semantic injection with texts it should and should not match.
#[derive(Clone, Debug)]
pub struct DecidableSemanticInjection {
    /// Texts that should trigger the injection.
    pub positives: Vec<String>,
    /// Texts that should not trigger the injection.
    pub negatives: Vec<String>,
    /// The semantic injection.
    pub text: String,
}

impl Default for DecidableSemanticInjection {
    fn default() -> (r: DecidableSemanticInjection)
        ensures
            r.positives@.len() == 0,
            r.negatives@.len() == 0,
            r.text@.len() == 0,
    {
        DecidableSemanticInjection { positives: Vec::new(), negatives: Vec::new(), text: String::new() }
    }
}

/// A condition in natural language and the action to take when it holds.
#[derive(Debug)]
pub struct InjectableAction {
    /// When the action applies.
    pub inject: String,
    /// The action.
    pub action: Json,
}

/// A field on which policies were expected to conflict.
#[derive(Clone, Debug)]
pub struct ConflictField {
    /// The kind of conflict resolution applied.
    pub conflict_type: String,
    /// The field.
    pub field_name: String,
}

/// One test case: a text, the policies to apply, and what should come out.
#[derive(Debug)]
pub struct TestDataPoint {
    /// The input text.
    pub text: String,
    /// The policies to apply.
    pub policies: Vec<Policy>,
    /// The expected output.
    pub expected: Option<Json>,
    /// The conflicts expected.
    pub conflicts: Option<Vec<ConflictField>>,
}

/// How well the policies and a baseline did on one test case.
#[derive(Debug)]
pub struct Metrics {
    pub policyai_fields_matched: usize,
    pub baseline_fields_matched: usize,
    pub policyai_fields_with_wrong_value: usize,
    pub baseline_fields_with_wrong_value: usize,
    pub policyai_fields_missing: usize,
    pub baseline_fields_missing: usize,
    pub policyai_extra_fields: usize,
    pub baseline_extra_fields: usize,
    pub policyai_error: Option<String>,
    pub baseline_error: Option<String>,
    pub policyai_apply_duration_ms: u32,
    pub baseline_apply_duration_ms: u32,
    pub policyai_usage: Option<Usage>,
    pub baseline_usage: Option<Usage>,
}

impl Default for Metrics {
    fn default() -> (r: Metrics)
        ensures
            r.policyai_fields_matched == 0,
            r.baseline_fields_matched == 0,
            r.policyai_fields_with_wrong_value == 0,
            r.baseline_fields_with_wrong_value == 0,
            r.policyai_fields_missing == 0,
            r.baseline_fields_missing == 0,
            r.policyai_extra_fields == 0,
            r.baseline_extra_fields == 0,
            r.policyai_error is None,
            r.baseline_error is None,
            r.policyai_apply_duration_ms == 0,
            r.baseline_apply_duration_ms == 0,
            r.policyai_usage is None,
            r.baseline_usage is None,
    {
        Metrics {
            policyai_fields_matched: 0,
            baseline_fields_matched: 0,
            policyai_fields_with_wrong_value: 0,
            baseline_fields_with_wrong_value: 0,
            policyai_fields_missing: 0,
            baseline_fields_missing: 0,
            policyai_extra_fields: 0,
            baseline_extra_fields: 0,
            policyai_error: None,
            baseline_error: None,
            policyai_apply_duration_ms: 0,
            baseline_apply_duration_ms: 0,
            policyai_usage: None,
            baseline_usage: None,
        }
    }
}

/// The evaluation of one test case.
#[derive(Debug)]
pub struct EvaluationReport {
    pub input: TestDataPoint,
    pub metrics: Metrics,
    pub report: Report,
    pub output: Json,
    pub baseline: Option<Json>,
}

/// How one attempt of the vote ended.
#[derive(Clone, Copy, Debug, PartialEq, Eq, Structural)]
pub enum VoteAnswer {
    /// The model stopped at "yes".
    Yes,
    /// The model stopped at "no".
    No,
    /// The model stopped at another stop sequence.
    OtherStopSequence,
    /// The model stopped at a stop sequence but did not say which.
    MissingStopSequence,
    /// The model did not stop at a stop sequence.
    NotStopped,
}

/// A vote of up to `n` attempts that ends once `k` say "yes".
#[derive(Debug)]
pub struct FractionalVote {
    pub success: usize,
    pub total: usize,
    pub k: usize,
    pub n: usize,
}

impl FractionalVote {
    /// A vote with no attempt made.
    pub fn new(k: usize, n: usize) -> (r: FractionalVote)
        ensures
            r == (FractionalVote { success: 0, total: 0, k, n }),
    {
        FractionalVote { success: 0, total: 0, k, n }
    }

    /// Whether another attempt is to be made: fewer than `k` said "yes" and
    /// fewer than `n` attempts were made.
    pub fn wants_more(&self) -> (r: bool)
        ensures
            r == (self.success < self.k && self.total < self.n),
    {
        self.success < self.k && self.total < self.n
    }

    /// Counts an attempt and its answer; an answer other than "yes" or "no"
    /// ends the vote with an error.
    pub fn record(&mut self, answer: VoteAnswer) -> (r: Result<(), &'static str>)
        requires
            old(self).success < old(self).k,
            old(self).total < old(self).n,
        ensures
            final(self).total == old(self).total + 1,
            final(self).k == old(self).k,
            final(self).n == old(self).n,
            final(self).success == old(self).success + (if answer == VoteAnswer::Yes {
                1int
            } else {
                0int
            }),
            match answer {
                VoteAnswer::Yes | VoteAnswer::No => r is Ok,
                VoteAnswer::NotStopped => r matches Err(m) && m@ == "did not get a stop sequence"@,
                VoteAnswer::OtherStopSequence => r matches Err(m) && m@ == "expected yes/no stop sequence"@,
                VoteAnswer::MissingStopSequence => r matches Err(m) && m@ == "expected stop sequence"@,
            },
    {
        self.total = self.total + 1;
        match answer {
            VoteAnswer::Yes => {
                self.success = self.success + 1;
                Ok(())
            },
            VoteAnswer::No => Ok(()),
            VoteAnswer::NotStopped => Err("did not get a stop sequence"),
            VoteAnswer::OtherStopSequence => Err("expected yes/no stop sequence"),
            VoteAnswer::MissingStopSequence => Err("expected stop sequence"),
        }
    }

    /// Whether the policy applies: at least `k` said "yes".
    pub fn applies(&self) -> (r: bool)
        ensures
            r == (self.success >= self.k),
    {
        self.success >= self.k
    }

    /// Whether the policy does not apply: at most `n - k` said "yes".
    pub fn does_not_apply(&self) -> (r: bool)
        ensures
            r == (self.success <= if self.n >= self.k {
                self.n - self.k
            } else {
                0
            }),
    {
        self.success <= self.n.saturating_sub(self.k)
    }
}

/// A vote never counts more "yes" answers than attempts, nor more attempts
/// than `n`: each recorded attempt keeps `success <= total <= n`.
pub proof fn law_vote_bounded(v: FractionalVote, answer: VoteAnswer, w: FractionalVote)
    requires
        v.success <= v.total <= v.n,
        v.success < v.k,
        v.total < v.n,
        w.total == v.total + 1,
        w.n == v.n,
        w.success == v.success + (if answer == VoteAnswer::Yes {
            1int
        } else {
            0int
        }),
    ensures
        w.success <= w.total <= w.n,
{
}

} // verus!
