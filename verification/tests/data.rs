use policyai::data::{
    ConflictField, DecidableSemanticInjection, FractionalVote, InjectableAction, Metrics, SemanticInjection,
    VoteAnswer,
};
use policyai::Json;

#[test]
fn semantic_injection_default() {
    let injection = SemanticInjection::default();
    assert!(injection.injections.is_empty());
    assert!(injection.rationales.is_empty());
    assert!(injection.text.is_empty());
}

#[test]
fn semantic_injection_clone() {
    let original = SemanticInjection {
        injections: vec!["test".to_string()],
        rationales: vec!["reason".to_string()],
        text: "content".to_string(),
    };

    let cloned = original.clone();
    assert_eq!(original.injections, cloned.injections);
    assert_eq!(original.rationales, cloned.rationales);
    assert_eq!(original.text, cloned.text);
}

#[test]
fn decidable_semantic_injection_default() {
    let decidable = DecidableSemanticInjection::default();
    assert!(decidable.positives.is_empty());
    assert!(decidable.negatives.is_empty());
    assert!(decidable.text.is_empty());
}

#[test]
fn semantic_injection_debug() {
    let injection = SemanticInjection {
        injections: vec!["test".to_string()],
        rationales: vec![],
        text: "text".to_string(),
    };

    let debug_str = format!("{injection:?}");
    assert!(debug_str.contains("SemanticInjection"));
    assert!(debug_str.contains("test"));
    assert!(debug_str.contains("text"));
}

#[test]
fn injectable_action_clone() {
    let original = InjectableAction {
        inject: "condition".to_string(),
        action: Json::Object(vec![("field".to_string(), Json::String("value".to_string()))]),
    };

    let cloned = InjectableAction { inject: original.inject.clone(), action: original.action.copy() };
    assert_eq!(original.inject, cloned.inject);
    assert!(policyai::json::json_eq(&original.action, &cloned.action));
}

#[test]
fn conflict_field_clone() {
    let original = ConflictField {
        conflict_type: "default".to_string(),
        field_name: "field1".to_string(),
    };

    let cloned = original.clone();
    assert_eq!(original.conflict_type, cloned.conflict_type);
    assert_eq!(original.field_name, cloned.field_name);
}

#[test]
fn metrics_default_all_zeros() {
    let metrics = Metrics::default();
    assert_eq!(metrics.policyai_fields_matched, 0);
    assert_eq!(metrics.baseline_fields_matched, 0);
    assert_eq!(metrics.policyai_fields_with_wrong_value, 0);
    assert_eq!(metrics.baseline_fields_with_wrong_value, 0);
    assert_eq!(metrics.policyai_fields_missing, 0);
    assert_eq!(metrics.baseline_fields_missing, 0);
    assert_eq!(metrics.policyai_extra_fields, 0);
    assert_eq!(metrics.baseline_extra_fields, 0);
    assert!(metrics.policyai_error.is_none());
    assert!(metrics.baseline_error.is_none());
    assert_eq!(metrics.policyai_apply_duration_ms, 0);
    assert_eq!(metrics.baseline_apply_duration_ms, 0);
    assert!(metrics.policyai_usage.is_none());
    assert!(metrics.baseline_usage.is_none());
}

#[test]
fn metrics_debug() {
    let metrics = Metrics { policyai_fields_matched: 5, ..Metrics::default() };
    let debug_str = format!("{metrics:?}");
    assert!(debug_str.contains("Metrics"));
    assert!(debug_str.contains("policyai_fields_matched: 5"));
}

#[test]
fn vote_applies_after_k_yes() {
    let mut vote = FractionalVote::new(2, 3);
    assert!(vote.wants_more());
    assert_eq!(vote.record(VoteAnswer::Yes), Ok(()));
    assert!(vote.wants_more());
    assert_eq!(vote.record(VoteAnswer::Yes), Ok(()));
    assert!(!vote.wants_more());
    assert!(vote.applies());
    assert!(!vote.does_not_apply());
    assert_eq!(vote.total, 2);
}

#[test]
fn vote_does_not_apply_after_n_no() {
    let mut vote = FractionalVote::new(2, 3);
    for _ in 0..3 {
        assert!(vote.wants_more());
        assert_eq!(vote.record(VoteAnswer::No), Ok(()));
    }
    assert!(!vote.wants_more());
    assert!(!vote.applies());
    assert!(vote.does_not_apply());
}

#[test]
fn vote_errors_on_unexpected_stops() {
    let mut vote = FractionalVote::new(1, 5);
    assert_eq!(vote.record(VoteAnswer::NotStopped), Err("did not get a stop sequence"));
    assert_eq!(vote.record(VoteAnswer::OtherStopSequence), Err("expected yes/no stop sequence"));
    assert_eq!(vote.record(VoteAnswer::MissingStopSequence), Err("expected stop sequence"));
    assert_eq!(vote.total, 3);
    assert_eq!(vote.success, 0);
}

#[test]
fn vote_never_counts_more_yes_than_attempts() {
    let mut vote = FractionalVote::new(3, 4);
    let answers = [VoteAnswer::Yes, VoteAnswer::No, VoteAnswer::Yes, VoteAnswer::No];
    for answer in answers {
        if !vote.wants_more() {
            break;
        }
        let _ = vote.record(answer);
        assert!(vote.success <= vote.total && vote.total <= vote.n);
    }
}
