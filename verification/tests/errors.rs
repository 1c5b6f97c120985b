use policyai::{ApplyError, Conflict, Field, Json, JsonNumber, OnConflict, PolicyError};

#[test]
fn policy_error_text_invariant_violation() {
    let e = PolicyError::InvariantViolation { file: "src/x.rs".to_string(), line: 42, message: "broken".to_string() };
    assert_eq!(
        e.to_text(),
        "Internal error at src/x.rs:42: broken\nThis is likely a bug in PolicyAI. Please report it at https://github.com/rescrv/policyai/issues"
    );
}

#[test]
fn policy_error_text_expected_bool() {
    let e = PolicyError::expected_bool("flag".to_string(), &Json::String("yes".to_string()));
    assert_eq!(
        e.to_text(),
        "Type mismatch for field 'flag': expected boolean value but got string\nSuggestion: Ensure the policy action provides a boolean value for this field"
    );
}

#[test]
fn policy_error_text_default_conflict_writes_json() {
    let e = PolicyError::DefaultConflict {
        field: "score".to_string(),
        existing: Json::Number(JsonNumber::from_literal("1".to_string())),
        new: Json::Array(vec![Json::String("a\"b".to_string()), Json::Null]),
        suggestion: "pick one".to_string(),
    };
    assert_eq!(
        e.to_text(),
        "Default value conflict for field 'score':\n  Existing: 1\n  New: [\"a\\\"b\",null]\nSuggestion: pick one"
    );
}

#[test]
fn policy_error_text_inconsistent_field() {
    let e = PolicyError::Inconsistent {
        field: Field::Bool { name: "flag".to_string(), default: true, on_conflict: OnConflict::Agreement },
    };
    assert_eq!(
        e.to_text(),
        "Inconsistent field configuration: flag: bool @ agreement = true\nSuggestion: Check that the field type and conflict resolution strategy are compatible"
    );
}

#[test]
fn policy_error_text_type_check_failure() {
    let e = PolicyError::TypeCheckFailure {
        file: "src/masks.rs".to_string(),
        line: 7,
        message: "expected boolean for x".to_string(),
        expected: "bool".to_string(),
        actual: "string".to_string(),
    };
    assert_eq!(
        e.to_text(),
        "Type check failure at src/masks.rs:7: expected boolean for x\n  Expected: bool\n  Actual: string\nSuggestion: Verify that your policy actions match the policy type definition"
    );
}

#[test]
fn apply_error_text_invalid_response() {
    let e = ApplyError::invalid_response("bad answer".to_string(), "ask again".to_string());
    assert_eq!(e.to_text(), "Invalid LLM response: bad answer\nSuggestion: ask again");
}

#[test]
fn apply_error_text_too_many_iterations() {
    let e = ApplyError::too_many_iterations(5, "mismatch".to_string());
    assert_eq!(
        e.to_text(),
        "Failed to apply policies after 5 attempts\nLast error: mismatch\nSuggestion: Simplify your policies or check for contradictory rules"
    );
}

#[test]
fn apply_error_text_policy() {
    let e = ApplyError::Policy(PolicyError::InvariantViolation {
        file: "src/x.rs".to_string(),
        line: 7,
        message: "broken".to_string(),
    });
    assert_eq!(
        e.to_text(),
        "Policy error: Internal error at src/x.rs:7: broken\nThis is likely a bug in PolicyAI. Please report it at https://github.com/rescrv/policyai/issues"
    );
}

#[test]
fn apply_error_text_conflicts_debug_their_values() {
    let suggestion = "\nSuggestion: Review your policies for conflicting rules and adjust their conflict resolution strategies";
    let e = ApplyError::Conflict(Conflict::BoolConflict { field: "x".to_string(), val1: true, val2: false });
    assert_eq!(e.to_text(), format!("Policy conflict: BoolConflict {{ field: \"x\", val1: true, val2: false }}{suggestion}"));

    let e = ApplyError::Conflict(Conflict::NumberConflict {
        field: "n".to_string(),
        val1: JsonNumber::from_literal("1".to_string()),
        val2: JsonNumber::from_literal("2".to_string()),
    });
    assert_eq!(e.to_text(), format!("Policy conflict: NumberConflict {{ field: \"n\", val1: Number(1), val2: Number(2) }}{suggestion}"));

    let e = ApplyError::Conflict(Conflict::StringConflict {
        field: "s".to_string(),
        val1: "a\"b".to_string(),
        val2: "c".to_string(),
    });
    assert_eq!(e.to_text(), format!("Policy conflict: StringConflict {{ field: \"s\", val1: \"a\\\"b\", val2: \"c\" }}{suggestion}"));

    let e = ApplyError::Conflict(Conflict::Disagree {
        name: "d".to_string(),
        value1: Json::String("x".to_string()),
        value2: Json::Array(vec![Json::Bool(true), Json::Null]),
    });
    assert_eq!(
        e.to_text(),
        format!("Policy conflict: Disagree {{ name: \"d\", value1: String(\"x\"), value2: Array [Bool(true), Null] }}{suggestion}")
    );
}
