use policyai::compiler::{
    compile, compile_manager, compile_policies, compile_with_validator, CompileError, parse_injection_action, parse_injection_actions, CompileErrorKind,
    CompiledPolicySet, InjectionAction,
};
use policyai::json::json_eq;
use policyai::{Field, Json, JsonNumber, OnConflict, PolicyType};

fn policy_type() -> PolicyType {
    PolicyType {
        name: "TestPolicy".to_string(),
        fields: vec![
            Field::Bool {
                name: "enabled".to_string(),
                default: false,
                on_conflict: OnConflict::Default,
            },
            Field::Number {
                name: "score".to_string(),
                default: None,
                on_conflict: OnConflict::LargestValue,
            },
            Field::String {
                name: "note".to_string(),
                default: None,
                on_conflict: OnConflict::Agreement,
            },
            Field::StringEnum {
                name: "action".to_string(),
                values: vec!["skip".to_string(), "to_take".to_string()],
                default: None,
                on_conflict: OnConflict::LargestValue,
            },
            Field::StringArray {
                name: "labels".to_string(),
            },
        ],
    }
}

fn object(members: Vec<(&str, Json)>) -> Json {
    Json::Object(members.into_iter().map(|(k, v)| (k.to_string(), v)).collect())
}

fn text(s: &str) -> Json {
    Json::String(s.to_string())
}

fn number(s: &str) -> Json {
    Json::Number(JsonNumber::from_literal(s.to_string()))
}

#[test]
fn parse_one_injection_action() {
    let parsed = parse_injection_action(r#"injection {"action": "to_take"}"#).unwrap();

    assert_eq!("injection", parsed.injection);
    assert!(json_eq(&object(vec![("action", text("to_take"))]), &parsed.action));
}

#[test]
fn parse_uses_longest_valid_json_suffix() {
    let parsed = parse_injection_action(r#"Found {old: value} in text {"note": "new"}"#).unwrap();

    assert_eq!("Found {old: value} in text", parsed.injection);
    assert!(json_eq(&object(vec![("note", text("new"))]), &parsed.action));
}

#[test]
fn parse_multiple_lines_ignores_empty_lines() {
    let parsed = parse_injection_actions(
        r#"
enabled rule {"enabled": true}

score rule {"score": 1.5}
"#,
    )
    .unwrap();

    assert_eq!(2, parsed.len());
    assert_eq!("enabled rule", parsed[0].injection);
    assert!(json_eq(&object(vec![("score", number("1.5"))]), &parsed[1].action));
}

#[test]
fn parse_error_has_line_number() {
    let err = parse_injection_actions("valid {\"enabled\": true}\ninvalid").unwrap_err();

    assert_eq!(Some(2), err.line());
    assert!(matches!(err.kind(), CompileErrorKind::NoValidJson));
    assert_eq!("line 2: no valid JSON found at end of line", err.to_text());
}

#[test]
fn parse_empty_line_is_an_error() {
    let err = parse_injection_action("   ").unwrap_err();
    assert_eq!(None, err.line());
    assert!(matches!(err.kind(), CompileErrorKind::EmptyLine));
    assert_eq!("empty line cannot be parsed", err.to_text());
}

#[test]
fn parse_line_that_is_only_json_has_empty_injection() {
    let parsed = parse_injection_action(r#"{"enabled": true}"#).unwrap();
    assert_eq!("", parsed.injection);
    assert!(json_eq(&object(vec![("enabled", Json::Bool(true))]), &parsed.action));
}

#[test]
fn compile_binds_to_policy_type() {
    let compiled = compile(
        policy_type(),
        r#"
injection {"action": "to_take"}
other {"enabled": true, "score": 2, "note": null, "labels": ["a", "b"]}
"#,
    )
    .unwrap();

    assert_eq!(2, compiled.len());
    let policies = compiled.policies();
    assert_eq!("TestPolicy", policies[0].policy_type.name);
    assert_eq!("injection", policies[0].prompt);
    assert!(json_eq(&object(vec![("action", text("to_take"))]), &policies[0].action));
    assert_eq!(2, policies.len());
}

#[test]
fn compile_rejects_non_object_actions() {
    let err = compile(policy_type(), "bad true").unwrap_err();

    assert_eq!(Some(1), err.line());
    match err.kind() {
        CompileErrorKind::ActionNotObject { actual } => assert_eq!(actual, "bool"),
        other => panic!("unexpected {other:?}"),
    }
    assert_eq!("line 1: policy action must be a JSON object, got bool", err.to_text());
}

#[test]
fn compile_rejects_unknown_fields() {
    let err = compile(policy_type(), r#"bad {"unknown": true}"#).unwrap_err();

    match err.kind() {
        CompileErrorKind::UnknownField { field } => assert_eq!(field, "unknown"),
        other => panic!("unexpected {other:?}"),
    }
    assert_eq!("line 1: unknown policy field \"unknown\"", err.to_text());
}

#[test]
fn compile_rejects_wrong_field_types() {
    let err = compile(policy_type(), r#"bad {"enabled": "true"}"#).unwrap_err();

    match err.kind() {
        CompileErrorKind::InvalidFieldValue { field, expected, actual } => {
            assert_eq!(field, "enabled");
            assert_eq!(expected, "bool");
            assert_eq!(actual, "string");
        }
        other => panic!("unexpected {other:?}"),
    }
    assert_eq!("line 1: invalid value for field \"enabled\": expected bool, got string", err.to_text());
}

#[test]
fn compile_rejects_invalid_enum_values() {
    let err = compile(policy_type(), r#"bad {"action": "archive"}"#).unwrap_err();

    match err.kind() {
        CompileErrorKind::InvalidEnumValue { field, value, allowed } => {
            assert_eq!(field, "action");
            assert_eq!(value, "archive");
            assert_eq!(allowed, &vec!["skip".to_string(), "to_take".to_string()]);
        }
        other => panic!("unexpected {other:?}"),
    }
    assert_eq!(
        "line 1: invalid enum value for field \"action\": got \"archive\", expected one of \"skip\", \"to_take\"",
        err.to_text()
    );
}

#[test]
fn compile_rejects_non_string_array_elements() {
    let err = compile(policy_type(), r#"bad {"labels": ["a", 1]}"#).unwrap_err();
    match err.kind() {
        CompileErrorKind::InvalidFieldValue { field, expected, actual } => {
            assert_eq!(field, "labels");
            assert_eq!(expected, "array of strings");
            assert_eq!(actual, "array");
        }
        other => panic!("unexpected {other:?}"),
    }
}

#[test]
fn compiled_policy_set_constructs_manager() {
    let manager = compile_manager(
        policy_type(),
        r#"
enabled {"enabled": true}
action {"action": "to_take"}
"#,
    )
    .unwrap();

    assert_eq!(2, manager.len());
}

#[test]
fn pre_parsed_injections_can_be_validated() {
    let injections = vec![InjectionAction::new("action".to_string(), object(vec![("action", text("to_take"))]))];
    let compiled = CompiledPolicySet::new(policy_type(), injections).unwrap();

    assert_eq!(1, compiled.len());
}

#[test]
fn pre_parsed_injections_are_checked() {
    let injections = vec![InjectionAction::new("bad".to_string(), object(vec![("unknown", Json::Bool(true))]))];
    let err = CompiledPolicySet::new(policy_type(), injections).unwrap_err();
    assert_eq!(None, err.line());
    assert_eq!("unknown policy field \"unknown\"", err.to_text());
}

#[test]
fn compile_policies_keeps_order() {
    let policies = compile_policies(policy_type(), "first {\"enabled\": true}\nsecond {\"score\": 3}\n").unwrap();
    assert_eq!(2, policies.len());
    assert_eq!("first", policies[0].prompt);
    assert_eq!("second", policies[1].prompt);
    assert!(json_eq(&object(vec![("score", number("3"))]), &policies[1].action));
}

#[test]
fn compiled_set_iterates_in_order() {
    let compiled = CompiledPolicySet::parse(policy_type(), "a {\"enabled\": true}\n\nb {\"note\": \"x\"}").unwrap();
    let names: Vec<&str> = compiled.iter().iter().map(|i| i.injection.as_str()).collect();
    assert_eq!(names, vec!["a", "b"]);
    assert!(!compiled.is_empty());
}

/// An extra check that refuses actions which set `enabled`, as a caller's
/// own action type without that field would.
fn refuse_enabled(action: &Json, line: Option<usize>) -> Result<(), CompileError> {
    let sets_enabled = match action {
        Json::Object(m) => m.iter().any(|(k, _)| k == "enabled"),
        _ => false,
    };
    if sets_enabled {
        let kind = CompileErrorKind::InvalidActionType {
            rust_type: "Decision".to_string(),
            error: "unknown field `enabled`".to_string(),
        };
        Err(match line {
            Some(n) => CompileError::with_line(n, kind),
            None => CompileError::new(kind),
        })
    } else {
        Ok(())
    }
}

#[test]
fn compile_with_validator_accepts_checked_actions() {
    let compiled = compile_with_validator(
        policy_type(),
        r#"injection {"action": "to_take", "labels": ["x"]}"#,
        refuse_enabled,
    )
    .unwrap();

    assert_eq!(1, compiled.len());
    assert!(json_eq(
        &object(vec![("action", text("to_take")), ("labels", Json::Array(vec![text("x")]))]),
        &compiled.injections[0].action
    ));
}

#[test]
fn compile_with_validator_reports_the_check_with_its_line() {
    let err = compile_with_validator(policy_type(), "\nok {\"score\": 1}\nbad {\"enabled\": true}", refuse_enabled)
        .unwrap_err();

    assert_eq!(Some(3), err.line());
    match err.kind() {
        CompileErrorKind::InvalidActionType { rust_type, error } => {
            assert!(rust_type.contains("Decision"));
            assert!(error.contains("unknown field"));
        }
        other => panic!("unexpected {other:?}"),
    }
}

#[test]
fn compile_with_validator_stops_at_the_first_failing_line() {
    // The check fails on line 1 before line 2 is read at all.
    let err = compile_with_validator(policy_type(), "bad {\"enabled\": true}\nnot json at all", refuse_enabled)
        .unwrap_err();

    assert_eq!(Some(1), err.line());
    assert!(matches!(err.kind(), CompileErrorKind::InvalidActionType { .. }));
}

#[test]
fn compile_with_validator_checks_the_type_before_the_extra_check() {
    let err = compile_with_validator(policy_type(), r#"bad {"enabled": 3}"#, refuse_enabled).unwrap_err();

    assert_eq!(Some(1), err.line());
    assert!(matches!(err.kind(), CompileErrorKind::InvalidFieldValue { .. }));
}

#[test]
fn new_with_validator_checks_each_declaration_in_order() {
    let injections = vec![
        InjectionAction { injection: "a".to_string(), action: object(vec![("score", number("1"))]) },
        InjectionAction { injection: "b".to_string(), action: object(vec![("enabled", Json::Bool(true))]) },
        InjectionAction { injection: "c".to_string(), action: object(vec![("unknown", Json::Bool(true))]) },
    ];

    let err = CompiledPolicySet::new_with_validator(policy_type(), injections, refuse_enabled).unwrap_err();

    assert_eq!(None, err.line());
    assert!(matches!(err.kind(), CompileErrorKind::InvalidActionType { .. }));
}

#[test]
fn new_with_validator_keeps_accepted_declarations() {
    let injections = vec![InjectionAction { injection: "a".to_string(), action: object(vec![("score", number("1"))]) }];

    let set = CompiledPolicySet::new_with_validator(policy_type(), injections, refuse_enabled).unwrap();

    assert_eq!(1, set.len());
    assert_eq!("a", set.injections[0].injection);
}
