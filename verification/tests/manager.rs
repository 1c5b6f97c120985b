use policyai::json::json_eq;
use policyai::manager::{
    check_rule_numbers, extract_ir, reported_rule_numbers, FeedbackTarget, InferenceConfig, ReplyBlock, RuleCheck,
};
use policyai::report_builder::{Attempt, Next, Retries, MAX_ATTEMPTS};
use policyai::{ApplyError, Field, Json, JsonNumber, Manager, OnConflict, Policy, PolicyError, PolicyType};

fn create_test_policy_type() -> PolicyType {
    PolicyType {
        name: "TestPolicy".to_string(),
        fields: vec![
            Field::Bool {
                name: "is_active".to_string(),
                default: false,
                on_conflict: OnConflict::Default,
            },
            Field::String {
                name: "message".to_string(),
                default: Some("default".to_string()),
                on_conflict: OnConflict::Agreement,
            },
            Field::Number {
                name: "count".to_string(),
                default: Some(JsonNumber::from_literal("0".to_string())),
                on_conflict: OnConflict::LargestValue,
            },
        ],
    }
}

fn object(members: Vec<(&str, Json)>) -> Json {
    Json::Object(members.into_iter().map(|(k, v)| (k.to_string(), v)).collect())
}

fn create_test_policy(policy_type: PolicyType, prompt: &str, action: Json) -> Policy {
    Policy { policy_type, prompt: prompt.to_string(), action }
}

fn member<'a>(j: &'a Json, key: &str) -> &'a Json {
    j.get(key).unwrap_or_else(|| panic!("no member {key}"))
}

fn property_names(schema: &Json) -> Vec<String> {
    match member(schema, "properties") {
        Json::Object(m) => m.iter().map(|(k, _)| k.clone()).collect(),
        other => panic!("unexpected {other:?}"),
    }
}

#[test]
fn manager_default_is_empty() {
    let manager = Manager::default();
    assert!(manager.is_empty());
    assert_eq!(manager.len(), 0);
    assert_eq!(manager.inference_config(), InferenceConfig::ToolUse);
}

#[test]
fn manager_inference_config_can_be_set_before_apply() {
    let mut manager = Manager::default().with_inference_config(InferenceConfig::StrictToolUse);
    assert_eq!(manager.inference_config(), InferenceConfig::StrictToolUse);

    manager.set_inference_config(InferenceConfig::OutputFormatJsonSchema);
    assert_eq!(manager.inference_config(), InferenceConfig::OutputFormatJsonSchema);
}

#[test]
fn manager_add_single_policy() {
    let mut manager = Manager::default();
    let policy = create_test_policy(create_test_policy_type(), "test prompt", object(vec![("is_active", Json::Bool(true))]));

    manager.add(policy);
    assert!(!manager.is_empty());
    assert_eq!(manager.len(), 1);
}

#[test]
fn manager_add_multiple_policies_same_type() {
    let mut manager = Manager::default();
    let policy_type = create_test_policy_type();

    let policy1 = create_test_policy(policy_type.copy(), "first prompt", object(vec![("is_active", Json::Bool(true))]));
    let policy2 = create_test_policy(
        policy_type.copy(),
        "second prompt",
        object(vec![("message", Json::String("hello".to_string()))]),
    );
    let policy3 = create_test_policy(
        policy_type,
        "third prompt",
        object(vec![("count", Json::Number(JsonNumber::from_literal("42".to_string())))]),
    );

    manager.add(policy1);
    manager.add(policy2);
    manager.add(policy3);

    assert_eq!(manager.len(), 3);
}

#[test]
fn manager_try_add_policy_different_type_returns_error() {
    let mut manager = Manager::default();

    let type1 = create_test_policy_type();
    let type2 = PolicyType {
        name: "DifferentPolicy".to_string(),
        fields: vec![Field::Bool {
            name: "enabled".to_string(),
            default: true,
            on_conflict: OnConflict::Default,
        }],
    };

    let policy1 = create_test_policy(type1, "first", object(vec![("is_active", Json::Bool(true))]));
    let policy2 = create_test_policy(type2, "second", object(vec![("enabled", Json::Bool(false))]));

    manager.add(policy1);
    let err = manager.try_add(policy2).unwrap_err();
    assert!(matches!(err, PolicyError::PolicyTypeMismatch { .. }));
    assert_eq!(manager.len(), 1);
}

#[test]
fn manager_debug_format() {
    let manager = Manager::default();
    let debug_str = format!("{manager:?}");
    assert!(debug_str.contains("Manager"));
    assert!(debug_str.contains("policies"));
}

#[test]
fn manager_request_for_empty_manager() {
    let manager = Manager::default();
    let builder = manager.report_builder().unwrap();
    let schema = builder.schema();
    assert_eq!(property_names(&schema), vec!["__rule_numbers__".to_string()]);
    assert!(builder.messages().is_empty());
}

#[test]
fn manager_request_for_with_policies() {
    let mut manager = Manager::default();
    let policy_type = create_test_policy_type();
    manager.add(create_test_policy(
        policy_type.copy(),
        "if urgent then",
        object(vec![
            ("is_active", Json::Bool(true)),
            ("count", Json::Number(JsonNumber::from_literal("10".to_string()))),
        ]),
    ));
    manager.add(create_test_policy(
        policy_type,
        "if contains hello then",
        object(vec![("message", Json::String("greeting".to_string()))]),
    ));

    let builder = manager.report_builder().unwrap();
    let schema = builder.schema();
    let names = property_names(&schema);
    assert!(names.contains(&"__rule_numbers__".to_string()));
    let masked: Vec<&String> = names.iter().filter(|k| !k.starts_with("__")).collect();
    assert_eq!(masked.len(), 3, "Expected 3 masked fields");

    let mut has_boolean = false;
    let mut has_string = false;
    let mut has_number = false;
    for name in masked {
        let property = member(member(&schema, "properties"), name);
        match member(property, "type") {
            Json::String(t) if t == "boolean" => has_boolean = true,
            Json::String(t) if t == "string" => has_string = true,
            Json::String(t) if t == "number" => has_number = true,
            _ => {}
        }
    }
    assert!(has_boolean, "Should have a boolean field (is_active)");
    assert!(has_string, "Should have a string field (message)");
    assert!(has_number, "Should have a number field (count)");
    assert!(!builder.messages().is_empty());
}

#[test]
fn reported_rule_numbers_reads_arrays_of_numbers() {
    let ir = object(vec![(
        "__rule_numbers__",
        Json::Array(vec![
            Json::Number(JsonNumber::from_literal("2".to_string())),
            Json::Number(JsonNumber::from_literal("1".to_string())),
        ]),
    )]);
    assert_eq!(reported_rule_numbers(&ir), Some(vec![2, 1]));
    let bad = object(vec![("__rule_numbers__", Json::String("1".to_string()))]);
    assert_eq!(reported_rule_numbers(&bad), None);
    assert_eq!(reported_rule_numbers(&Json::object()), None);
}

#[test]
fn check_rule_numbers_accepts_same_sets() {
    let masks = vec![vec!["aaaaaa".to_string()], vec!["bbbbbb".to_string()]];
    assert!(matches!(check_rule_numbers(&masks, &vec![2, 1, 2], &vec![1, 2], 1, 5), RuleCheck::Consistent));
}

#[test]
fn check_rule_numbers_explains_mismatch() {
    let masks = vec![vec!["aaaaaa".to_string()], vec!["bbbbbb".to_string()]];
    match check_rule_numbers(&masks, &vec![1], &vec![2], 3, 5) {
        RuleCheck::Inconsistent { content, last_error } => {
            assert!(content.contains("1 was not present in rule numbers, but \"aaaaaa\" was set."), "{content}");
            assert!(content.contains("2 was present in rule numbers, but \"bbbbbb\" was not set."), "{content}");
            assert_eq!(last_error, "Attempt 3/5: Rule mismatch - empirically matched [1] but reportedly matched [2]");
        }
        RuleCheck::Consistent => panic!("expected a mismatch"),
    }
}

#[test]
fn judge_reads_matching_answer_into_report() {
    let mut manager = Manager::default();
    manager.add(create_test_policy(create_test_policy_type(), "if urgent", object(vec![("is_active", Json::Bool(true))])));
    let builder = manager.report_builder().unwrap();
    let names = property_names(&builder.schema());
    let mask = names.iter().find(|k| !k.starts_with("__")).unwrap().clone();
    let ir = Json::Object(vec![
        ("__rule_numbers__".to_string(), Json::Array(vec![Json::Number(JsonNumber::from_literal("1".to_string()))])),
        (mask, Json::Bool(true)),
    ]);
    match builder.judge(ir, 1, 5).unwrap() {
        Attempt::Matched(report) => {
            // Only the fields the rule's action sets have masks; the others
            // get no value.
            let expected = object(vec![("is_active", Json::Bool(true))]);
            assert!(json_eq(&expected, &report.value()), "{:?}", report.value());
            assert_eq!(report.rules_matched(), &vec![1]);
        }
        other => panic!("unexpected {other:?}"),
    }
}

#[test]
fn judge_asks_again_without_rule_numbers() {
    let mut manager = Manager::default();
    manager.add(create_test_policy(create_test_policy_type(), "if urgent", object(vec![("is_active", Json::Bool(true))])));
    let builder = manager.report_builder().unwrap();
    assert!(matches!(builder.judge(Json::object(), 1, 5).unwrap(), Attempt::Unreadable));
}

#[test]
fn judge_reports_mismatch() {
    let mut manager = Manager::default();
    manager.add(create_test_policy(create_test_policy_type(), "if urgent", object(vec![("is_active", Json::Bool(true))])));
    let builder = manager.report_builder().unwrap();
    let ir = object(vec![(
        "__rule_numbers__",
        Json::Array(vec![Json::Number(JsonNumber::from_literal("1".to_string()))]),
    )]);
    match builder.judge(ir, 2, 5).unwrap() {
        Attempt::Mismatch { last_error, .. } => {
            assert_eq!(last_error, "Attempt 2/5: Rule mismatch - empirically matched [] but reportedly matched [1]");
        }
        other => panic!("unexpected {other:?}"),
    }
}

fn invalid_response(r: Result<policyai::manager::ExtractedIr, ApplyError>) -> (String, String) {
    match r {
        Err(ApplyError::InvalidResponse { message, suggestion }) => (message, suggestion),
        Err(other) => panic!("unexpected {other:?}"),
        Ok(_) => panic!("expected an invalid response"),
    }
}

#[test]
fn extract_ir_wants_exactly_one_block() {
    let (message, suggestion) = invalid_response(extract_ir(&vec![], InferenceConfig::ToolUse));
    assert_eq!("Expected exactly 1 content block, got 0", message);
    assert_eq!("Check that the LLM is configured correctly for the selected inference config", suggestion);

    let two = vec![ReplyBlock::Other, ReplyBlock::Text { text: "{}".to_string() }];
    let (message, _) = invalid_response(extract_ir(&two, InferenceConfig::OutputFormatJsonSchema));
    assert_eq!("Expected exactly 1 content block, got 2", message);
}

#[test]
fn extract_ir_reads_the_tool_input() {
    let blocks = vec![ReplyBlock::ToolUse { id: "toolu_1".to_string(), input: object(vec![("a", Json::Bool(true))]) }];
    let extracted = extract_ir(&blocks, InferenceConfig::StrictToolUse).unwrap();
    assert!(json_eq(&object(vec![("a", Json::Bool(true))]), &extracted.ir));
    match extracted.feedback {
        FeedbackTarget::Tool { tool_use_id } => assert_eq!("toolu_1", tool_use_id),
        other => panic!("unexpected {other:?}"),
    }

    let (message, suggestion) = invalid_response(extract_ir(&vec![ReplyBlock::Text { text: "{}".to_string() }], InferenceConfig::ToolUse));
    assert_eq!("Expected ToolUse content block", message);
    assert_eq!("The LLM should be using the output_json tool to provide structured output", suggestion);
}

#[test]
fn extract_ir_reads_trimmed_json_text() {
    let blocks = vec![ReplyBlock::Text { text: "  {\"a\": 2}\n".to_string() }];
    let extracted = extract_ir(&blocks, InferenceConfig::OutputFormatJsonSchema).unwrap();
    assert!(json_eq(&object(vec![("a", Json::Number(JsonNumber::from_literal("2".to_string())))]), &extracted.ir));
    assert!(matches!(extracted.feedback, FeedbackTarget::Text));

    let (message, suggestion) =
        invalid_response(extract_ir(&vec![ReplyBlock::Text { text: "not json".to_string() }], InferenceConfig::OutputFormatJsonSchema));
    assert!(message.starts_with("Could not parse JSON response: "));
    assert!(message.len() > "Could not parse JSON response: ".len());
    assert_eq!("Check that the model response is valid JSON for the configured schema", suggestion);

    let tool = vec![ReplyBlock::ToolUse { id: "t".to_string(), input: Json::Null }];
    let (message, suggestion) = invalid_response(extract_ir(&tool, InferenceConfig::OutputFormatJsonSchema));
    assert_eq!("Expected Text content block", message);
    assert_eq!("The LLM should return JSON text when OutputFormatJsonSchema is selected", suggestion);
}

#[test]
fn retries_ask_again_until_the_last_attempt() {
    let mut retries = Retries::new();
    for _ in 1..MAX_ATTEMPTS - 1 {
        assert!(retries.may_ask());
        assert!(matches!(retries.after(Attempt::Unreadable), Next::AskAgain { feedback: None }));
    }
    match retries.after(Attempt::Mismatch { content: "fix it".to_string(), last_error: "mismatch".to_string() }) {
        Next::AskAgain { feedback: Some(f) } => assert_eq!("fix it", f),
        other => panic!("unexpected {other:?}"),
    }
    assert!(retries.may_ask());
    match retries.after(Attempt::Unreadable) {
        Next::GiveUp(ApplyError::TooManyIterations { attempts, last_error }) => {
            assert_eq!(MAX_ATTEMPTS, attempts);
            assert_eq!(4, attempts);
            assert_eq!("mismatch", last_error);
        }
        other => panic!("unexpected {other:?}"),
    }
    assert!(!retries.may_ask());
}

#[test]
fn retries_finish_on_a_matched_answer() {
    let mut retries = Retries::new();
    let report = policyai::Report::new(vec![], vec![], vec![], vec![], vec![], vec![], vec![]);
    assert!(matches!(retries.after(Attempt::Matched(report)), Next::Finish(_)));
    assert_eq!(1, retries.answered);
}
