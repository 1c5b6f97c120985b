use policyai::json::json_eq;
use policyai::semantic::{
    coerce_action_value, extract_json_content, masked_injection, replace_token, semantic_schema,
    unmask_semantic_action,
};
use policyai::{Field, Json, JsonNumber, OnConflict, PolicyType};

fn email_type() -> PolicyType {
    PolicyType {
        name: "policyai::EmailPolicy".to_string(),
        fields: vec![
            Field::Bool {
                name: "unread".to_string(),
                default: true,
                on_conflict: OnConflict::Default,
            },
            Field::StringEnum {
                name: "priority".to_string(),
                values: vec!["low".to_string(), "medium".to_string(), "high".to_string()],
                default: None,
                on_conflict: OnConflict::LargestValue,
            },
            Field::StringArray {
                name: "labels".to_string(),
            },
        ],
    }
}

fn object(members: Vec<(&str, Json)>) -> Json {
    Json::Object(members.into_iter().map(|(k, v)| (k.to_string(), v)).collect())
}

fn text(s: &str) -> Json {
    Json::String(s.to_string())
}

fn uuid_shaped(s: &str) -> bool {
    let groups: Vec<&str> = s.split('-').collect();
    groups.len() == 5
        && groups.iter().map(|g| g.len()).collect::<Vec<_>>() == vec![8, 4, 4, 4, 12]
        && s.chars().all(|c| c == '-' || c.is_ascii_hexdigit())
}

#[test]
fn replace_token_replaces_whole_tokens_ignoring_case() {
    assert_eq!(replace_token("Set Priority to high", "priority", "X"), "Set X to high");
    assert_eq!(replace_token("priorityish priority", "priority", "X"), "priorityish X");
    assert_eq!(replace_token("a_b a b", "a", "Z"), "a_b Z b");
    assert_eq!(replace_token("", "a", "Z"), "");
}

#[test]
fn coerce_action_value_cases() {
    let bool_field = Field::Bool { name: "b".to_string(), default: false, on_conflict: OnConflict::Default };
    let mut v = text("false");
    assert!(coerce_action_value(&bool_field, &mut v));
    assert!(json_eq(&v, &Json::Bool(false)));
    let mut v = text("no");
    assert!(!coerce_action_value(&bool_field, &mut v));

    let number_field = Field::Number { name: "n".to_string(), default: None, on_conflict: OnConflict::Default };
    let mut v = text("7");
    assert!(coerce_action_value(&number_field, &mut v));
    assert!(json_eq(&v, &Json::Number(JsonNumber::from_literal("7".to_string()))));
    let mut v = text("seven");
    assert!(!coerce_action_value(&number_field, &mut v));

    let enum_field = Field::StringEnum {
        name: "e".to_string(),
        values: vec!["x".to_string()],
        default: None,
        on_conflict: OnConflict::Default,
    };
    assert!(coerce_action_value(&enum_field, &mut text("x")));
    assert!(!coerce_action_value(&enum_field, &mut text("y")));

    let array_field = Field::StringArray { name: "a".to_string() };
    assert!(coerce_action_value(&array_field, &mut Json::Array(vec![text("x")])));
    assert!(!coerce_action_value(&array_field, &mut Json::Array(vec![Json::Null])));
}

#[test]
fn semantic_masks_are_uuids_one_per_field() {
    let masks = email_type().semantic_masks();
    assert_eq!(masks.len(), 3);
    assert_eq!(masks[0].name, "unread");
    assert_eq!(masks[1].name, "priority");
    assert_eq!(masks[2].name, "labels");
    for m in masks.iter() {
        assert!(uuid_shaped(&m.mask), "{}", m.mask);
    }
    assert_eq!(masks[1].enum_values.len(), 3);
    assert_eq!(masks[1].enum_values[2].0, "high");
    assert!(uuid_shaped(&masks[1].enum_values[2].1));
    assert_ne!(masks[0].mask, masks[2].mask);
}

#[test]
fn masked_injection_hides_names_and_enum_values() {
    let masks = email_type().semantic_masks();
    let masked = masked_injection("If it is about AI, set \"priority\" to \"high\" and add a label.", &masks);
    let priority = &masks[1].mask;
    let high = &masks[1].enum_values[2].1;
    let labels = &masks[2].mask;
    assert_eq!(masked, format!("set \"{priority}\" to \"{high}\" and add a {labels}."));
}

#[test]
fn semantic_schema_requires_masks_that_occur() {
    let masks = email_type().semantic_masks();
    let masked = format!("set {} to true", masks[0].mask);
    let schema = semantic_schema(&masked, &masks);
    let required = schema.get("required").unwrap();
    assert!(json_eq(required, &Json::Array(vec![Json::String(masks[0].mask.clone())])));
    assert!(json_eq(schema.get("type").unwrap(), &text("object")));
    assert!(json_eq(schema.get("additionalProperties").unwrap(), &Json::Bool(false)));
    let properties = schema.get("properties").unwrap();
    assert!(json_eq(properties.get(&masks[0].mask).unwrap(), &object(vec![("type", text("boolean"))])));
}

#[test]
fn unmask_semantic_action_restores_names_and_values() {
    let masks = email_type().semantic_masks();
    let mut action = Json::Object(vec![
        (masks[1].mask.clone(), Json::String(masks[1].enum_values[0].1.clone())),
        ("stray".to_string(), Json::Bool(true)),
        (masks[0].mask.clone(), Json::Bool(false)),
    ]);
    unmask_semantic_action(&masks, &mut action);
    let expected = object(vec![("unread", Json::Bool(false)), ("priority", text("low"))]);
    assert!(json_eq(&expected, &action), "{action:?}");
}

#[test]
fn extract_json_content_from_code_block() {
    assert_eq!(extract_json_content("Here:\n```json\n {\"a\": 1} \n```\nthanks"), "{\"a\": 1}");
}

#[test]
fn extract_json_content_from_braces() {
    assert_eq!(extract_json_content("The answer is {\"a\": {\"b\": 2}} ok"), "{\"a\": {\"b\": 2}}");
}

#[test]
fn extract_json_content_falls_back_to_trimmed_text() {
    assert_eq!(extract_json_content("  true  "), "true");
    assert_eq!(extract_json_content("```json {\"a\": 1}"), "```json {\"a\": 1}");
}

#[test]
fn semantic_policy_builds_policy_from_answer() {
    let policy_type = email_type();
    let masks = policy_type.semantic_masks();
    let answer = Json::Object(vec![
        (masks[0].mask.clone(), text("true")),
        (masks[1].mask.clone(), Json::String(masks[1].enum_values[1].1.clone())),
    ]);
    let policy = policy_type.semantic_policy("When unread, mark it", &masks, answer);
    assert_eq!(policy.prompt, "When unread, mark it");
    assert!(policy.policy_type.same(&policy_type));
    let expected = object(vec![("unread", Json::Bool(true)), ("priority", text("medium"))]);
    assert!(json_eq(&expected, &policy.action), "{:?}", policy.action);
}
