use policyai::baseline::baseline_request;
use policyai::json::json_eq;
use policyai::message::MessageRole;
use policyai::{Json, Policy, PolicyType};

fn object(members: Vec<(&str, Json)>) -> Json {
    Json::Object(members.into_iter().map(|(k, v)| (k.to_string(), v)).collect())
}

fn string(s: &str) -> Json {
    Json::String(s.to_string())
}

fn policy(definition: &str, prompt: &str) -> Policy {
    Policy {
        policy_type: PolicyType::parse(definition).unwrap(),
        prompt: prompt.to_string(),
        action: Json::Object(vec![]),
    }
}

#[test]
fn baseline_request_lists_rules_then_text() {
    let policies = vec![
        policy("type A { urgent: bool, level: [\"low\", \"high\"] }", "Mark urgent mail."),
        policy("type B { tags: [string], score: number, urgent: string }", "Tag the mail."),
    ];
    let (messages, schema) = baseline_request(&policies, "Hello there");
    assert_eq!(messages.len(), 3);
    assert!(messages.iter().all(|m| m.role == MessageRole::User));
    assert_eq!(messages[0].content, "<rule>Mark urgent mail.</rule>");
    assert_eq!(messages[1].content, "<rule>Tag the mail.</rule>");
    assert_eq!(messages[2].content, "<text>Hello there</text>");
    let expected = object(vec![
        ("type", string("object")),
        ("required", Json::Array(vec![])),
        (
            "properties",
            object(vec![
                ("urgent", object(vec![("type", string("string"))])),
                (
                    "level",
                    object(vec![("type", string("string")), ("enum", Json::Array(vec![string("low"), string("high")]))]),
                ),
                ("tags", object(vec![("type", string("array")), ("items", object(vec![("type", string("string"))]))])),
                ("score", object(vec![("type", string("number"))])),
            ]),
        ),
    ]);
    assert!(json_eq(&schema, &expected));
}

#[test]
fn baseline_request_without_policies_sends_only_the_text() {
    let (messages, schema) = baseline_request(&vec![], "x");
    assert_eq!(messages.len(), 1);
    assert_eq!(messages[0].content, "<text>x</text>");
    let expected = object(vec![
        ("type", string("object")),
        ("required", Json::Array(vec![])),
        ("properties", object(vec![])),
    ]);
    assert!(json_eq(&schema, &expected));
}
