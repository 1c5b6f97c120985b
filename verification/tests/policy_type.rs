use policyai::json::json_eq;
use policyai::semantic::semantic_action_clause;
use policyai::{Field, Json, JsonNumber, OnConflict, PolicyType};

fn number(text: &str) -> JsonNumber {
    JsonNumber::from_literal(text.to_string())
}

fn object(members: Vec<(&str, Json)>) -> Json {
    Json::Object(members.into_iter().map(|(k, v)| (k.to_string(), v)).collect())
}

fn create_test_policy_type() -> PolicyType {
    PolicyType {
        name: "TestPolicy".to_string(),
        fields: vec![
            Field::Bool {
                name: "active".to_string(),
                default: true,
                on_conflict: OnConflict::Default,
            },
            Field::String {
                name: "title".to_string(),
                default: Some("untitled".to_string()),
                on_conflict: OnConflict::Agreement,
            },
            Field::StringEnum {
                name: "priority".to_string(),
                values: vec!["low".to_string(), "medium".to_string(), "high".to_string()],
                default: Some("low".to_string()),
                on_conflict: OnConflict::LargestValue,
            },
            Field::StringArray {
                name: "tags".to_string(),
            },
            Field::Number {
                name: "score".to_string(),
                default: Some(number("0")),
                on_conflict: OnConflict::LargestValue,
            },
        ],
    }
}

fn assert_roundtrip(original: &PolicyType) {
    let displayed = original.to_text();
    let parsed = PolicyType::parse(&displayed).expect("Failed to parse displayed PolicyType");
    assert!(original.same(&parsed), "{displayed}");
}

#[test]
fn policy_type_creation() {
    let policy_type = create_test_policy_type();
    assert_eq!(policy_type.name, "TestPolicy");
    assert_eq!(policy_type.fields.len(), 5);
}

#[test]
fn policy_type_parse_simple() {
    let input = "type SimplePolicy { active: bool = true }";
    let result = PolicyType::parse(input);
    assert!(result.is_ok());

    let policy_type = result.unwrap();
    assert_eq!(policy_type.name, "SimplePolicy");
    assert_eq!(policy_type.fields.len(), 1);

    match &policy_type.fields[0] {
        Field::Bool { name, default, .. } => {
            assert_eq!(name, "active");
            assert!(*default);
        }
        _ => panic!("Expected Bool field"),
    }
}

#[test]
fn policy_type_parse_multiple_fields() {
    let input = r#"type ComplexPolicy {
            enabled: bool = false,
            message: string = "hello",
            count: number = 42
        }"#;

    let result = PolicyType::parse(input);
    assert!(result.is_ok());

    let policy_type = result.unwrap();
    assert_eq!(policy_type.name, "ComplexPolicy");
    assert_eq!(policy_type.fields.len(), 3);
}

#[test]
fn policy_type_parse_with_enum() {
    let input = r#"type PolicyWithEnum {
            status: ["pending", "active", "completed"] = "pending"
        }"#;

    let result = PolicyType::parse(input);
    assert!(result.is_ok());

    let policy_type = result.unwrap();
    assert_eq!(policy_type.fields.len(), 1);

    match &policy_type.fields[0] {
        Field::StringEnum { name, values, default, .. } => {
            assert_eq!(name, "status");
            assert_eq!(values.len(), 3);
            assert_eq!(values[0], "pending");
            assert_eq!(values[1], "active");
            assert_eq!(values[2], "completed");
            assert_eq!(*default, Some("pending".to_string()));
        }
        _ => panic!("Expected StringEnum field"),
    }
}

#[test]
fn policy_type_parse_with_array() {
    let input = "type PolicyWithArray { tags: [string] }";
    let result = PolicyType::parse(input);
    assert!(result.is_ok());

    let policy_type = result.unwrap();
    assert_eq!(policy_type.fields.len(), 1);

    match &policy_type.fields[0] {
        Field::StringArray { name } => {
            assert_eq!(name, "tags");
        }
        _ => panic!("Expected StringArray field"),
    }
}

#[test]
fn policy_type_parse_with_conflict_strategies() {
    let input = r#"type ConflictPolicy {
            field1: bool @ agreement = false,
            field2: string @ agreement = "test",
            field3: number @ last wins = 10
        }"#;

    let result = PolicyType::parse(input);
    assert!(result.is_ok());

    let policy_type = result.unwrap();
    assert_eq!(policy_type.fields.len(), 3);

    match &policy_type.fields[0] {
        Field::Bool { on_conflict, .. } => assert_eq!(*on_conflict, OnConflict::Agreement),
        _ => panic!("Expected Bool field"),
    }
    match &policy_type.fields[1] {
        Field::String { on_conflict, .. } => assert_eq!(*on_conflict, OnConflict::Agreement),
        _ => panic!("Expected String field"),
    }
    match &policy_type.fields[2] {
        Field::Number { on_conflict, .. } => assert_eq!(*on_conflict, OnConflict::LargestValue),
        _ => panic!("Expected Number field"),
    }
}

#[test]
fn policy_type_parse_invalid_syntax() {
    let invalid_inputs = vec![
        "type",
        "type InvalidField { field: unknown }",
        "type MissingBrace { field: bool",
        "InvalidType { field: bool }",
        "type 123Invalid { field: bool }",
    ];

    for input in invalid_inputs {
        let result = PolicyType::parse(input);
        assert!(result.is_err(), "Expected parse error for: {input}");
    }
}

#[test]
fn policy_type_display() {
    let policy_type = PolicyType {
        name: "DisplayTest".to_string(),
        fields: vec![
            Field::Bool {
                name: "flag".to_string(),
                default: false,
                on_conflict: OnConflict::Default,
            },
            Field::String {
                name: "text".to_string(),
                default: None,
                on_conflict: OnConflict::Agreement,
            },
        ],
    };

    let display_str = policy_type.to_text();
    assert!(display_str.contains("type DisplayTest {"));
    assert!(display_str.contains("flag"));
    assert!(display_str.contains("text"));
    assert!(display_str.contains("}"));
}

#[test]
fn policy_type_display_exact_text() {
    let policy_type = PolicyType {
        name: "T".to_string(),
        fields: vec![Field::StringArray { name: "tags".to_string() }],
    };
    assert_eq!(policy_type.to_text(), "type T {\n    tags: [string],\n}");
}

#[test]
fn policy_type_equality() {
    let policy_type1 = PolicyType {
        name: "EqualityTest".to_string(),
        fields: vec![Field::Bool {
            name: "flag".to_string(),
            default: true,
            on_conflict: OnConflict::Default,
        }],
    };

    let policy_type2 = PolicyType {
        name: "EqualityTest".to_string(),
        fields: vec![Field::Bool {
            name: "flag".to_string(),
            default: true,
            on_conflict: OnConflict::Default,
        }],
    };

    let policy_type3 = PolicyType {
        name: "DifferentTest".to_string(),
        fields: vec![Field::Bool {
            name: "flag".to_string(),
            default: true,
            on_conflict: OnConflict::Default,
        }],
    };

    assert!(policy_type1.same(&policy_type2));
    assert!(!policy_type1.same(&policy_type3));
}

#[test]
fn policy_type_clone() {
    let original = create_test_policy_type();
    let cloned = original.copy();
    assert!(original.same(&cloned));
    assert_eq!(original.name, cloned.name);
    assert_eq!(original.fields.len(), cloned.fields.len());
}

#[test]
fn policy_type_debug() {
    let policy_type = PolicyType {
        name: "DebugTest".to_string(),
        fields: vec![],
    };

    let debug_str = format!("{policy_type:?}");
    assert!(debug_str.contains("PolicyType"));
    assert!(debug_str.contains("DebugTest"));
    assert!(debug_str.contains("fields"));
}

#[test]
fn sanitize_semantic_action_drops_unknown_fields() {
    let policy_type = create_test_policy_type();
    let mut action = object(vec![
        ("active", Json::Bool(true)),
        ("priority", Json::String("high".to_string())),
        ("extra", Json::String("ignored".to_string())),
    ]);

    policy_type.sanitize_semantic_action(&mut action);

    let expected = object(vec![("active", Json::Bool(true)), ("priority", Json::String("high".to_string()))]);
    assert!(json_eq(&expected, &action), "{action:?}");
}

#[test]
fn sanitize_semantic_action_coerces_simple_values() {
    let policy_type = create_test_policy_type();
    let mut action = object(vec![
        ("active", Json::String("true".to_string())),
        ("score", Json::String("42.5".to_string())),
        ("tags", Json::Array(vec![Json::String("example".to_string())])),
        ("extra", Json::String("ignored".to_string())),
    ]);

    policy_type.sanitize_semantic_action(&mut action);

    let expected = object(vec![
        ("active", Json::Bool(true)),
        ("score", Json::Number(number("42.5"))),
        ("tags", Json::Array(vec![Json::String("example".to_string())])),
    ]);
    assert!(json_eq(&expected, &action), "{action:?}");
}

#[test]
fn sanitize_semantic_action_drops_values_of_wrong_type() {
    let policy_type = create_test_policy_type();
    let mut action = object(vec![
        ("active", Json::String("maybe".to_string())),
        ("priority", Json::String("urgent".to_string())),
        ("title", Json::String("hello".to_string())),
    ]);

    policy_type.sanitize_semantic_action(&mut action);

    let expected = object(vec![("title", Json::String("hello".to_string()))]);
    assert!(json_eq(&expected, &action), "{action:?}");
}

#[test]
fn semantic_action_clause_removes_condition() {
    assert_eq!(
        "Set \"priority\" to \"low\" and \"unread\" to true.",
        semantic_action_clause("When the email is about AI:  Set \"priority\" to \"low\" and \"unread\" to true.")
    );
    assert_eq!(
        "set \"category\" to \"distributed systems\".",
        semantic_action_clause("If the user talks about Paxos, set \"category\" to \"distributed systems\".")
    );
    assert_eq!("Assign weight to the email.", semantic_action_clause("Assign weight to the email."));
}

#[test]
fn policy_type_display_parse_roundtrip_simple() {
    let original = PolicyType {
        name: "RoundTripTest".to_string(),
        fields: vec![Field::Bool {
            name: "active".to_string(),
            default: true,
            on_conflict: OnConflict::Default,
        }],
    };
    assert_roundtrip(&original);
}

#[test]
fn policy_type_display_parse_roundtrip_complex() {
    let original = PolicyType {
        name: "ComplexRoundTrip".to_string(),
        fields: vec![
            Field::Bool {
                name: "enabled".to_string(),
                default: false,
                on_conflict: OnConflict::Agreement,
            },
            Field::String {
                name: "title".to_string(),
                default: Some("default_title".to_string()),
                on_conflict: OnConflict::Default,
            },
            Field::Number {
                name: "count".to_string(),
                default: Some(number("42")),
                on_conflict: OnConflict::LargestValue,
            },
            Field::StringEnum {
                name: "priority".to_string(),
                values: vec!["low".to_string(), "medium".to_string(), "high".to_string()],
                default: Some("medium".to_string()),
                on_conflict: OnConflict::LargestValue,
            },
            Field::StringArray {
                name: "tags".to_string(),
            },
        ],
    };
    assert_roundtrip(&original);
}

#[test]
fn policy_type_display_parse_roundtrip_with_all_conflict_types() {
    let original = PolicyType {
        name: "ConflictRoundTrip".to_string(),
        fields: vec![
            Field::Bool {
                name: "field1".to_string(),
                default: true,
                on_conflict: OnConflict::Default,
            },
            Field::String {
                name: "field2".to_string(),
                default: Some("test".to_string()),
                on_conflict: OnConflict::Agreement,
            },
            Field::Number {
                name: "field3".to_string(),
                default: Some(number("100")),
                on_conflict: OnConflict::LargestValue,
            },
        ],
    };
    assert_roundtrip(&original);
}

#[test]
fn debug_parse_simple_with_default() {
    let input = "type Test {\n    field1: bool = true,\n}";
    let _pt = PolicyType::parse(input).expect("Failed to parse simple bool with default");
}

#[test]
fn debug_parse_with_conflict() {
    let input = "type Test {\n    field2: string @ agreement = \"test\",\n}";
    let _pt = PolicyType::parse(input).expect("Failed to parse string with agreement conflict");
}

#[test]
fn debug_parse_exact_failing_case() {
    let input = "type ConflictRoundTrip {\n    field1: bool = true,\n    field2: string @ agreement = \"test\",\n    field3: number @ last wins = 100,\n}";
    let _pt = PolicyType::parse(input).expect("Failed to parse exact failing case");
}

#[test]
fn policy_type_display_parse_roundtrip_empty_fields() {
    let original = PolicyType {
        name: "EmptyFieldsRoundTrip".to_string(),
        fields: vec![],
    };
    assert_roundtrip(&original);
}

#[test]
fn policy_type_display_parse_roundtrip_no_defaults() {
    let original = PolicyType {
        name: "NoDefaultsRoundTrip".to_string(),
        fields: vec![
            Field::String {
                name: "optional_string".to_string(),
                default: None,
                on_conflict: OnConflict::Agreement,
            },
            Field::Number {
                name: "optional_number".to_string(),
                default: None,
                on_conflict: OnConflict::Default,
            },
            Field::StringEnum {
                name: "optional_enum".to_string(),
                values: vec!["a".to_string(), "b".to_string()],
                default: None,
                on_conflict: OnConflict::LargestValue,
            },
        ],
    };
    assert_roundtrip(&original);
}

#[test]
fn policy_type_default_value() {
    let policy_type = create_test_policy_type();
    let expected = object(vec![
        ("active", Json::Bool(true)),
        ("title", Json::String("untitled".to_string())),
        ("priority", Json::String("low".to_string())),
        ("score", Json::Number(number("0"))),
    ]);
    assert!(json_eq(&expected, &policy_type.default_value()));
}

#[test]
fn qualified_name_roundtrip() {
    let original = PolicyType {
        name: "policyai::EmailPolicy".to_string(),
        fields: vec![
            Field::StringEnum {
                name: "priority".to_string(),
                values: vec!["low".to_string(), "say \"hi\"".to_string()],
                default: Some("low".to_string()),
                on_conflict: OnConflict::Agreement,
            },
            Field::Number {
                name: "weight".to_string(),
                default: Some(number("-2.5")),
                on_conflict: OnConflict::Default,
            },
        ],
    };
    assert_roundtrip(&original);
}

#[test]
fn policy_type_roundtrip_keeps_single_quotes() {
    let original = PolicyType {
        name: "Quotes".to_string(),
        fields: vec![Field::String {
            name: "note".to_string(),
            default: Some("it's \"fine\"".to_string()),
            on_conflict: OnConflict::Default,
        }],
    };
    assert_roundtrip(&original);
}

#[test]
fn policy_type_roundtrip_keeps_unescaped_non_ascii() {
    let original = PolicyType {
        name: "Accents".to_string(),
        fields: vec![
            Field::String {
                name: "greeting".to_string(),
                default: Some("café – naïve \\ 東京".to_string()),
                on_conflict: OnConflict::Default,
            },
            Field::StringEnum {
                name: "mood".to_string(),
                values: vec!["ünïcode".to_string(), "plain".to_string()],
                default: Some("ünïcode".to_string()),
                on_conflict: OnConflict::LargestValue,
            },
        ],
    };
    assert_roundtrip(&original);
}
