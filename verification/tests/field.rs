use policyai::json::json_eq;
use policyai::{Field, Json, JsonNumber, OnConflict};

fn number(text: &str) -> JsonNumber {
    JsonNumber::from_literal(text.to_string())
}

#[test]
fn field_name() {
    let bool_field = Field::Bool {
        name: "is_active".to_string(),
        default: true,
        on_conflict: OnConflict::Default,
    };
    assert_eq!(bool_field.name(), "is_active");

    let string_field = Field::String {
        name: "description".to_string(),
        default: Some("test".to_string()),
        on_conflict: OnConflict::Agreement,
    };
    assert_eq!(string_field.name(), "description");

    let enum_field = Field::StringEnum {
        name: "priority".to_string(),
        values: vec!["low".to_string(), "high".to_string()],
        default: None,
        on_conflict: OnConflict::LargestValue,
    };
    assert_eq!(enum_field.name(), "priority");

    let array_field = Field::StringArray {
        name: "tags".to_string(),
    };
    assert_eq!(array_field.name(), "tags");

    let number_field = Field::Number {
        name: "score".to_string(),
        default: Some(number("42")),
        on_conflict: OnConflict::Default,
    };
    assert_eq!(number_field.name(), "score");
}

#[test]
fn field_default_value() {
    let bool_field = Field::Bool {
        name: "is_active".to_string(),
        default: true,
        on_conflict: OnConflict::Default,
    };
    assert!(json_eq(&bool_field.default_value(), &Json::Bool(true)));

    let string_field = Field::String {
        name: "description".to_string(),
        default: Some("test".to_string()),
        on_conflict: OnConflict::Agreement,
    };
    assert!(json_eq(&string_field.default_value(), &Json::String("test".to_string())));

    let string_field_none = Field::String {
        name: "description".to_string(),
        default: None,
        on_conflict: OnConflict::Agreement,
    };
    assert!(json_eq(&string_field_none.default_value(), &Json::Null));

    let enum_field = Field::StringEnum {
        name: "priority".to_string(),
        values: vec!["low".to_string(), "high".to_string()],
        default: Some("low".to_string()),
        on_conflict: OnConflict::LargestValue,
    };
    assert!(json_eq(&enum_field.default_value(), &Json::String("low".to_string())));

    let array_field = Field::StringArray {
        name: "tags".to_string(),
    };
    assert!(json_eq(&array_field.default_value(), &Json::Array(vec![])));

    let number_field = Field::Number {
        name: "score".to_string(),
        default: Some(number("42.5")),
        on_conflict: OnConflict::Default,
    };
    assert!(json_eq(&number_field.default_value(), &Json::Number(number("42.5"))));
}

#[test]
fn field_display_bool() {
    let field = Field::Bool {
        name: "is_active".to_string(),
        default: true,
        on_conflict: OnConflict::Default,
    };
    assert_eq!(field.to_text(), "is_active: bool = true");

    let field = Field::Bool {
        name: "is_active".to_string(),
        default: false,
        on_conflict: OnConflict::Default,
    };
    assert_eq!(field.to_text(), "is_active: bool");

    let field = Field::Bool {
        name: "is_active".to_string(),
        default: true,
        on_conflict: OnConflict::Agreement,
    };
    assert_eq!(field.to_text(), "is_active: bool @ agreement = true");

    let field = Field::Bool {
        name: "is_active".to_string(),
        default: false,
        on_conflict: OnConflict::LargestValue,
    };
    assert_eq!(field.to_text(), "is_active: bool @ sticky");
}

#[test]
fn field_display_bool_false_default() {
    let field = Field::Bool {
        name: "flag".to_string(),
        default: false,
        on_conflict: OnConflict::Agreement,
    };
    assert_eq!(field.to_text(), "flag: bool @ agreement");
}

#[test]
fn field_display_string() {
    let field = Field::String {
        name: "description".to_string(),
        default: Some("default text".to_string()),
        on_conflict: OnConflict::Default,
    };
    assert_eq!(field.to_text(), "description: string = \"default text\"");

    let field = Field::String {
        name: "description".to_string(),
        default: None,
        on_conflict: OnConflict::Agreement,
    };
    assert_eq!(field.to_text(), "description: string @ agreement");

    let field = Field::String {
        name: "description".to_string(),
        default: Some("test".to_string()),
        on_conflict: OnConflict::LargestValue,
    };
    assert_eq!(field.to_text(), "description: string @ last wins = \"test\"");
}

#[test]
fn field_display_string_escapes_quotes() {
    let field = Field::String {
        name: "quote".to_string(),
        default: Some("say \"hi\"\n".to_string()),
        on_conflict: OnConflict::Default,
    };
    assert_eq!(field.to_text(), "quote: string = \"say \\\"hi\\\"\\n\"");
}

#[test]
fn field_display_string_enum() {
    let field = Field::StringEnum {
        name: "priority".to_string(),
        values: vec!["low".to_string(), "medium".to_string(), "high".to_string()],
        default: Some("medium".to_string()),
        on_conflict: OnConflict::Default,
    };
    assert_eq!(field.to_text(), "priority: [\"low\", \"medium\", \"high\"] = \"medium\"");

    let field = Field::StringEnum {
        name: "priority".to_string(),
        values: vec!["low".to_string(), "high".to_string()],
        default: None,
        on_conflict: OnConflict::LargestValue,
    };
    assert_eq!(field.to_text(), "priority: [\"low\", \"high\"] @ highest wins");
}

#[test]
fn field_display_string_array() {
    let field = Field::StringArray {
        name: "tags".to_string(),
    };
    assert_eq!(field.to_text(), "tags: [string]");
}

#[test]
fn field_display_number() {
    let field = Field::Number {
        name: "score".to_string(),
        default: Some(number("42.5")),
        on_conflict: OnConflict::Default,
    };
    assert_eq!(field.to_text(), "score: number = 42.5");

    let field = Field::Number {
        name: "score".to_string(),
        default: None,
        on_conflict: OnConflict::Agreement,
    };
    assert_eq!(field.to_text(), "score: number @ agreement");
}

#[test]
fn field_copy_is_same() {
    let field = Field::StringEnum {
        name: "priority".to_string(),
        values: vec!["low".to_string(), "high".to_string()],
        default: Some("low".to_string()),
        on_conflict: OnConflict::LargestValue,
    };
    let copy = field.copy();
    assert!(field.same(&copy));
    let other = Field::StringArray { name: "priority".to_string() };
    assert!(!field.same(&other));
}

#[test]
fn number_default_is_displayed_in_shortest_form() {
    let shown = |text: &str| {
        Field::Number {
            name: "n".to_string(),
            default: Some(JsonNumber::from_literal(text.to_string())),
            on_conflict: OnConflict::Default,
        }
        .to_text()
    };
    assert_eq!(shown("1.50"), "n: number = 1.5");
    assert_eq!(shown("3.0"), "n: number = 3");
    assert_eq!(shown("007.250"), "n: number = 7.25");
    assert_eq!(shown("-0.0"), "n: number = -0");
    assert_eq!(shown("0.000"), "n: number = 0");
    assert_eq!(shown("1e3"), "n: number = 1000");
    assert_eq!(shown("2.5E-2"), "n: number = 0.025");
    assert_eq!(shown("-42"), "n: number = -42");
}

#[test]
fn parsed_number_default_takes_its_shortest_form() {
    let pt = policyai::parser::parse("type T { n: number = 1.50 }").unwrap();
    assert_eq!(pt.fields[0].to_text(), "n: number = 1.5");
    assert!(pt.fields[0].same(&Field::Number {
        name: "n".to_string(),
        default: Some(JsonNumber::from_literal("1.5".to_string())),
        on_conflict: OnConflict::Default,
    }));
    assert_eq!(policyai::parser::Token::NumberLiteral("2.50".to_string()).to_text(), "2.5");
}
