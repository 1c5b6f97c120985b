use policyai::parser::{parse, Lexer, ParseError, Position, Token};
use policyai::json::json_eq;
use policyai::{Field, Json};

#[test]
fn test_lexer_simple() {
    let mut lexer = Lexer::new("type Test { }");
    let tokens = lexer.tokenize().unwrap();
    assert_eq!(tokens.len(), 4);
    assert!(tokens[0].0.same(&Token::Type));
    assert!(tokens[1].0.same(&Token::Identifier("Test".to_string())));
    assert!(tokens[2].0.same(&Token::LeftBrace));
    assert!(tokens[3].0.same(&Token::RightBrace));
}

#[test]
fn lexer_positions_are_one_based() {
    let mut lexer = Lexer::new("type\n  X");
    let tokens = lexer.tokenize().unwrap();
    assert_eq!(tokens[0].1, Position::new(1, 1));
    assert_eq!(tokens[1].1, Position::new(2, 3));
}

#[test]
fn lexer_reads_literals_and_keywords() {
    let mut lexer = Lexer::new("a: number @ last wins = -1.5, s: string = \"x\\\"y\"");
    let tokens = lexer.tokenize().unwrap();
    let kinds: Vec<String> = tokens.iter().map(|(t, _)| t.to_text()).collect();
    assert!(tokens[6].0.same(&Token::Equals));
    assert!(tokens[7].0.same(&Token::NumberLiteral("-1.5".to_string())));
    assert!(tokens.last().unwrap().0.same(&Token::StringLiteral("x\"y".to_string())), "{kinds:?}");
}

#[test]
fn test_parse_simple() {
    let result = parse("type Test { }");
    assert!(result.is_ok());
    let policy_type = result.unwrap();
    assert_eq!(policy_type.name, "Test");
    assert_eq!(policy_type.fields.len(), 0);
}

#[test]
fn test_parse_bool_field() {
    let result = parse("type Test { active: bool = true }");
    assert!(result.is_ok());
    let policy_type = result.unwrap();
    assert_eq!(policy_type.fields.len(), 1);
    match &policy_type.fields[0] {
        Field::Bool { name, default, .. } => {
            assert_eq!(name, "active");
            assert!(*default);
        }
        _ => panic!("Expected bool field"),
    }
}

#[test]
fn bool_field_without_default_is_false() {
    let policy_type = parse("type T { quiet: bool, loud: bool = false }").unwrap();
    for field in policy_type.fields.iter() {
        match field {
            Field::Bool { default, .. } => assert!(!*default),
            _ => panic!("Expected bool field"),
        }
    }
    assert_eq!(policy_type.fields[1].to_text(), "loud: bool");
    assert!(json_eq(&policy_type.fields[0].default_value(), &Json::Bool(false)));
}

#[test]
fn parse_qualified_type_name() {
    let policy_type = parse("type policyai::EmailPolicy { unread: bool = true, }").unwrap();
    assert_eq!(policy_type.name, "policyai::EmailPolicy");
    assert_eq!(policy_type.fields.len(), 1);
}

#[test]
fn parse_rejects_duplicate_fields() {
    let err = parse("type T { a: bool, a: string }").unwrap_err();
    assert!(matches!(err, ParseError::DuplicateFieldName { .. }), "{err:?}");
}

#[test]
fn parse_error_text_names_the_position() {
    let err = parse("type T { a: unknown }").unwrap_err();
    let text = err.to_text();
    assert!(text.contains("line 1"), "{text}");
}

#[test]
fn parse_reports_end_of_input() {
    let err = parse("type T {").unwrap_err();
    assert!(matches!(err, ParseError::UnexpectedEndOfInput { .. }), "{err:?}");
}

#[test]
fn escaped_string_literal_reads_back() {
    let mut lexer = Lexer::new(r#""a\"b\\c" x"#);
    let tokens = lexer.tokenize().unwrap();
    assert_eq!(tokens.len(), 2);
    assert!(tokens[0].0.same(&Token::StringLiteral(r#"a"b\c"#.to_string())));
    assert!(tokens[1].0.same(&Token::Identifier("x".to_string())));
    assert_eq!(tokens[1].1.column, 11);
}
