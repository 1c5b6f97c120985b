use policyai::message::{push_or_merge_message, Message, MessageRole};
use policyai::{TokenUsage, Usage};

fn tokens(input: i32, output: i32) -> TokenUsage {
    TokenUsage {
        cache_creation_input_tokens: None,
        cache_read_input_tokens: None,
        input_tokens: input,
        output_tokens: output,
        thinking_tokens: None,
        web_search_requests: None,
    }
}

#[test]
fn push_or_merge_merges_same_role() {
    let mut messages = vec![Message::user("a".to_string())];
    push_or_merge_message(&mut messages, Message::user("b".to_string()));
    assert_eq!(messages.len(), 1);
    assert_eq!(messages[0].content, "ab");
    push_or_merge_message(&mut messages, Message { role: MessageRole::Assistant, content: "c".to_string() });
    assert_eq!(messages.len(), 2);
    assert_eq!(messages[1].content, "c");
}

#[test]
fn usage_accumulates_calls() {
    let mut usage = Usage::new();
    assert!(usage.claudius_usage.is_none());
    usage.add_claudius_usage(tokens(10, 5));
    usage.add_claudius_usage(tokens(3, 2));
    usage.increment_iterations();
    usage.increment_iterations();
    usage.set_wall_clock_time(std::time::Duration::from_millis(7));
    let total = usage.claudius_usage.unwrap();
    assert_eq!(total.input_tokens, 13);
    assert_eq!(total.output_tokens, 7);
    assert_eq!(usage.iterations, 2);
    assert_eq!(usage.wall_clock_time, std::time::Duration::from_millis(7));
}

#[test]
fn usage_adds_optional_counts_field_by_field() {
    let mut usage = Usage::new();
    usage.add_claudius_usage(TokenUsage { cache_read_input_tokens: Some(4), thinking_tokens: Some(1), ..tokens(1, 1) });
    usage.add_claudius_usage(TokenUsage { cache_read_input_tokens: Some(6), web_search_requests: Some(2), ..tokens(2, 3) });
    let total = usage.claudius_usage.unwrap();
    assert_eq!(total.cache_read_input_tokens, Some(10));
    assert_eq!(total.cache_creation_input_tokens, None);
    assert_eq!(total.thinking_tokens, Some(1));
    assert_eq!(total.web_search_requests, Some(2));
    assert_eq!((total.input_tokens, total.output_tokens), (3, 4));
}
