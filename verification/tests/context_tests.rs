use rusty_cli::context::{estimate_messages_tokens, estimate_tokens, trim_to_budget};
use rusty_cli::messages::{ChatMessage, Role};

fn msg(role: Role, content: String) -> ChatMessage {
    ChatMessage { role, content, name: None, tool_call_id: None }
}

#[test]
fn token_estimate_is_quarter_of_chars_with_floor_one() {
    assert_eq!(estimate_tokens(""), 1);
    assert_eq!(estimate_tokens("abc"), 1);
    assert_eq!(estimate_tokens("abcd"), 1);
    assert_eq!(estimate_tokens("abcdefgh"), 2);
    let long = "x".repeat(96);
    assert_eq!(estimate_tokens(&long), 24);
}

#[test]
fn message_total_adds_per_message_overhead() {
    let ms = vec![
        msg(Role::System, "x".repeat(96)),
        msg(Role::User, "y".repeat(56)),
    ];
    // 6 + 24 for the system message, 6 + 14 for the user one
    assert_eq!(estimate_messages_tokens(&ms), 50);
}

#[test]
fn trim_keeps_pinned_and_exactly_the_pairs_that_fit() {
    // pinned system message costing 30, five trailing pairs costing 20 each
    let mut ms = vec![msg(Role::System, "s".repeat(96))];
    for i in 0..5 {
        ms.push(msg(Role::User, format!("u{}{}", i, "x".repeat(54))));
        ms.push(msg(Role::Assistant, format!("a{}{}", i, "y".repeat(54))));
    }
    let trimmed = trim_to_budget(ms, 100, 20);
    // budget 80: the pinned message (30) plus one trailing pair (40) fit;
    // a second pair would overflow
    assert_eq!(trimmed.len(), 3);
    assert!(matches!(trimmed[0].role, Role::System));
    assert!(trimmed[1].content.starts_with("u4"));
    assert!(trimmed[2].content.starts_with("a4"));
    assert!(estimate_messages_tokens(&trimmed) <= 80);
    assert_eq!(estimate_messages_tokens(&trimmed), 70);
}

#[test]
fn trim_without_budget_returns_input_unchanged() {
    let ms = vec![msg(Role::User, "hello".to_string()); 4];
    let trimmed = trim_to_budget(ms.clone(), 0, 1024);
    assert_eq!(trimmed.len(), 4);
    for m in &trimmed {
        assert_eq!(m.content, "hello");
    }
}

#[test]
fn trim_returns_only_pinned_when_it_exceeds_the_budget() {
    let ms = vec![
        msg(Role::System, "s".repeat(400)),
        msg(Role::User, "u".to_string()),
    ];
    let trimmed = trim_to_budget(ms, 50, 10);
    assert_eq!(trimmed.len(), 1);
    assert!(matches!(trimmed[0].role, Role::System));
}

#[test]
fn trim_without_pinned_keeps_most_recent_suffix() {
    let ms = vec![
        msg(Role::User, "a".repeat(56)),
        msg(Role::Assistant, "b".repeat(56)),
        msg(Role::User, "c".repeat(56)),
    ];
    // each message costs 20; budget 45 keeps the last two
    let trimmed = trim_to_budget(ms, 45, 0);
    assert_eq!(trimmed.len(), 2);
    assert!(trimmed[0].content.starts_with('b'));
    assert!(trimmed[1].content.starts_with('c'));
}

#[test]
fn trim_with_reserve_at_or_over_limit_keeps_nothing_unpinned() {
    let ms = vec![msg(Role::User, "hello there".to_string())];
    let trimmed = trim_to_budget(ms, 10, 10);
    assert_eq!(trimmed.len(), 0);
}
