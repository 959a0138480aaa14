use rusty_cli::cache::{cache_key, hash_bytes, CacheStore};
use rusty_cli::messages::{ChatMessage, ChatRequest, Role};

fn base_request() -> ChatRequest {
    ChatRequest {
        model: "gpt-4o-mini".to_string(),
        system: Some("be terse".to_string()),
        messages: vec![
            ChatMessage {
                role: Role::User,
                content: "hello".to_string(),
                name: None,
                tool_call_id: None,
            },
            ChatMessage {
                role: Role::Assistant,
                content: "hi".to_string(),
                name: None,
                tool_call_id: None,
            },
        ],
        stream: false,
        temperature_bits: Some(0.7f32.to_bits()),
        max_tokens: Some(256),
        tools: None,
        session_id: None,
    }
}

#[test]
fn equal_request_tuples_give_equal_keys() {
    let a = cache_key("openai", &base_request());
    let b = cache_key("openai", &base_request());
    assert_eq!(a, b);
    assert_eq!(a.len(), 64);
}

#[test]
fn changing_temperature_changes_the_key() {
    let mut other = base_request();
    other.temperature_bits = Some(0.8f32.to_bits());
    assert_ne!(cache_key("openai", &base_request()), cache_key("openai", &other));
    let mut dropped = base_request();
    dropped.temperature_bits = None;
    assert_ne!(cache_key("openai", &base_request()), cache_key("openai", &dropped));
}

#[test]
fn changing_max_tokens_changes_the_key() {
    let mut other = base_request();
    other.max_tokens = Some(512);
    assert_ne!(cache_key("openai", &base_request()), cache_key("openai", &other));
}

#[test]
fn changing_provider_model_or_content_changes_the_key() {
    let base = cache_key("openai", &base_request());
    assert_ne!(base, cache_key("grok", &base_request()));
    let mut other_model = base_request();
    other_model.model = "gpt-4o".to_string();
    assert_ne!(base, cache_key("openai", &other_model));
    let mut other_msg = base_request();
    other_msg.messages[0].content = "goodbye".to_string();
    assert_ne!(base, cache_key("openai", &other_msg));
}

#[test]
fn digest_is_hex_of_fixed_width() {
    let h = hash_bytes(b"abc");
    assert_eq!(h.len(), 64);
    assert!(h.chars().all(|c| c.is_ascii_hexdigit()));
    assert_ne!(h, hash_bytes(b"abd"));
}

#[test]
fn put_then_get_returns_the_stored_value() {
    let mut store = CacheStore::new();
    assert!(store.get("k1").is_none());
    store.put("k1".to_string(), "v1".to_string());
    assert_eq!(store.get("k1"), Some("v1".to_string()));
    assert!(store.get("k2").is_none());
}

#[test]
fn put_overwrites_the_previous_value() {
    let mut store = CacheStore::new();
    store.put("k".to_string(), "old".to_string());
    store.put("k".to_string(), "new".to_string());
    assert_eq!(store.get("k"), Some("new".to_string()));
}
