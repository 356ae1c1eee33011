use xiaolin_agent::context_budget::classify_messages;
use xiaolin_agent::message_injection::{ChatMessage, Role};

fn msg(role: Role, text: &str) -> ChatMessage {
    ChatMessage { role, content: text.to_string() }
}

#[test]
fn classify_messages_splits_correctly() {
    let msgs = vec![
        msg(Role::System, "sys"),
        msg(Role::User, "hello"),
        msg(Role::Tool, "content 1"),
        msg(Role::Tool, "content 2"),
        msg(Role::Tool, "matches"),
        msg(Role::Tool, "files"),
        msg(Role::Assistant, "reply"),
    ];
    let result = classify_messages(&msgs, 2);
    assert_eq!(result.system_indices.len(), 1);
    assert_eq!(result.user_indices.len(), 1);
    assert_eq!(result.older_tool_indices.len(), 2);
    assert_eq!(result.recent_tool_indices.len(), 2);
    assert_eq!(result.assistant_indices.len(), 1);
}

#[test]
fn classify_keeps_positions_in_order() {
    let msgs = vec![
        msg(Role::Tool, "a"),
        msg(Role::User, "u"),
        msg(Role::Tool, "b"),
        msg(Role::Assistant, "x"),
        msg(Role::Tool, "c"),
    ];
    let r = classify_messages(&msgs, 2);
    assert_eq!(r.older_tool_indices, vec![0]);
    assert_eq!(r.recent_tool_indices, vec![2, 4]);
    assert_eq!(r.user_indices, vec![1]);
    assert_eq!(r.assistant_indices, vec![3]);
    let wide = classify_messages(&msgs, 10);
    assert!(wide.older_tool_indices.is_empty());
    assert_eq!(wide.recent_tool_indices, vec![0, 2, 4]);
}
