use xiaolin_agent::message_injection::{
    append_to_tier2_system, apply_model_switch_notice, inject_user_context, merge_leading_system_into_tier2,
    push_tier2_system_prefix, ChatMessage, Role,
};

fn msg(role: Role, text: &str) -> ChatMessage {
    ChatMessage { role, content: text.to_string() }
}

#[test]
fn inject_user_context_appends_to_last_user() {
    let mut messages = vec![msg(Role::System, "sys"), msg(Role::User, "hello")];
    inject_user_context(&mut messages, "git status");
    let user = messages[1].content.as_str();
    assert!(user.contains("<system_context>"));
    assert!(user.contains("git status"));
    assert_eq!(messages[0].content, "sys");
}

#[test]
fn test_merge_leading_system_into_tier2() {
    let mut messages = vec![
        msg(Role::System, "tier1"),
        msg(Role::System, "tier2"),
        msg(Role::System, "gateway skills"),
        msg(Role::User, "hi"),
    ];
    merge_leading_system_into_tier2(&mut messages);
    assert_eq!(messages.len(), 3);
    assert!(messages[1].content.contains("gateway skills"));
}

#[test]
fn inject_wraps_exactly_and_targets_the_last_user_message() {
    let mut messages = vec![
        msg(Role::User, "first"),
        msg(Role::Assistant, "reply"),
        msg(Role::User, "second"),
        msg(Role::Tool, "out"),
    ];
    inject_user_context(&mut messages, "  ctx  ");
    assert_eq!(messages[0].content, "first");
    assert_eq!(messages[2].content, "second\n\n<system_context>\nctx\n</system_context>");
    assert_eq!(messages.len(), 4);
}

#[test]
fn inject_without_user_message_appends_one() {
    let mut messages = vec![msg(Role::System, "sys")];
    inject_user_context(&mut messages, "ctx");
    assert_eq!(messages.len(), 2);
    assert_eq!(messages[1].role, Role::User);
    assert_eq!(messages[1].content, "\n\n<system_context>\nctx\n</system_context>");
}

#[test]
fn blank_blocks_change_nothing() {
    let mut messages = vec![msg(Role::User, "hi")];
    inject_user_context(&mut messages, "   \n");
    append_to_tier2_system(&mut messages, "\t");
    push_tier2_system_prefix(&mut messages, "");
    assert_eq!(messages.len(), 1);
    assert_eq!(messages[0].content, "hi");
}

#[test]
fn append_to_tier2_picks_the_second_leading_system_message() {
    let mut messages = vec![msg(Role::System, "t1"), msg(Role::System, "t2"), msg(Role::User, "u")];
    append_to_tier2_system(&mut messages, " skills ");
    assert_eq!(messages[0].content, "t1");
    assert_eq!(messages[1].content, "t2\n\nskills");

    let mut single = vec![msg(Role::System, "only"), msg(Role::User, "u")];
    append_to_tier2_system(&mut single, "more");
    assert_eq!(single[0].content, "only\n\nmore");
}

#[test]
fn append_to_tier2_without_system_prepends_one() {
    let mut messages = vec![msg(Role::User, "u")];
    append_to_tier2_system(&mut messages, " block ");
    assert_eq!(messages.len(), 2);
    assert_eq!(messages[0].role, Role::System);
    assert_eq!(messages[0].content, "block");
}

#[test]
fn merge_skips_blank_system_texts_and_stops_at_first_other_role() {
    let mut messages = vec![
        msg(Role::System, "t1"),
        msg(Role::System, "t2"),
        msg(Role::System, "  "),
        msg(Role::System, "extra"),
        msg(Role::User, "u"),
        msg(Role::System, "late"),
    ];
    merge_leading_system_into_tier2(&mut messages);
    assert_eq!(messages.len(), 4);
    assert_eq!(messages[1].content, "t2\n\nextra");
    assert_eq!(messages[3].content, "late");
}

#[test]
fn merge_without_leading_system_changes_nothing() {
    let mut messages = vec![msg(Role::User, "u"), msg(Role::System, "s")];
    merge_leading_system_into_tier2(&mut messages);
    assert_eq!(messages.len(), 2);
    assert_eq!(messages[1].content, "s");
}

#[test]
fn model_switch_notice_follows_last_user_message() {
    let mut messages = vec![
        msg(Role::User, "who are you"),
        msg(Role::Assistant, "I am Model-A, happy to help"),
        msg(Role::User, "and now?"),
        msg(Role::Tool, "out"),
    ];
    apply_model_switch_notice(&mut messages, "model-b");
    assert_eq!(messages.len(), 5);
    assert_eq!(messages[3].role, Role::System);
    assert_eq!(
        messages[3].content,
        "[Model Switch Notice] The model has been switched. You are now model-b. Disregard any previous assistant messages claiming a different model identity."
    );
}

#[test]
fn no_notice_when_identity_matches_or_no_model() {
    let mut messages = vec![msg(Role::User, "hi"), msg(Role::Assistant, "I'm MODEL-B.")];
    apply_model_switch_notice(&mut messages, "model-b");
    assert_eq!(messages.len(), 2);
    let mut chinese = vec![msg(Role::User, "你好"), msg(Role::Assistant, "我是另一个助手")];
    apply_model_switch_notice(&mut chinese, "");
    assert_eq!(chinese.len(), 2);
    apply_model_switch_notice(&mut chinese, "model-b");
    assert_eq!(chinese.len(), 3);
    assert_eq!(chinese[1].role, Role::System);
}
