use xiaolin_agent::message_injection::{ChatMessage, Role};
use xiaolin_agent::tool_recovery::{
    format_basic_recovery_guidance, inject_tool_recovery_guidance, try_tool_recovery, ToolCallTrace,
};

fn trace(tool: &str, error: Option<&str>) -> ToolCallTrace {
    ToolCallTrace { tool_name: tool.to_string(), error: error.map(String::from) }
}

#[test]
fn empty_streak_gives_no_guidance() {
    assert_eq!(format_basic_recovery_guidance(&[]), None);
}

#[test]
fn guidance_lists_failures_and_advice_once_per_tool() {
    let streak = vec![
        trace("read_file", Some("no such file")),
        trace("custom_tool", None),
        trace("read_file", Some("still missing")),
    ];
    let g = format_basic_recovery_guidance(&streak).unwrap();
    assert_eq!(
        g,
        "The following tool calls have failed consecutively:\n\
         - `read_file`: no such file\n\
         - `custom_tool`: unknown error\n\
         - `read_file`: still missing\n\n\
         Before retrying, consider:\n\
         - File/path errors: verify the path exists, check spelling, use `glob` or `list_dir` to discover correct paths\n\
         - `custom_tool` errors: review the error message carefully and try a different approach\n\
         \nDo NOT repeat the same failing calls. Try an alternative approach or explain the issue to the user."
    );
}

#[test]
fn long_errors_are_cut_at_a_character_boundary() {
    let long = "é".repeat(100); // 200 bytes
    let g = format_basic_recovery_guidance(&[trace("shell", Some(&long))]).unwrap();
    let expected = format!("- `shell`: {}...", "é".repeat(75));
    assert!(g.contains(&expected));
    assert!(g.contains("- Command errors:"));
}

#[test]
fn recovery_guidance_goes_into_the_last_user_message() {
    let mut messages = vec![
        ChatMessage { role: Role::System, content: "sys".into() },
        ChatMessage { role: Role::User, content: "do it".into() },
    ];
    inject_tool_recovery_guidance(&mut messages, "try again");
    assert_eq!(messages[0].content, "sys");
    assert_eq!(
        messages[1].content,
        "do it\n\n<system_context>\n---\n[Tool execution recovery — review before your next tool_calls]\ntry again\n---\n</system_context>"
    );
}

#[test]
fn recovery_is_attempted_at_most_three_times() {
    let mut messages = vec![ChatMessage { role: Role::User, content: "go".into() }];
    let streak = vec![trace("grep", Some("bad regex"))];
    let mut attempts = 0u32;
    assert!(!try_tool_recovery(&mut messages, 1, 5, &streak, &mut attempts));
    assert_eq!(attempts, 0);
    assert!(!try_tool_recovery(&mut messages, 2, 5, &[], &mut attempts));
    for _ in 0..3 {
        assert!(try_tool_recovery(&mut messages, 2, 5, &streak, &mut attempts));
    }
    assert_eq!(attempts, 3);
    assert!(!try_tool_recovery(&mut messages, 9, 5, &streak, &mut attempts));
    assert!(messages[0].content.contains("- Search errors:"));
    // With a limit of one error, a single failure is enough.
    let mut fresh = 0u32;
    assert!(try_tool_recovery(&mut messages, 1, 1, &streak, &mut fresh));
}
