use xiaolin_agent::glob::glob_match;
use std::time::Duration;
use xiaolin_agent::hook_executor::{HookEventFilter, HookExecutor, HookHandler, RegisteredHook};

#[test]
fn glob_match_patterns() {
    assert!(glob_match("file_*", "file_read"));
    assert!(glob_match("file_*", "file_write"));
    assert!(!glob_match("file_*", "shell_exec"));
    assert!(glob_match("*", "anything"));
    assert!(glob_match("shell_?", "shell_x"));
    assert!(!glob_match("shell_?", "shell_xy"));
    assert!(glob_match("read_*_file", "read_large_file"));
}

#[test]
fn event_filter_tool_pattern() {
    let filter = HookEventFilter::ToolPattern("file_*".into());
    assert!(filter.matches("pre_tool_use", Some("file_read")));
    assert!(!filter.matches("pre_tool_use", Some("shell_exec")));
}

#[test]
fn executor_registers_hooks() {
    let mut exec = HookExecutor::new();
    assert_eq!(exec.hook_count(), 0);
    exec.register(RegisteredHook {
        filter: HookEventFilter::ToolPattern("file_*".into()),
        handler: HookHandler::Shell { command: "echo hi".into(), working_dir: None },
        timeout: Duration::from_secs(5),
        blocking: true,
    });
    assert_eq!(exec.hook_count(), 1);
    assert!(HookEventFilter::EventType("stop".into()).matches("stop", None));
    assert!(!HookEventFilter::ToolName("a".into()).matches("pre_tool_use", None));
    assert!(HookEventFilter::All.matches("anything", None));
}

fn hook(filter: HookEventFilter, blocking: bool) -> RegisteredHook {
    RegisteredHook {
        filter,
        handler: HookHandler::Shell { command: "true".into(), working_dir: None },
        timeout: Duration::from_secs(1),
        blocking,
    }
}

#[test]
fn hooks_selected_for_events() {
    let mut exec = HookExecutor::new();
    exec.register(hook(HookEventFilter::ToolPattern("file_*".into()), false));
    exec.register(hook(HookEventFilter::ToolName("file_read".into()), true));
    exec.register(hook(HookEventFilter::EventType("stop".into()), false));
    exec.register(hook(HookEventFilter::All, true));

    assert_eq!(exec.hooks_for("pre_tool_use", Some("file_read"), true), vec![1, 3]);
    assert_eq!(exec.hooks_for("post_tool_use", Some("file_read"), false), vec![0, 1, 3]);
    assert_eq!(exec.hooks_for("stop", None, false), vec![2, 3]);

    assert_eq!(exec.next_hook(0, "pre_tool_use", Some("file_read"), true), Some(1));
    assert_eq!(exec.next_hook(2, "pre_tool_use", Some("file_read"), true), Some(3));
    assert_eq!(exec.next_hook(4, "pre_tool_use", Some("file_read"), true), None);
    assert!(exec.hook(2).filter.matches("stop", None));
}

#[test]
fn glob_star_matches_empty_text_at_the_end() {
    assert!(glob_match("a**", "a"));
    assert!(glob_match("*x*", "x"));
    assert!(glob_match("a*?", "ab"));
    assert!(!glob_match("a*?", "a"));
}
