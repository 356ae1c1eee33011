use xiaolin_agent::hook_config::{default_timeout_secs, HookConfig, HookMatcher, HookSpec};

fn sample_config() -> HookConfig {
    HookConfig {
        pre_tool_use: vec![
            HookSpec {
                matcher: HookMatcher::ToolName {
                    name: "shell_exec".into(),
                },
                command: "echo 'pre-shell'".into(),
                timeout_secs: 5,
                blocking: true,
                working_dir: None,
            },
            HookSpec {
                matcher: HookMatcher::ToolPattern {
                    pattern: "file_*".into(),
                },
                command: "echo 'pre-file'".into(),
                timeout_secs: 10,
                blocking: false,
                working_dir: None,
            },
        ],
        post_tool_use: vec![HookSpec {
            matcher: HookMatcher::AllTools,
            command: "echo 'post'".into(),
            timeout_secs: 10,
            blocking: false,
            working_dir: None,
        }],
        stop: vec![],
    }
}

#[test]
fn merge_appends_hooks() {
    let mut config = sample_config();
    let other = HookConfig {
        pre_tool_use: vec![HookSpec {
            matcher: HookMatcher::AllTools,
            command: "echo extra".into(),
            timeout_secs: 3,
            blocking: true,
            working_dir: None,
        }],
        post_tool_use: vec![],
        stop: vec![HookSpec {
            matcher: HookMatcher::AllTools,
            command: "echo stop".into(),
            timeout_secs: 10,
            blocking: false,
            working_dir: None,
        }],
    };

    config.merge(other);
    assert_eq!(config.pre_tool_use.len(), 3);
    assert_eq!(config.stop.len(), 1);
    assert_eq!(config.total_hooks(), 5);
}

#[test]
fn matching_pre_hooks_filters_correctly() {
    let config = sample_config();

    let matches = config.matching_pre_hooks("shell_exec");
    assert_eq!(matches.len(), 1);
    assert!(matches[0].blocking);

    let matches = config.matching_pre_hooks("file_read");
    assert_eq!(matches.len(), 1);
    assert!(!matches[0].blocking);

    let matches = config.matching_pre_hooks("unknown_tool");
    assert!(matches.is_empty());
}

#[test]
fn hook_matcher_glob_works() {
    let matcher = HookMatcher::ToolPattern {
        pattern: "file_*".into(),
    };
    assert!(matcher.matches("file_read"));
    assert!(matcher.matches("file_write"));
    assert!(!matcher.matches("shell_exec"));

    let matcher = HookMatcher::AllTools;
    assert!(matcher.matches("anything"));
}

#[test]
fn empty_config_and_timeouts() {
    let empty = HookConfig::empty();
    assert!(empty.is_empty());
    assert_eq!(empty.total_hooks(), 0);
    let config = sample_config();
    assert!(!config.is_empty());
    assert_eq!(config.pre_tool_use[0].timeout(), std::time::Duration::from_secs(5));
    assert_eq!(default_timeout_secs(), 10);
    let post = config.matching_post_hooks("whatever");
    assert_eq!(post.len(), 1);
    assert_eq!(post[0].command, "echo 'post'");
}
