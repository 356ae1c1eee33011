use xiaolin_agent::permissions::{
    matcher_covers, wildcard_match, DenialTracker, PermissionDecision, PermissionRule,
    PermissionRuleEngine, RuleEffect, RuleMatcher, RuleScope,
};


#[test]
fn exact_match_works() {
    let matcher = RuleMatcher::Exact {
        tool: "shell_exec".into(),
    };
    assert!(matcher.matches("shell_exec"));
    assert!(!matcher.matches("shell_exec_v2"));
    assert!(!matcher.matches("file_read"));
}

#[test]
fn prefix_match_works() {
    let matcher = RuleMatcher::Prefix {
        prefix: "git:".into(),
    };
    assert!(matcher.matches("git:push"));
    assert!(matcher.matches("git:pull"));
    assert!(matcher.matches("git:"));
    assert!(!matcher.matches("github_search"));
}

#[test]
fn wildcard_match_works() {
    let matcher = RuleMatcher::Wildcard {
        pattern: "file_*".into(),
    };
    assert!(matcher.matches("file_read"));
    assert!(matcher.matches("file_write"));
    assert!(!matcher.matches("shell_exec"));
}

#[test]
fn deny_takes_priority_over_allow_in_same_scope() {
    let mut engine = PermissionRuleEngine::new();
    engine.add_rule(PermissionRule::allow_exact("shell_exec"));
    engine.add_rule(PermissionRule::deny_exact("shell_exec").with_reason("dangerous"));

    assert_eq!(
        engine.evaluate("shell_exec"),
        PermissionDecision::Denied(Some("dangerous".into()))
    );
}

#[test]
fn session_rules_override_global() {
    let mut engine = PermissionRuleEngine::new();
    engine.add_rule(PermissionRule::allow_exact("shell_exec"));
    engine.add_rule(
        PermissionRule::deny_exact("shell_exec")
            .with_scope(RuleScope::Session)
            .with_reason("session blocked"),
    );

    assert_eq!(
        engine.evaluate("shell_exec"),
        PermissionDecision::Denied(Some("session blocked".into()))
    );
}

#[test]
fn session_allow_overrides_global_deny() {
    let mut engine = PermissionRuleEngine::new();
    engine.add_rule(PermissionRule::deny_exact("shell_exec"));
    engine.add_rule(PermissionRule::allow_exact("shell_exec").with_scope(RuleScope::Session));

    assert_eq!(engine.evaluate("shell_exec"), PermissionDecision::Allowed);
}

#[test]
fn no_match_returns_nomatch() {
    let engine = PermissionRuleEngine::new();
    assert_eq!(engine.evaluate("any_tool"), PermissionDecision::NoMatch);
}

#[test]
fn prefix_deny_blocks_subcommands() {
    let mut engine = PermissionRuleEngine::new();
    engine.add_rule(PermissionRule::deny_prefix("rm:").with_reason("destructive"));

    assert_eq!(
        engine.evaluate("rm:-rf"),
        PermissionDecision::Denied(Some("destructive".into()))
    );
    assert_eq!(
        engine.evaluate("rm:file.txt"),
        PermissionDecision::Denied(Some("destructive".into()))
    );
    assert_eq!(engine.evaluate("ls"), PermissionDecision::NoMatch);
}

#[test]
fn wildcard_allow_permits_matching() {
    let mut engine = PermissionRuleEngine::new();
    engine.add_rule(PermissionRule {
        matcher: RuleMatcher::Wildcard {
            pattern: "file_*".into(),
        },
        effect: RuleEffect::Allow,
        scope: RuleScope::Global,
        reason: None,
    });

    assert_eq!(engine.evaluate("file_read"), PermissionDecision::Allowed);
    assert_eq!(engine.evaluate("file_write"), PermissionDecision::Allowed);
    assert_eq!(engine.evaluate("shell_exec"), PermissionDecision::NoMatch);
}

#[test]
fn clear_session_rules_removes_session_only() {
    let mut engine = PermissionRuleEngine::new();
    engine.add_rule(PermissionRule::allow_exact("tool_a").with_scope(RuleScope::Session));
    engine.add_rule(PermissionRule::allow_exact("tool_b"));

    assert_eq!(engine.rule_count(), 2);
    engine.clear_session_rules();
    assert_eq!(engine.rule_count(), 1);
    assert_eq!(engine.evaluate("tool_a"), PermissionDecision::NoMatch);
    assert_eq!(engine.evaluate("tool_b"), PermissionDecision::Allowed);
}

#[test]
fn permission_explain_messages() {
    let mut engine = PermissionRuleEngine::new();
    engine.add_rule(PermissionRule::allow_exact("safe_tool"));
    engine.add_rule(PermissionRule::deny_exact("bad_tool").with_reason("unsafe"));

    let safe_msg = engine.permission_explain("safe_tool");
    assert!(safe_msg.contains("allowed"), "got: {safe_msg}");
    assert!(safe_msg.contains("exact(safe_tool)"), "got: {safe_msg}");

    let bad_msg = engine.permission_explain("bad_tool");
    assert!(bad_msg.contains("denied"), "got: {bad_msg}");
    assert!(bad_msg.contains("unsafe"), "got: {bad_msg}");

    assert!(engine
        .permission_explain("unknown")
        .contains("no matching rule"));
}

#[test]
fn multiple_rules_first_deny_wins() {
    let mut engine = PermissionRuleEngine::new();
    engine.add_rule(PermissionRule {
        matcher: RuleMatcher::Wildcard {
            pattern: "*".into(),
        },
        effect: RuleEffect::Allow,
        scope: RuleScope::Global,
        reason: Some("default allow".into()),
    });
    engine.add_rule(PermissionRule::deny_exact("dangerous").with_reason("blocked"));

    assert_eq!(
        engine.evaluate("dangerous"),
        PermissionDecision::Denied(Some("blocked".into()))
    );
    assert_eq!(engine.evaluate("safe"), PermissionDecision::Allowed);
}

// ── Denial Tracking Tests ─────────────────────────────────────────

#[test]
fn denial_tracker_records_and_checks() {
    let mut tracker = DenialTracker::new();
    assert!(!tracker.is_denied("shell_exec", "rm -rf /"));

    tracker.record_denial("shell_exec", "rm -rf /");
    assert!(tracker.is_denied("shell_exec", "rm -rf /"));
    assert!(!tracker.is_denied("shell_exec", "ls"));
    assert_eq!(tracker.count(), 1);
}

#[test]
fn denial_tracker_session_scoped() {
    let mut tracker = DenialTracker::new();
    tracker.record_denial("shell_exec", "dangerous");
    tracker.record_denial("file_write", "/etc/passwd");
    assert_eq!(tracker.count(), 2);

    tracker.clear();
    assert_eq!(tracker.count(), 0);
    assert!(!tracker.is_denied("shell_exec", "dangerous"));
}

#[test]
fn denial_tracker_tool_level_check() {
    let mut tracker = DenialTracker::new();
    tracker.record_denial("shell_exec", "rm -rf /");

    assert!(tracker.is_tool_denied("shell_exec"));
    assert!(!tracker.is_tool_denied("file_read"));
}

// ── Shadow Detection Tests ──

#[test]
fn shadow_detect_wildcard_covers_exact() {
    let mut engine = PermissionRuleEngine::new();
    engine.add_rule(PermissionRule {
        matcher: RuleMatcher::Wildcard {
            pattern: "*".into(),
        },
        effect: RuleEffect::Allow,
        scope: RuleScope::Global,
        reason: None,
    });
    engine.add_rule(PermissionRule::allow_exact("read_file"));
    let warnings = engine.detect_shadowed_rules();
    assert_eq!(warnings.len(), 1);
    assert_eq!(warnings[0].shadowed_index, 1);
    assert_eq!(warnings[0].shadowing_index, 0);
}

#[test]
fn shadow_detect_prefix_covers_exact() {
    let mut engine = PermissionRuleEngine::new();
    engine.add_rule(PermissionRule {
        matcher: RuleMatcher::Prefix {
            prefix: "file_".into(),
        },
        effect: RuleEffect::Deny,
        scope: RuleScope::Global,
        reason: None,
    });
    engine.add_rule(PermissionRule::deny_exact("file_write"));
    let warnings = engine.detect_shadowed_rules();
    assert_eq!(warnings.len(), 1);
}

#[test]
fn shadow_detect_no_false_positive_different_effects() {
    let mut engine = PermissionRuleEngine::new();
    engine.add_rule(PermissionRule {
        matcher: RuleMatcher::Wildcard {
            pattern: "*".into(),
        },
        effect: RuleEffect::Allow,
        scope: RuleScope::Global,
        reason: None,
    });
    engine.add_rule(PermissionRule::deny_exact("bad_tool"));
    let warnings = engine.detect_shadowed_rules();
    assert!(warnings.is_empty());
}

#[test]
fn shadow_detect_no_warning_for_unrelated_rules() {
    let mut engine = PermissionRuleEngine::new();
    engine.add_rule(PermissionRule::allow_exact("tool_a"));
    engine.add_rule(PermissionRule::allow_exact("tool_b"));
    let warnings = engine.detect_shadowed_rules();
    assert!(warnings.is_empty());
}

#[test]
fn explain_includes_scope_and_matcher() {
    let mut engine = PermissionRuleEngine::new();
    engine.add_rule(PermissionRule {
        matcher: RuleMatcher::Prefix {
            prefix: "file_".into(),
        },
        effect: RuleEffect::Allow,
        scope: RuleScope::Global,
        reason: Some("file ops allowed".into()),
    });
    let msg = engine.permission_explain("file_read");
    assert!(msg.contains("global"), "got: {msg}");
    assert!(msg.contains("prefix(file_*)"), "got: {msg}");
    assert!(msg.contains("file ops allowed"), "got: {msg}");
}

#[test]
fn wildcard_patterns() {
    assert!(wildcard_match("*", ""));
    assert!(wildcard_match("a*c", "abbbc"));
    assert!(wildcard_match("a?c", "abc"));
    assert!(!wildcard_match("a?c", "ac"));
    assert!(wildcard_match("*_read", "file_read"));
    assert!(!wildcard_match("file_*", "fil"));
}

#[test]
fn session_deny_beats_global_allow_and_rules_are_added_in_bulk() {
    let mut engine = PermissionRuleEngine::new();
    engine.add_rules(vec![
        PermissionRule::allow_prefix("git:"),
        PermissionRule::deny_exact("git:push").with_scope(RuleScope::Session),
    ]);
    assert_eq!(engine.rule_count(), 2);
    assert_eq!(engine.evaluate("git:push"), PermissionDecision::Denied(None));
    assert_eq!(engine.evaluate("git:pull"), PermissionDecision::Allowed);
    engine.clear_session_rules();
    assert_eq!(engine.evaluate("git:push"), PermissionDecision::Allowed);
}

#[test]
fn coverage_between_matchers() {
    let all = RuleMatcher::Wildcard { pattern: "*".into() };
    let git = RuleMatcher::Prefix { prefix: "git:".into() };
    let push = RuleMatcher::Exact { tool: "git:push".into() };
    assert!(matcher_covers(&all, &push));
    assert!(matcher_covers(&git, &push));
    assert!(!matcher_covers(&push, &git));
    let shadow_free = {
        let mut e = PermissionRuleEngine::new();
        e.add_rule(PermissionRule::deny_exact("x").with_scope(RuleScope::Session));
        e.add_rule(PermissionRule::deny_prefix("y"));
        e.detect_shadowed_rules()
    };
    assert!(shadow_free.is_empty());
    let _ = RuleEffect::Allow;
}

#[test]
fn denial_records_are_exact() {
    let mut tracker = DenialTracker::new();
    tracker.record_denial("a", "p");
    tracker.record_denial("a", "p");
    assert_eq!(tracker.count(), 2);
    assert!(tracker.is_denied("a", "p"));
    assert!(!tracker.is_denied("a", "P"));
    assert!(!tracker.is_tool_denied("b"));
}

#[test]
fn explain_names_the_deny_rule_that_decides() {
    let mut engine = PermissionRuleEngine::new();
    engine.add_rule(PermissionRule::allow_exact("shell"));
    engine.add_rule(PermissionRule::deny_exact("shell").with_reason("blocked"));
    assert!(matches!(engine.evaluate("shell"), PermissionDecision::Denied(_)));
    assert_eq!(
        engine.permission_explain("shell"),
        "'shell' is denied by global rule #1 [exact(shell)], reason: blocked"
    );
}
