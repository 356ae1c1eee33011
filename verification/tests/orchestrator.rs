use xiaolin_agent::approval_cache::{ApprovalCache, ApprovalDecision};
use xiaolin_agent::orchestrator::{
    action_to_command_tokens, after_cache_check, after_guardian, after_policy, after_user,
    begin_authorization, finish_authorization, map_tool_to_pending_action, policy_requirement,
    ApprovalStep, ApprovalStrategy, DecisionSource, ExecApprovalRequirement, GuardianOutcome,
    PendingAction, PolicyRequirement, PolicyVerdict, ToolRuntimeError,
};
use xiaolin_agent::permissions::DenialTracker;

fn rejected_reason(r: &Result<DecisionSource, ToolRuntimeError>) -> Option<String> {
    match r {
        Err(ToolRuntimeError::Rejected { reason }) => Some(reason.clone()),
        _ => None,
    }
}

#[test]
fn check_policy_returns_requirement() {
    assert_eq!(policy_requirement(&PolicyVerdict::Allow), PolicyRequirement::Skip);
    assert!(matches!(
        policy_requirement(&PolicyVerdict::Prompt { reason: "unknown command".into() }),
        PolicyRequirement::NeedsApproval { .. }
    ));
    assert_eq!(
        policy_requirement(&PolicyVerdict::Forbidden { justification: "no".into() }),
        PolicyRequirement::Forbidden { reason: "no".into() }
    );
}

#[test]
fn new_pipeline_skip_approval_executes() {
    let mut tracker = DenialTracker::new();
    let r = begin_authorization(&mut tracker, "mock", "{}", &ExecApprovalRequirement::Skip);
    assert!(matches!(r, Ok(None)));
    assert_eq!(tracker.count(), 0);
}

#[test]
fn new_pipeline_forbidden_rejects() {
    let mut tracker = DenialTracker::new();
    let req = ExecApprovalRequirement::Forbidden { reason: "dangerous".into() };
    let r = begin_authorization(&mut tracker, "mock", "{}", &req);
    assert!(matches!(r, Err(ToolRuntimeError::Rejected { .. })));
    assert_eq!(tracker.count(), 1);
}

#[test]
fn new_pipeline_auto_approve_executes() {
    let mut tracker = DenialTracker::new();
    let mut cache = ApprovalCache::new();
    let keys = vec!["mock:test".to_string()];
    let req = ExecApprovalRequirement::NeedsApproval { reason: "needs it".into() };
    let r = begin_authorization(&mut tracker, "mock", "{}", &req);
    assert_eq!(r.ok().flatten(), Some("needs it".to_string()));
    assert!(matches!(after_cache_check(&cache, &keys), ApprovalStep::EvaluatePolicy));
    let prompt = PolicyVerdict::Prompt { reason: "unknown".into() };
    assert!(matches!(after_policy(&prompt), ApprovalStep::ConsultGuardian));
    let step = after_guardian(&mut cache, &keys, None, ApprovalStrategy::AutoApprove, false);
    match step {
        ApprovalStep::Decided(Ok(source)) => assert_eq!(source, DecisionSource::AutoApproved),
        _ => panic!("expected an automatic approval"),
    }
    // The approval is remembered for the session.
    assert!(matches!(
        after_cache_check(&cache, &keys),
        ApprovalStep::Decided(Ok(DecisionSource::Cached))
    ));
}

#[test]
fn new_pipeline_deny_all_rejects() {
    let mut tracker = DenialTracker::new();
    let mut cache = ApprovalCache::new();
    let keys = vec!["mock:test".to_string()];
    let step = after_guardian(&mut cache, &keys, None, ApprovalStrategy::DenyAll, false);
    let result = match step {
        ApprovalStep::Decided(r) => r,
        _ => panic!("expected a decision"),
    };
    let result = finish_authorization(&mut tracker, "mock", "{}", result);
    assert!(matches!(result, Err(ToolRuntimeError::Rejected { .. })));
    assert_eq!(tracker.count(), 1);
    assert!(cache.is_empty());
}

#[test]
fn new_pipeline_cache_hit_skips_approval() {
    let mut cache = ApprovalCache::new();
    let keys = vec!["mock:test".to_string()];
    cache.store(&keys, ApprovalDecision::ApprovedForSession);
    match after_cache_check(&cache, &keys) {
        ApprovalStep::Decided(Ok(source)) => assert_eq!(source, DecisionSource::Cached),
        _ => panic!("expected a cached approval"),
    }
}

#[test]
fn previously_denied_call_is_refused_at_once() {
    let mut tracker = DenialTracker::new();
    tracker.record_denial("mock", "{\"x\":1}");
    let r = begin_authorization(&mut tracker, "mock", "{\"x\":1}", &ExecApprovalRequirement::Skip);
    assert_eq!(rejected_reason(&r.map(|_| DecisionSource::NotRequired)), Some("previously denied in this session".to_string()));
    assert_eq!(tracker.count(), 1);
}

#[test]
fn policy_and_strategy_refusals_carry_their_reasons() {
    let forbidden = PolicyVerdict::Forbidden { justification: "rm is forbidden".into() };
    match after_policy(&forbidden) {
        ApprovalStep::Decided(r) => assert_eq!(rejected_reason(&r), Some("rm is forbidden".to_string())),
        _ => panic!("expected a refusal"),
    }
    assert!(matches!(after_policy(&PolicyVerdict::Allow), ApprovalStep::Decided(Ok(DecisionSource::PolicyAllowed))));
    let mut cache = ApprovalCache::new();
    let keys = vec!["k".to_string()];
    match after_guardian(&mut cache, &keys, Some(GuardianOutcome::Deny), ApprovalStrategy::PolicyBased, true) {
        ApprovalStep::Decided(r) => assert_eq!(
            rejected_reason(&r),
            Some("tool requires approval but no interactive session available".to_string())
        ),
        _ => panic!("expected a refusal"),
    }
    assert!(matches!(
        after_guardian(&mut cache, &keys, None, ApprovalStrategy::Interactive, false),
        ApprovalStep::Decided(Err(ToolRuntimeError::Internal { .. }))
    ));
    assert!(matches!(
        after_guardian(&mut cache, &keys, None, ApprovalStrategy::Interactive, true),
        ApprovalStep::AskUser
    ));
    assert!(matches!(
        after_guardian(&mut cache, &keys, Some(GuardianOutcome::Allow), ApprovalStrategy::DenyAll, false),
        ApprovalStep::Decided(Ok(DecisionSource::GuardianAllowed))
    ));
    assert_eq!(cache.len(), 2);
}

#[test]
fn user_decisions_map_to_answers() {
    let mut cache = ApprovalCache::new();
    let keys = vec!["shell:ls".to_string()];
    assert!(matches!(after_user(&mut cache, &keys, ApprovalDecision::Approved), Ok(DecisionSource::UserApproved)));
    assert!(cache.is_empty());
    assert_eq!(rejected_reason(&after_user(&mut cache, &keys, ApprovalDecision::Denied)), Some("user denied".to_string()));
    assert_eq!(rejected_reason(&after_user(&mut cache, &keys, ApprovalDecision::Abort)), Some("user aborted".to_string()));
    assert_eq!(
        rejected_reason(&after_user(&mut cache, &keys, ApprovalDecision::TimedOut)),
        Some("approval timed out".to_string())
    );
    assert!(matches!(
        after_user(&mut cache, &keys, ApprovalDecision::ApprovedForSession),
        Ok(DecisionSource::UserApproved)
    ));
    assert_eq!(cache.len(), 2);
}

#[test]
fn pending_actions_follow_the_tool() {
    match map_tool_to_pending_action("shell_exec", r#"{"command":"ls -la"}"#, Some("/w")) {
        PendingAction::ShellCommand { command, cwd } => {
            assert_eq!(command, "ls -la");
            assert_eq!(cwd, "/w");
        }
        other => panic!("unexpected {other:?}"),
    }
    match map_tool_to_pending_action("shell_exec", "not json", None) {
        PendingAction::ShellCommand { command, cwd } => {
            assert_eq!(command, "not json");
            assert_eq!(cwd, ".");
        }
        other => panic!("unexpected {other:?}"),
    }
    match map_tool_to_pending_action("write_file", r#"{"content":"x"}"#, None) {
        PendingAction::FileWrite { path } => assert_eq!(path, "unknown"),
        other => panic!("unexpected {other:?}"),
    }
    match map_tool_to_pending_action("edit_file", r#"{"file_path":"/a.rs"}"#, None) {
        PendingAction::ApplyPatch { paths } => assert_eq!(paths, vec!["/a.rs".to_string()]),
        other => panic!("unexpected {other:?}"),
    }
    match map_tool_to_pending_action("edit_file", r#"{"path":3,"file_path":"/a.rs"}"#, None) {
        PendingAction::ApplyPatch { paths } => assert_eq!(paths, vec!["unknown".to_string()]),
        other => panic!("unexpected {other:?}"),
    }
    match map_tool_to_pending_action("web_fetch", "{}", None) {
        PendingAction::ShellCommand { command, .. } => assert_eq!(command, "web_fetch({})"),
        other => panic!("unexpected {other:?}"),
    }
}

#[test]
fn command_tokens_of_actions() {
    let shell = PendingAction::ShellCommand { command: "git commit -m 'a b'".into(), cwd: ".".into() };
    assert_eq!(action_to_command_tokens(&shell), vec!["git", "commit", "-m", "a b"]);
    let broken = PendingAction::ShellCommand { command: "echo 'open".into(), cwd: ".".into() };
    assert_eq!(action_to_command_tokens(&broken), vec!["echo 'open"]);
    let write = PendingAction::FileWrite { path: "/tmp/x".into() };
    assert_eq!(action_to_command_tokens(&write), vec!["write_file", "/tmp/x"]);
    let patch = PendingAction::ApplyPatch { paths: vec!["a".into(), "b".into()] };
    assert_eq!(action_to_command_tokens(&patch), vec!["apply_patch", "a", "b"]);
    let net = PendingAction::NetworkAccess { host: "example.org".into(), port: 443 };
    assert_eq!(action_to_command_tokens(&net), vec!["network", "example.org", "443"]);
}
