use xiaolin_agent::approval_cache::{ApprovalCache, ApprovalDecision};

#[test]
fn empty_keys_returns_none() {
    let cache = ApprovalCache::new();
    assert_eq!(cache.check(&[]), None);
}

#[test]
fn store_and_check_approved_for_session() {
    let mut cache = ApprovalCache::new();
    let keys = vec!["shell:ls:/tmp".to_string()];
    cache.store(&keys, ApprovalDecision::ApprovedForSession);
    assert_eq!(cache.check(&keys), Some(ApprovalDecision::ApprovedForSession));
}

#[test]
fn non_session_approval_not_cached() {
    let mut cache = ApprovalCache::new();
    let keys = vec!["shell:rm:/tmp".to_string()];
    cache.store(&keys, ApprovalDecision::Approved);
    assert_eq!(cache.check(&keys), None);
}

#[test]
fn tool_level_approval_covers_same_tool_type() {
    let mut cache = ApprovalCache::new();
    cache.store(&["cmd:a".to_string()], ApprovalDecision::ApprovedForSession);
    let keys = vec!["cmd:b".to_string()];
    assert_eq!(cache.check(&keys), Some(ApprovalDecision::ApprovedForSession));
}

#[test]
fn different_tool_types_not_covered() {
    let mut cache = ApprovalCache::new();
    cache.store(&["shell:ls".to_string()], ApprovalDecision::ApprovedForSession);
    let keys = vec!["file_write:/tmp/foo".to_string()];
    assert_eq!(cache.check(&keys), None);
}

#[test]
fn clear_removes_all() {
    let mut cache = ApprovalCache::new();
    cache.store(&["shell:ls".to_string()], ApprovalDecision::ApprovedForSession);
    assert_eq!(cache.len(), 2);
    cache.clear();
    assert!(cache.is_empty());
}

#[test]
fn key_without_colon_is_its_own_tool_type() {
    let mut cache = ApprovalCache::new();
    cache.store(&["web_fetch".to_string()], ApprovalDecision::ApprovedForSession);
    assert_eq!(cache.len(), 2);
    let keys = vec!["web_fetch:https://example.org".to_string()];
    assert_eq!(cache.check(&keys), Some(ApprovalDecision::ApprovedForSession));
}

#[test]
fn storing_twice_keeps_one_entry_per_key() {
    let mut cache = ApprovalCache::default();
    let keys = vec!["shell:ls".to_string(), "shell:pwd".to_string()];
    cache.store(&keys, ApprovalDecision::ApprovedForSession);
    cache.store(&keys, ApprovalDecision::ApprovedForSession);
    assert_eq!(cache.len(), 3);
}

#[test]
fn one_uncovered_key_refuses_the_request() {
    let mut cache = ApprovalCache::new();
    cache.store(&["tool_session:x".to_string()], ApprovalDecision::Denied);
    assert!(cache.is_empty());
    cache.store(&["a:1".to_string()], ApprovalDecision::ApprovedForSession);
    let keys = vec!["a:1".to_string(), "b:2".to_string()];
    // "a" is covered by its tool-level key, so the request is covered.
    assert_eq!(cache.check(&keys), Some(ApprovalDecision::ApprovedForSession));
    let keys = vec!["b:2".to_string(), "c:3".to_string()];
    assert_eq!(cache.check(&keys), None);
}
