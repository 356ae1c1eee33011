use xiaolin_agent::cache_break_detection::{
    count_tools, is_prefix, BreakCause, CacheAwareUsage, CacheBreakDetector, CacheBreakReport,
    PreCallSnapshot,
};


fn make_snapshot(system: &str, tools: &str, model: &str) -> PreCallSnapshot {
    let detector = CacheBreakDetector::new();
    detector.pre_call_snapshot(system, tools, model, false, false)
}

fn usage_with_cache(cache_read: u32) -> CacheAwareUsage {
    CacheAwareUsage {
        prompt_tokens: 1000,
        completion_tokens: 200,
        cache_read_tokens: cache_read,
        cache_creation_tokens: 0,
    }
}

#[test]
fn no_break_when_first_call() {
    let mut detector = CacheBreakDetector::new();
    let snap = make_snapshot("system", "[]", "model-3");
    let usage = usage_with_cache(0);
    let report = detector.post_call_analyze(&snap, &usage);
    assert!(report.is_none());
}

#[test]
fn no_break_when_cache_maintained() {
    let mut detector = CacheBreakDetector::new();
    let snap = make_snapshot("system", "[]", "model-3");

    // First call establishes baseline
    detector.post_call_analyze(&snap, &usage_with_cache(5000));
    // Second call still has cache
    let report = detector.post_call_analyze(&snap, &usage_with_cache(4800));
    assert!(report.is_none());
}

#[test]
fn detects_break_when_cache_drops_to_zero() {
    let mut detector = CacheBreakDetector::new();
    let snap = make_snapshot("system", "[]", "model-3");

    detector.post_call_analyze(&snap, &usage_with_cache(5000));

    let snap2 = make_snapshot("modified system", "[]", "model-3");
    let report = detector.post_call_analyze(&snap2, &usage_with_cache(0));
    assert!(report.is_some());
    let r = report.unwrap();
    assert_eq!(r.prev_cache_read_tokens, 5000);
    assert_eq!(r.curr_cache_read_tokens, 0);
    assert!(!r.is_expected);
}

#[test]
fn diagnoses_system_prompt_change() {
    let mut detector = CacheBreakDetector::new();
    let snap1 = make_snapshot("original system", "[{\"name\":\"tool1\"}]", "model-3");
    detector.post_call_analyze(&snap1, &usage_with_cache(5000));

    let snap2 = make_snapshot("changed system", "[{\"name\":\"tool1\"}]", "model-3");
    let report = detector
        .post_call_analyze(&snap2, &usage_with_cache(0))
        .unwrap();
    assert_eq!(report.cause, BreakCause::SystemPromptChanged);
}

#[test]
fn diagnoses_tools_change() {
    let mut detector = CacheBreakDetector::new();
    let snap1 = make_snapshot("system", "[{\"name\":\"tool1\"}]", "model-3");
    detector.post_call_analyze(&snap1, &usage_with_cache(5000));

    let snap2 = make_snapshot(
        "system",
        "[{\"name\":\"tool1\"},{\"name\":\"tool2\"}]",
        "model-3",
    );
    let report = detector
        .post_call_analyze(&snap2, &usage_with_cache(0))
        .unwrap();
    match report.cause {
        BreakCause::ToolsChanged {
            prev_count,
            curr_count,
        } => {
            assert_eq!(prev_count, 1);
            assert_eq!(curr_count, 2);
        }
        _ => panic!("expected ToolsChanged, got {:?}", report.cause),
    }
}

#[test]
fn diagnoses_model_switch() {
    let mut detector = CacheBreakDetector::new();
    let snap1 = make_snapshot("system", "[]", "model-3-large");
    detector.post_call_analyze(&snap1, &usage_with_cache(5000));

    let snap2 = make_snapshot("system", "[]", "model-3-small");
    let report = detector
        .post_call_analyze(&snap2, &usage_with_cache(0))
        .unwrap();
    match report.cause {
        BreakCause::ModelSwitched { ref from, ref to } => {
            assert_eq!(from, "model-3-large");
            assert_eq!(to, "model-3-small");
        }
        _ => panic!("expected ModelSwitched, got {:?}", report.cause),
    }
}

fn snapshot_with_history(
    system: &str,
    tools: &str,
    model: &str,
    msg_hashes: Vec<u64>,
) -> PreCallSnapshot {
    let mut s = make_snapshot(system, tools, model);
    s.message_prefix_hashes = msg_hashes;
    s
}

#[test]
fn clean_append_is_not_history_change() {
    // prev hashes are a prefix of curr (an assistant+user turn was appended).
    let mut detector = CacheBreakDetector::new();
    let snap1 = snapshot_with_history("sys", "[]", "m", vec![1, 2, 3]);
    detector.post_call_analyze(&snap1, &usage_with_cache(5000));

    let snap2 = snapshot_with_history("sys", "[]", "m", vec![1, 2, 3, 4, 5]);
    let report = detector
        .post_call_analyze(&snap2, &usage_with_cache(0))
        .unwrap();
    // No history/system/tools/model change → Unknown (genuine provider miss).
    assert_eq!(report.cause, BreakCause::Unknown);
}

#[test]
fn compaction_diverges_prefix_and_is_expected() {
    // Compaction rewrote the prefix: hashes diverge (not an append).
    let mut detector = CacheBreakDetector::new();
    let snap1 = snapshot_with_history("sys", "[]", "m", vec![1, 2, 3, 4, 5]);
    detector.post_call_analyze(&snap1, &usage_with_cache(5000));

    let snap2 = snapshot_with_history("sys", "[]", "m", vec![1, 99, 6]);
    let report = detector
        .post_call_analyze(&snap2, &usage_with_cache(0))
        .unwrap();
    match report.cause {
        BreakCause::HistoryChanged { prev_len, curr_len } => {
            assert_eq!(prev_len, 5);
            assert_eq!(curr_len, 3);
        }
        other => panic!("expected HistoryChanged, got {other:?}"),
    }
    // Compaction is expected → not counted as a break.
    assert!(report.is_expected);
    assert_eq!(detector.total_breaks(), 0);
}

#[test]
fn history_change_plus_system_change_is_unexpected() {
    // Prefix diverged AND system prompt changed → real regression, warns.
    let mut detector = CacheBreakDetector::new();
    let snap1 = snapshot_with_history("sys", "[]", "m", vec![1, 2, 3]);
    detector.post_call_analyze(&snap1, &usage_with_cache(5000));

    let snap2 = snapshot_with_history("new sys", "[]", "m", vec![9, 8]);
    let report = detector
        .post_call_analyze(&snap2, &usage_with_cache(0))
        .unwrap();
    match report.cause {
        BreakCause::Multiple(ref causes) => {
            assert!(causes
                .iter()
                .any(|c| matches!(c, BreakCause::HistoryChanged { .. })));
            assert!(causes
                .iter()
                .any(|c| matches!(c, BreakCause::SystemPromptChanged)));
        }
        other => panic!("expected Multiple, got {other:?}"),
    }
    assert!(!report.is_expected);
    assert_eq!(detector.total_breaks(), 1);
}

#[test]
fn cache_edits_eviction_is_expected() {
    let mut detector = CacheBreakDetector::new();
    let snap1 = make_snapshot("system", "[]", "model-3");
    detector.post_call_analyze(&snap1, &usage_with_cache(5000));

    // Same system/tools/model but cache_edits is active
    let snap2 = detector.pre_call_snapshot("system", "[]", "model-3", false, true);
    let report = detector
        .post_call_analyze(&snap2, &usage_with_cache(0))
        .unwrap();
    assert_eq!(report.cause, BreakCause::CacheEditsEviction);
    assert!(report.is_expected);
    // Expected evictions don't count as breaks
    assert_eq!(detector.total_breaks(), 0);
}

#[test]
fn multiple_causes_detected() {
    let mut detector = CacheBreakDetector::new();
    let snap1 = make_snapshot("system", "[{\"name\":\"t1\"}]", "model-3");
    detector.post_call_analyze(&snap1, &usage_with_cache(5000));

    let snap2 = make_snapshot(
        "new system",
        "[{\"name\":\"t1\"},{\"name\":\"t2\"}]",
        "model-4",
    );
    let report = detector
        .post_call_analyze(&snap2, &usage_with_cache(0))
        .unwrap();
    match report.cause {
        BreakCause::Multiple(ref causes) => {
            assert!(causes.len() >= 2);
            assert!(causes.contains(&BreakCause::SystemPromptChanged));
            assert!(causes
                .iter()
                .any(|c| matches!(c, BreakCause::ModelSwitched { .. })));
        }
        _ => panic!("expected Multiple, got {:?}", report.cause),
    }
}

#[test]
fn cache_hit_rate_tracking() {
    let mut detector = CacheBreakDetector::new();
    let snap = make_snapshot("system", "[]", "model-3");

    // 3 calls with cache, 1 break
    detector.post_call_analyze(&snap, &usage_with_cache(5000));
    detector.post_call_analyze(&snap, &usage_with_cache(4800));
    detector.post_call_analyze(&snap, &usage_with_cache(4600));

    let snap_changed = make_snapshot("new system", "[]", "model-3");
    detector.post_call_analyze(&snap_changed, &usage_with_cache(0));

    assert_eq!(detector.total_calls(), 4);
    assert_eq!(detector.total_breaks(), 1);
    let rate = detector.cache_hits() as f64 / detector.total_calls() as f64;
    assert!((rate - 0.75).abs() < 0.01);
}

#[test]
fn report_summary_format() {
    let report = CacheBreakReport {
        cause: BreakCause::SystemPromptChanged,
        prev_cache_read_tokens: 5000,
        curr_cache_read_tokens: 0,
        is_expected: false,
    };
    let summary = report.summary();
    assert!(summary.contains("system prompt changed"));
    assert!(summary.contains("5000"));
    assert!(summary.contains("0"));
}

#[test]
fn no_break_when_prev_cache_was_zero() {
    let mut detector = CacheBreakDetector::new();
    let snap1 = make_snapshot("system", "[]", "model-3");
    detector.post_call_analyze(&snap1, &usage_with_cache(0));

    let snap2 = make_snapshot("new system", "[]", "model-3");
    let report = detector.post_call_analyze(&snap2, &usage_with_cache(0));
    // No break: prev was already 0
    assert!(report.is_none());
}

#[test]
fn tool_counting_heuristic() {
    assert_eq!(count_tools(""), 0);
    assert_eq!(count_tools(" [] "), 0);
    assert_eq!(count_tools("null"), 0);
    assert_eq!(count_tools("[{\"name\":\"a\"}]"), 1);
    assert_eq!(count_tools("[{\"name\":\"a\",\"p\":{\"x\":1}},{\"name\":\"b\"}]"), 2);
}

#[test]
fn prefix_relation() {
    assert!(is_prefix(&[], &[1, 2]));
    assert!(is_prefix(&[1, 2], &[1, 2, 3]));
    assert!(!is_prefix(&[1, 3], &[1, 2, 3]));
    assert!(!is_prefix(&[1, 2, 3, 4], &[1, 2, 3]));
}

#[test]
fn summary_for_each_cause() {
    let report = CacheBreakReport {
        cause: BreakCause::ToolsChanged { prev_count: 1, curr_count: 3 },
        prev_cache_read_tokens: 10,
        curr_cache_read_tokens: 0,
        is_expected: false,
    };
    let s = report.summary();
    assert!(s.contains("10"));
    assert!(s.contains('1') && s.contains('3'));
    let expected = CacheBreakReport {
        cause: BreakCause::CacheEditsEviction,
        prev_cache_read_tokens: 10,
        curr_cache_read_tokens: 0,
        is_expected: true,
    };
    assert_ne!(expected.summary(), report.summary());
}

#[test]
fn calls_counted_even_without_break() {
    let mut detector = CacheBreakDetector::new();
    let snap = make_snapshot("s", "[]", "m");
    assert!(detector.post_call_analyze(&snap, &usage_with_cache(10)).is_none());
    assert!(detector.post_call_analyze(&snap, &usage_with_cache(20)).is_none());
    assert_eq!(detector.total_calls(), 2);
    assert_eq!(detector.total_breaks(), 0);
    assert_eq!(detector.cache_hits(), 2);
}
