use xiaolin_agent::cost_tracker::{sanitize_model_label, BudgetAlert, CallUsage, ModelStats, UsageLedger};

#[test]
fn stats_accumulate_usage() {
    let mut s = ModelStats::default();
    let usage = CallUsage {
        model: "gpt-4o".into(),
        prompt_tokens: 1000,
        completion_tokens: 500,
        cache_read_tokens: 200,
        cache_creation_tokens: 50,
    };
    s.add_usage(&usage);
    s.add_usage(&usage);
    assert_eq!(s.total_calls, 2);
    assert_eq!(s.total_prompt_tokens, 2000);
    assert_eq!(s.total_completion_tokens, 1000);
    assert_eq!(s.total_cache_read_tokens, 400);
    assert_eq!(s.total_cache_creation_tokens, 100);
    assert_eq!(s.total_tokens(), 3000);
}

#[test]
fn model_labels_are_sanitized() {
    assert_eq!(sanitize_model_label("anthropic/model-3.5_sonnet"), "anthropic/model-3.5_sonnet");
    assert_eq!(sanitize_model_label("bad model\"name{}"), "badmodelname");
    assert_eq!(sanitize_model_label(&"a".repeat(100)).len(), 64);
    assert_eq!(sanitize_model_label(""), "");
    assert_ne!(BudgetAlert::Warning, BudgetAlert::Exceeded);
}

#[test]
fn ledger_keeps_models_apart() {
    let usage = |model: &str, prompt: u32, completion: u32, cache_read: u32| CallUsage {
        model: model.to_string(),
        prompt_tokens: prompt,
        completion_tokens: completion,
        cache_read_tokens: cache_read,
        cache_creation_tokens: 0,
    };
    let mut ledger = UsageLedger::new();
    ledger.record(&usage("model-3", 1000, 200, 800));
    ledger.record(&usage("model-3", 1000, 300, 700));
    ledger.record(&usage("gpt-4", 500, 100, 0));
    assert_eq!(ledger.total_calls(), 3);
    assert_eq!(ledger.model_count(), 2);
    let m = ledger.model_stats("model-3").unwrap();
    assert_eq!(m.total_calls, 2);
    assert_eq!(m.total_prompt_tokens, 2000);
    assert_eq!(m.total_completion_tokens, 500);
    assert_eq!(m.total_cache_read_tokens, 1500);
    let g = ledger.model_stats("gpt-4").unwrap();
    assert_eq!(g.total_calls, 1);
    assert_eq!(g.total_prompt_tokens, 500);
    assert!(ledger.model_stats("unknown").is_none());
    let (name, stats) = ledger.entry(1);
    assert_eq!(name, "gpt-4");
    assert_eq!(stats.total_tokens(), 600);
}
