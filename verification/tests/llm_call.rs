use xiaolin_agent::llm_call::{
    forced_end_of_turn, llm_call_step, runs_critic, usage_fallback, LlmCallAction, LlmCallEvent, LlmCallState,
    MAX_STREAM_RESUME_ATTEMPTS,
};

#[test]
fn prompt_too_long_on_connect_compacts_once() {
    let s = LlmCallState::new(false);
    let (s, a) = llm_call_step(&s, LlmCallEvent::ConnectFailed { prompt_too_long: true });
    assert_eq!(a, LlmCallAction::ReactiveCompact);
    assert!(s.attempted_reactive_compact);
    let (s, a) = llm_call_step(&s, LlmCallEvent::CompactionDone { recovered: true });
    assert_eq!(a, LlmCallAction::Reconnect);
    let (_, a) = llm_call_step(&s, LlmCallEvent::ConnectFailed { prompt_too_long: true });
    assert_eq!(a, LlmCallAction::Fail);
    let (_, a) = llm_call_step(&LlmCallState::new(false), LlmCallEvent::ConnectFailed { prompt_too_long: false });
    assert_eq!(a, LlmCallAction::Fail);
}

#[test]
fn interrupted_streams_resume_five_times() {
    let mut s = LlmCallState::new(false);
    let ev = LlmCallEvent::StreamFailed { prompt_too_long: false, has_content: true, has_reasoning: false, has_tool_calls: false };
    for i in 0..MAX_STREAM_RESUME_ATTEMPTS {
        let (n, a) = llm_call_step(&s, ev);
        assert_eq!(a, LlmCallAction::ResumeWithPartial);
        assert_eq!(n.resume_attempts, i + 1);
        s = n;
    }
    let (n, a) = llm_call_step(&s, ev);
    assert_eq!(a, LlmCallAction::EndStream);
    assert!(n.stream_errored);
    let (_, a) = llm_call_step(&n, LlmCallEvent::StreamEnded {
        force_stop: false,
        finish_is_length: false,
        has_valid_tool_calls: false,
        length_recovery_allowed: false,
    });
    assert_eq!(a, LlmCallAction::Fail);
}

#[test]
fn stream_failure_kinds() {
    let s = LlmCallState::new(false);
    let empty = LlmCallEvent::StreamFailed { prompt_too_long: false, has_content: false, has_reasoning: false, has_tool_calls: false };
    assert_eq!(llm_call_step(&s, empty).1, LlmCallAction::Reconnect);
    let calls = LlmCallEvent::StreamFailed { prompt_too_long: false, has_content: true, has_reasoning: true, has_tool_calls: true };
    assert_eq!(llm_call_step(&s, calls).1, LlmCallAction::DiscardCallsAndResume);
    let ptl = LlmCallEvent::StreamFailed { prompt_too_long: true, has_content: true, has_reasoning: false, has_tool_calls: false };
    let (w, a) = llm_call_step(&s, ptl);
    assert_eq!(a, LlmCallAction::EndStream);
    assert!(w.withheld_prompt_too_long);
    let end = LlmCallEvent::StreamEnded { force_stop: false, finish_is_length: false, has_valid_tool_calls: false, length_recovery_allowed: false };
    let (w2, a) = llm_call_step(&w, end);
    assert_eq!(a, LlmCallAction::ReactiveCompact);
    assert_eq!(llm_call_step(&w2, LlmCallEvent::CompactionDone { recovered: true }).1, LlmCallAction::RetryIteration);
    assert_eq!(llm_call_step(&w2, LlmCallEvent::CompactionDone { recovered: false }).1, LlmCallAction::Fail);
}

#[test]
fn end_of_stream_outcomes() {
    let s = LlmCallState::new(false);
    let ended = |force_stop, finish_is_length, has_valid_tool_calls, length_recovery_allowed| {
        llm_call_step(&s, LlmCallEvent::StreamEnded { force_stop, finish_is_length, has_valid_tool_calls, length_recovery_allowed }).1
    };
    assert_eq!(ended(true, true, false, true), LlmCallAction::FinishEarly);
    assert_eq!(ended(false, true, false, true), LlmCallAction::RetryWithMoreTokens);
    assert_eq!(ended(false, true, true, true), LlmCallAction::Complete);
    assert_eq!(ended(false, true, false, false), LlmCallAction::Complete);
    assert_eq!(llm_call_step(&s, LlmCallEvent::CriticVerdict { approved: false, has_feedback: true }).1, LlmCallAction::RetryIteration);
    assert_eq!(llm_call_step(&s, LlmCallEvent::CriticVerdict { approved: true, has_feedback: true }).1, LlmCallAction::Complete);
}

#[test]
fn helpers_of_a_model_call() {
    assert_eq!(usage_fallback(10, 10, false, 500, 9), Some((500, 2)));
    assert_eq!(usage_fallback(10, 10, false, 500, 2), Some((500, 1)));
    assert_eq!(usage_fallback(10, 12, false, 500, 9), None);
    assert_eq!(usage_fallback(10, 10, true, 500, 9), None);
    assert!(runs_critic(true, false, true, true));
    assert!(!runs_critic(true, true, true, true));
    assert!(forced_end_of_turn(true, true));
    assert!(!forced_end_of_turn(false, true));
}
