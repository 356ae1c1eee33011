//! The decisions of one model call of the agent loop: how a failed
//! connection or an interrupted stream is recovered (reactive compaction
//! once, up to five resumed streams), how a finished stream ends (early
//! finish, more output tokens, or on to the next step), and what the
//! critic's verdict does.  Calling the model, compacting and reporting are
//! left to the caller, which reports each outcome as an event and performs
//! the action it gets back.
use vstd::prelude::*;

verus! {

/// How many times an interrupted stream is resumed before giving up.
pub const MAX_STREAM_RESUME_ATTEMPTS: u32 = 5;

/// What one model call has done so far.
#[derive(Debug, Clone, Copy, PartialEq, Eq, Structural)]
pub struct LlmCallState {
    /// Reactive compaction was tried (in this turn).
    pub attempted_reactive_compact: bool,
    /// Interrupted streams resumed so far.
    pub resume_attempts: u32,
    /// A prompt-too-long error arrived in the stream and awaits recovery.
    pub withheld_prompt_too_long: bool,
    /// The stream failed for good (the error was reported).
    pub stream_errored: bool,
}

/// What happened.
#[derive(Debug, Clone, Copy, PartialEq, Eq, Structural)]
pub enum LlmCallEvent {
    /// Connecting to the model failed.
    ConnectFailed { prompt_too_long: bool },
    /// A reactive compaction finished.
    CompactionDone { recovered: bool },
    /// The stream failed after it started, with this much received.
    StreamFailed { prompt_too_long: bool, has_content: bool, has_reasoning: bool, has_tool_calls: bool },
    /// The stream ended.
    StreamEnded { force_stop: bool, finish_is_length: bool, has_valid_tool_calls: bool, length_recovery_allowed: bool },
    /// The critic judged the final answer.
    CriticVerdict { approved: bool, has_feedback: bool },
}

/// What to do next.
#[derive(Debug, Clone, Copy, PartialEq, Eq, Structural)]
pub enum LlmCallAction {
    /// Compact the conversation and report how it went.
    ReactiveCompact,
    /// Call the model again with the conversation as it is.
    Reconnect,
    /// Keep the partial answer as an assistant message and call again.
    ResumeWithPartial,
    /// Drop the partial tool calls, keep the partial text, and call again.
    DiscardCallsAndResume,
    /// Stop reading the stream.
    EndStream,
    /// The call fails.
    Fail,
    /// Finish the turn early (the budget was exceeded).
    FinishEarly,
    /// Start the iteration again with a larger output limit.
    RetryWithMoreTokens,
    /// Start the iteration again.
    RetryIteration,
    /// The call is complete: go on with its output.
    Complete,
}

/// The step of a model call: the state after `e` and the action it asks for.
pub open spec fn llm_call_spec(s: LlmCallState, e: LlmCallEvent) -> (LlmCallState, LlmCallAction) {
    match e {
        LlmCallEvent::ConnectFailed { prompt_too_long } => if prompt_too_long && !s.attempted_reactive_compact {
            (LlmCallState { attempted_reactive_compact: true, ..s }, LlmCallAction::ReactiveCompact)
        } else {
            (s, LlmCallAction::Fail)
        },
        LlmCallEvent::CompactionDone { recovered } => if !recovered {
            (s, LlmCallAction::Fail)
        } else if s.withheld_prompt_too_long {
            (s, LlmCallAction::RetryIteration)
        } else {
            (s, LlmCallAction::Reconnect)
        },
        LlmCallEvent::StreamFailed { prompt_too_long, has_content, has_reasoning, has_tool_calls } => if prompt_too_long {
            (LlmCallState { withheld_prompt_too_long: true, ..s }, LlmCallAction::EndStream)
        } else if s.resume_attempts < MAX_STREAM_RESUME_ATTEMPTS {
            let s1 = LlmCallState { resume_attempts: (s.resume_attempts + 1) as u32, ..s };
            if !has_content && !has_reasoning && !has_tool_calls {
                (s1, LlmCallAction::Reconnect)
            } else if !has_tool_calls {
                (s1, LlmCallAction::ResumeWithPartial)
            } else {
                (s1, LlmCallAction::DiscardCallsAndResume)
            }
        } else {
            (LlmCallState { stream_errored: true, ..s }, LlmCallAction::EndStream)
        },
        LlmCallEvent::StreamEnded { force_stop, finish_is_length, has_valid_tool_calls, length_recovery_allowed } => if s.withheld_prompt_too_long {
            if !s.attempted_reactive_compact {
                (LlmCallState { attempted_reactive_compact: true, ..s }, LlmCallAction::ReactiveCompact)
            } else {
                (s, LlmCallAction::Fail)
            }
        } else if s.stream_errored {
            (s, LlmCallAction::Fail)
        } else if force_stop {
            (s, LlmCallAction::FinishEarly)
        } else if finish_is_length && !has_valid_tool_calls && length_recovery_allowed {
            (s, LlmCallAction::RetryWithMoreTokens)
        } else {
            (s, LlmCallAction::Complete)
        },
        LlmCallEvent::CriticVerdict { approved, has_feedback } => if !approved && has_feedback {
            (s, LlmCallAction::RetryIteration)
        } else {
            (s, LlmCallAction::Complete)
        },
    }
}

impl LlmCallState {
    /// The state at the start of a model call; `attempted_reactive_compact`
    /// says whether this turn already tried reactive compaction.
    pub fn new(attempted_reactive_compact: bool) -> (r: Self)
        ensures
            r == (LlmCallState {
                attempted_reactive_compact,
                resume_attempts: 0,
                withheld_prompt_too_long: false,
                stream_errored: false,
            }),
    {
        LlmCallState { attempted_reactive_compact, resume_attempts: 0, withheld_prompt_too_long: false, stream_errored: false }
    }
}

/// One step of a model call (see `llm_call_spec`).
pub fn llm_call_step(s: &LlmCallState, e: LlmCallEvent) -> (r: (LlmCallState, LlmCallAction))
    ensures
        r == llm_call_spec(*s, e),
{
    match e {
        LlmCallEvent::ConnectFailed { prompt_too_long } => {
            if prompt_too_long && !s.attempted_reactive_compact {
                (LlmCallState { attempted_reactive_compact: true, ..*s }, LlmCallAction::ReactiveCompact)
            } else {
                (*s, LlmCallAction::Fail)
            }
        },
        LlmCallEvent::CompactionDone { recovered } => {
            if !recovered {
                (*s, LlmCallAction::Fail)
            } else if s.withheld_prompt_too_long {
                (*s, LlmCallAction::RetryIteration)
            } else {
                (*s, LlmCallAction::Reconnect)
            }
        },
        LlmCallEvent::StreamFailed { prompt_too_long, has_content, has_reasoning, has_tool_calls } => {
            if prompt_too_long {
                (LlmCallState { withheld_prompt_too_long: true, ..*s }, LlmCallAction::EndStream)
            } else if s.resume_attempts < MAX_STREAM_RESUME_ATTEMPTS {
                let s1 = LlmCallState { resume_attempts: s.resume_attempts + 1, ..*s };
                if !has_content && !has_reasoning && !has_tool_calls {
                    (s1, LlmCallAction::Reconnect)
                } else if !has_tool_calls {
                    (s1, LlmCallAction::ResumeWithPartial)
                } else {
                    (s1, LlmCallAction::DiscardCallsAndResume)
                }
            } else {
                (LlmCallState { stream_errored: true, ..*s }, LlmCallAction::EndStream)
            }
        },
        LlmCallEvent::StreamEnded { force_stop, finish_is_length, has_valid_tool_calls, length_recovery_allowed } => {
            if s.withheld_prompt_too_long {
                if !s.attempted_reactive_compact {
                    (LlmCallState { attempted_reactive_compact: true, ..*s }, LlmCallAction::ReactiveCompact)
                } else {
                    (*s, LlmCallAction::Fail)
                }
            } else if s.stream_errored {
                (*s, LlmCallAction::Fail)
            } else if force_stop {
                (*s, LlmCallAction::FinishEarly)
            } else if finish_is_length && !has_valid_tool_calls && length_recovery_allowed {
                (*s, LlmCallAction::RetryWithMoreTokens)
            } else {
                (*s, LlmCallAction::Complete)
            }
        },
        LlmCallEvent::CriticVerdict { approved, has_feedback } => {
            if !approved && has_feedback {
                (*s, LlmCallAction::RetryIteration)
            } else {
                (*s, LlmCallAction::Complete)
            }
        },
    }
}

/// Reactive compaction is asked for at most once: once tried, no step asks
/// for it again, and no step forgets that it was tried.
pub proof fn lemma_compaction_at_most_once(s: LlmCallState, e: LlmCallEvent)
    ensures
        s.attempted_reactive_compact ==> llm_call_spec(s, e).1 != LlmCallAction::ReactiveCompact,
        s.attempted_reactive_compact ==> llm_call_spec(s, e).0.attempted_reactive_compact,
        llm_call_spec(s, e).1 == LlmCallAction::ReactiveCompact ==> llm_call_spec(s, e).0.attempted_reactive_compact,
{
}

/// Streams are resumed at most `MAX_STREAM_RESUME_ATTEMPTS` times: the count
/// never passes the limit, and every resumption counts one.
pub proof fn lemma_resume_bounded(s: LlmCallState, e: LlmCallEvent)
    requires
        s.resume_attempts <= MAX_STREAM_RESUME_ATTEMPTS,
    ensures
        llm_call_spec(s, e).0.resume_attempts <= MAX_STREAM_RESUME_ATTEMPTS,
        (llm_call_spec(s, e).1 == LlmCallAction::ResumeWithPartial || llm_call_spec(s, e).1
            == LlmCallAction::DiscardCallsAndResume || (e is StreamFailed && llm_call_spec(s, e).1
            == LlmCallAction::Reconnect)) ==> llm_call_spec(s, e).0.resume_attempts == s.resume_attempts + 1,
{
}

/// The usage estimated when the provider reported none for a stream that
/// did not fail: the last prompt estimate, and a token per four output
/// bytes (at least one), each cut to 32 bits.
pub open spec fn usage_fallback_spec(tokens_before: u64, tokens_after: u64, stream_errored: bool, last_estimated: usize, output_bytes: usize) -> Option<(u32, u32)> {
    if tokens_after == tokens_before && !stream_errored {
        Some((last_estimated as u32, (if output_bytes / 4 >= 1 { output_bytes / 4 } else { 1 }) as u32))
    } else {
        None
    }
}

/// The usage to record when the provider reported none (see
/// `usage_fallback_spec`).
pub fn usage_fallback(tokens_before: u64, tokens_after: u64, stream_errored: bool, last_estimated: usize, output_bytes: usize) -> (r: Option<(u32, u32)>)
    ensures
        r == usage_fallback_spec(tokens_before, tokens_after, stream_errored, last_estimated, output_bytes),
{
    if tokens_after == tokens_before && !stream_errored {
        let per4 = output_bytes / 4;
        let est: usize = if per4 >= 1 { per4 } else { 1 };
        Some((last_estimated as u32, est as u32))
    } else {
        None
    }
}

/// Whether the critic reviews the answer: the turn ends, no stop was
/// forced, the critic is enabled and there is an answer.
pub fn runs_critic(ends_turn: bool, force_stop_after_next: bool, critic_enabled: bool, has_content: bool) -> (r: bool)
    ensures
        r == (ends_turn && !force_stop_after_next && critic_enabled && has_content),
{
    ends_turn && !force_stop_after_next && critic_enabled && has_content
}

/// Whether a forced stop turns the loop's decision to go on into the end of
/// the turn.
pub fn forced_end_of_turn(force_stop_after_next: bool, continues: bool) -> (r: bool)
    ensures
        r == (force_stop_after_next && continues),
{
    force_stop_after_next && continues
}

} // verus!
