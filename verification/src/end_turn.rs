//! What the agent loop does when the model ends its turn: whether stop hooks
//! may send it on, whether a progress summary is requested, what happens to
//! plan mode, and the reason under which the turn is reported.  Running the
//! hooks, the summary request and the reporting is left to the caller.
use vstd::prelude::*;
use crate::agent_step::{end_reason_of, TerminalReason, TurnEndReason};

verus! {

/// The request appended when the tool-call limit ends a turn.
pub const PROGRESS_SUMMARY_REQUEST: &'static str = "[SYSTEM] Tool call limit reached. You MUST now:\n\
    1. Summarize your progress so far\n\
    2. List any unfinished tasks\n\
    3. Explain what remains to be done\n\
    Do NOT call any tools \u{2014} just output text.";

/// The output limit of the progress-summary request.
pub const PROGRESS_SUMMARY_MAX_TOKENS: u32 = 2048;

/// What becomes of plan mode when a turn ends.
#[derive(Debug, Clone, Copy, PartialEq, Eq, Structural)]
pub enum PlanModeAction {
    /// Not in plan mode: nothing to do.
    Keep,
    /// In plan mode without a plan file: back to agent mode.
    ReturnToAgent,
    /// In plan mode with a plan file: report the plan file.
    ReportPlanFile,
}

/// What the end of a turn does.
#[derive(Debug)]
pub enum EndTurnAction {
    /// A stop hook sends the model on: the turn goes on.
    Continue,
    /// The turn ends.
    Finish {
        /// Ask the model for a summary of its progress first.
        request_progress_summary: bool,
        plan: PlanModeAction,
        /// The reason under which the turn is reported.
        reason: TurnEndReason,
    },
}

/// Whether the stop hooks are consulted: on a plain end of turn, unless a
/// stop was forced.
pub open spec fn runs_stop_hooks(reason: TerminalReason, force_stop_after_next: bool) -> bool {
    reason == TerminalReason::EndTurn && !force_stop_after_next
}

/// What becomes of plan mode.
pub open spec fn plan_mode_action(mode_is_plan: bool, has_plan: bool) -> PlanModeAction {
    if !mode_is_plan {
        PlanModeAction::Keep
    } else if has_plan {
        PlanModeAction::ReportPlanFile
    } else {
        PlanModeAction::ReturnToAgent
    }
}

/// The end of a turn stopped for `reason`: it goes on when the stop hooks
/// run and ask for it; otherwise it ends, with a progress summary after the
/// tool-call limit, and is reported as reaching the token budget when it
/// did, else under the reason it stopped for.
pub open spec fn end_turn_spec(
    reason: TerminalReason,
    force_stop_after_next: bool,
    hook_should_continue: bool,
    mode_is_plan: bool,
    has_plan: bool,
    token_budget_reached: bool,
) -> EndTurnAction {
    if runs_stop_hooks(reason, force_stop_after_next) && hook_should_continue {
        EndTurnAction::Continue
    } else {
        EndTurnAction::Finish {
            request_progress_summary: reason == TerminalReason::MaxIterations,
            plan: plan_mode_action(mode_is_plan, has_plan),
            reason: if token_budget_reached {
                TurnEndReason::TokenBudgetReached
            } else {
                end_reason_of(reason)
            },
        }
    }
}

/// Whether the stop hooks are consulted (see `runs_stop_hooks`).
pub fn should_run_stop_hooks(reason: TerminalReason, force_stop_after_next: bool) -> (r: bool)
    ensures
        r == runs_stop_hooks(reason, force_stop_after_next),
{
    reason == TerminalReason::EndTurn && !force_stop_after_next
}

/// Decides the end of a turn (see `end_turn_spec`); `hook_should_continue`
/// is what the stop hooks answered, and counts only when they run.
pub fn end_turn_decision(
    reason: TerminalReason,
    force_stop_after_next: bool,
    hook_should_continue: bool,
    mode_is_plan: bool,
    has_plan: bool,
    token_budget_reached: bool,
) -> (r: EndTurnAction)
    ensures
        r == end_turn_spec(reason, force_stop_after_next, hook_should_continue, mode_is_plan, has_plan, token_budget_reached),
{
    if should_run_stop_hooks(reason, force_stop_after_next) && hook_should_continue {
        return EndTurnAction::Continue;
    }
    let plan = if !mode_is_plan {
        PlanModeAction::Keep
    } else if has_plan {
        PlanModeAction::ReportPlanFile
    } else {
        PlanModeAction::ReturnToAgent
    };
    let end = if token_budget_reached {
        TurnEndReason::TokenBudgetReached
    } else {
        TurnEndReason::from(reason)
    };
    EndTurnAction::Finish { request_progress_summary: reason == TerminalReason::MaxIterations, plan, reason: end }
}

/// Whether the goal becomes budget-limited: it went over its budget and no
/// per-turn token budget is tracking the turn.
pub fn goal_becomes_budget_limited(over_budget: bool, has_budget_tracker: bool) -> (r: bool)
    ensures
        r == (over_budget && !has_budget_tracker),
{
    over_budget && !has_budget_tracker
}

/// Whether the turn's token budget is reached: it already was, or a budget
/// with target `target` is tracked and `output_tokens` reach it.
pub fn token_budget_reached_now(already: bool, target: Option<u64>, output_tokens: u64) -> (r: bool)
    ensures
        r == (already || match target {
            Some(t) => output_tokens >= t,
            None => false,
        }),
{
    if already {
        return true;
    }
    match target {
        Some(t) => output_tokens >= t,
        None => false,
    }
}

/// Whether the model's last answer is kept as an assistant message before a
/// stop hook's continuation: when it has text or reasoning.
pub fn keeps_assistant_answer(content: &str, reasoning: &str) -> (r: bool)
    ensures
        r == (content@.len() > 0 || reasoning@.len() > 0),
{
    content.unicode_len() > 0 || reasoning.unicode_len() > 0
}

} // verus!
