//! Decisions taken before each iteration of the agent loop.
use vstd::prelude::*;
use crate::text::{decimal, push_str, push_u64, string_from};

verus! {

/// Opens the message shown when repeated tool errors stop a turn and the
/// failed calls are not known.
pub const ERRORS_STOP_OPEN: &'static str = "执行过程中遇到连续 ";
/// Closes that message.
pub const ERRORS_STOP_CLOSE: &'static str = " 次工具错误，已自动停止。请检查工具配置或尝试换一种方式描述任务。";
/// Opens the message shown when repeated tool errors stop a turn, followed
/// by the failed calls.
pub const ERRORS_DETAIL_OPEN: &'static str = "执行过程中遇到连续工具错误，已自动停止。\n出错的工具调用：\n";
/// Closes that message.
pub const ERRORS_DETAIL_CLOSE: &'static str = "\n\n请检查相关配置或尝试换一种方式。";

/// The message shown to the user when consecutive tool errors stop a turn.
pub open spec fn consecutive_errors_text(count: u64, failure_detail: Seq<char>) -> Seq<char> {
    if failure_detail.len() == 0 {
        ERRORS_STOP_OPEN@ + decimal(count as nat) + ERRORS_STOP_CLOSE@
    } else {
        ERRORS_DETAIL_OPEN@ + failure_detail + ERRORS_DETAIL_CLOSE@
    }
}

/// The message shown to the user when `count` consecutive tool errors stop
/// a turn; it lists the failed calls when their summary is not empty.
pub fn consecutive_errors_message(count: u64, failure_detail: &str) -> (r: String)
    ensures
        r@ == consecutive_errors_text(count, failure_detail@),
{
    if crate::text::chars_of(failure_detail).len() == 0 {
        let mut s = string_from(ERRORS_STOP_OPEN);
        push_u64(&mut s, count);
        push_str(&mut s, ERRORS_STOP_CLOSE);
        s
    } else {
        let mut s = string_from(ERRORS_DETAIL_OPEN);
        push_str(&mut s, failure_detail);
        push_str(&mut s, ERRORS_DETAIL_CLOSE);
        s
    }
}

/// What the per-turn token budget asks for before the next model call.
#[derive(Debug, Clone)]
pub enum TokenBudgetAction {
    /// Nothing to do.
    Continue,
    /// Tell the model to wrap up soon; the nudge is sent once per turn.
    SoftNudge { message: String },
    /// Tell the model to finish now; the turn stops after the next call.
    HardStop { message: String },
}

/// Opens the hard-stop message.
pub const HARD_STOP_OPEN: &'static str = "[SYSTEM] Token budget exceeded (";
/// Closes the hard-stop message.
pub const HARD_STOP_CLOSE: &'static str = "% of target). You MUST finish your current task immediately and provide a final response. Do NOT start new tool calls.";
/// Opens the soft-nudge message.
pub const NUDGE_OPEN: &'static str = "[SYSTEM] You have used ";
/// Follows the percentage in the soft-nudge message.
pub const NUDGE_MIDDLE: &'static str = "% of your token budget (";
/// Closes the soft-nudge message.
pub const NUDGE_CLOSE: &'static str = " tokens). Please wrap up your current work soon and provide a summary. You may finish one more tool call if absolutely necessary.";

/// Output tokens used, as a whole percentage of the target (0 without a
/// target).
pub open spec fn budget_percent(output_tokens: u64, target: u64) -> int {
    if target > 0 {
        (output_tokens * 100) / (target as int)
    } else {
        0
    }
}

/// Mathematical form of a `TokenBudgetAction`.
pub enum BudgetStep {
    Continue,
    SoftNudge(Seq<char>),
    HardStop(Seq<char>),
}

/// The step of the token budget: at 120% of the target or more the turn is
/// stopped; at 100% or more the model is nudged once; otherwise nothing.
pub open spec fn budget_step(output_tokens: u64, target: u64, nudge_sent: bool) -> BudgetStep {
    let pct = budget_percent(output_tokens, target);
    if pct >= 120 {
        BudgetStep::HardStop(HARD_STOP_OPEN@ + decimal(pct as nat) + HARD_STOP_CLOSE@)
    } else if pct >= 100 && !nudge_sent {
        BudgetStep::SoftNudge(
            NUDGE_OPEN@ + decimal(pct as nat) + NUDGE_MIDDLE@ + decimal(output_tokens as nat) + "/"@
                + decimal(target as nat) + NUDGE_CLOSE@,
        )
    } else {
        BudgetStep::Continue
    }
}

/// The model of an action.
pub open spec fn action_step(a: TokenBudgetAction) -> BudgetStep {
    match a {
        TokenBudgetAction::Continue => BudgetStep::Continue,
        TokenBudgetAction::SoftNudge { message } => BudgetStep::SoftNudge(message@),
        TokenBudgetAction::HardStop { message } => BudgetStep::HardStop(message@),
    }
}

/// Checks the per-turn token budget: `output_tokens` used of `target`,
/// `nudge_sent` telling whether the model was already nudged this turn.
pub fn check_token_budget(output_tokens: u64, target: u64, nudge_sent: bool) -> (r: TokenBudgetAction)
    requires
        output_tokens * 100 <= u64::MAX,
    ensures
        action_step(r) == budget_step(output_tokens, target, nudge_sent),
{
    let pct: u64 = if target > 0 {
        output_tokens * 100 / target
    } else {
        0
    };
    if pct >= 120 {
        let mut m = string_from(HARD_STOP_OPEN);
        push_u64(&mut m, pct);
        push_str(&mut m, HARD_STOP_CLOSE);
        TokenBudgetAction::HardStop { message: m }
    } else if pct >= 100 && !nudge_sent {
        let mut m = string_from(NUDGE_OPEN);
        push_u64(&mut m, pct);
        push_str(&mut m, NUDGE_MIDDLE);
        push_u64(&mut m, output_tokens);
        push_str(&mut m, "/");
        push_u64(&mut m, target);
        push_str(&mut m, NUDGE_CLOSE);
        TokenBudgetAction::SoftNudge { message: m }
    } else {
        TokenBudgetAction::Continue
    }
}

/// Once nudged, a turn under 120% of its budget is never nudged again, and
/// from 120% on it is always stopped, nudged or not.
pub proof fn lemma_budget_nudges_once(output_tokens: u64, target: u64)
    ensures
        budget_percent(output_tokens, target) < 120 ==> budget_step(output_tokens, target, true) is Continue,
        budget_percent(output_tokens, target) >= 120 ==> budget_step(output_tokens, target, true) is HardStop
            && budget_step(output_tokens, target, false) is HardStop,
{
}

} // verus!
