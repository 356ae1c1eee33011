//! Why an agent loop ends, and how that is reported.
use vstd::prelude::*;
use vstd::std_specs::convert::FromSpecImpl;
use crate::text::{push_str, string_from};

verus! {

/// Why the query loop stopped.
#[derive(Debug, Clone, Copy, PartialEq, Eq, Structural)]
pub enum TerminalReason {
    EndTurn,
    MaxIterations,
    Aborted,
    BlockingLimit,
    BudgetExhausted,
    ConsecutiveErrors,
    DiminishingReturns,
}

/// Why the agent loop terminated.
#[derive(Debug, Clone, PartialEq, Eq)]
pub enum TurnEndReason {
    Completed,
    MaxTurns,
    Cancelled,
    ContextLimit,
    BudgetExceeded,
    TokenBudgetReached,
    ConsecutiveErrors,
    DiminishingReturns,
    PlanApprovalPending,
    Error(String),
}

/// The turn-end reason a loop-stop reason stands for.
pub open spec fn end_reason_of(r: TerminalReason) -> TurnEndReason {
    match r {
        TerminalReason::EndTurn => TurnEndReason::Completed,
        TerminalReason::MaxIterations => TurnEndReason::MaxTurns,
        TerminalReason::Aborted => TurnEndReason::Cancelled,
        TerminalReason::BlockingLimit => TurnEndReason::ContextLimit,
        TerminalReason::BudgetExhausted => TurnEndReason::BudgetExceeded,
        TerminalReason::ConsecutiveErrors => TurnEndReason::ConsecutiveErrors,
        TerminalReason::DiminishingReturns => TurnEndReason::DiminishingReturns,
    }
}

impl From<TerminalReason> for TurnEndReason {
    fn from(r: TerminalReason) -> (ret: Self) {
        match r {
            TerminalReason::EndTurn => TurnEndReason::Completed,
            TerminalReason::MaxIterations => TurnEndReason::MaxTurns,
            TerminalReason::Aborted => TurnEndReason::Cancelled,
            TerminalReason::BlockingLimit => TurnEndReason::ContextLimit,
            TerminalReason::BudgetExhausted => TurnEndReason::BudgetExceeded,
            TerminalReason::ConsecutiveErrors => TurnEndReason::ConsecutiveErrors,
            TerminalReason::DiminishingReturns => TurnEndReason::DiminishingReturns,
        }
    }
}

impl FromSpecImpl<TerminalReason> for TurnEndReason {
    open spec fn obeys_from_spec() -> bool {
        true
    }

    open spec fn from_spec(r: TerminalReason) -> TurnEndReason {
        end_reason_of(r)
    }
}

/// The label under which a turn's end is reported; none for a turn that
/// simply completed.
pub open spec fn reason_label(r: TurnEndReason) -> Option<Seq<char>> {
    match r {
        TurnEndReason::TokenBudgetReached => Some("token_budget_reached"@),
        TurnEndReason::Completed => None,
        TurnEndReason::MaxTurns => Some("max_turns"@),
        TurnEndReason::Cancelled => Some("cancelled"@),
        TurnEndReason::ContextLimit => Some("context_limit"@),
        TurnEndReason::BudgetExceeded => Some("budget_exceeded"@),
        TurnEndReason::ConsecutiveErrors => Some("consecutive_errors"@),
        TurnEndReason::DiminishingReturns => Some("diminishing_returns"@),
        TurnEndReason::PlanApprovalPending => Some("plan_approval_pending"@),
        TurnEndReason::Error(e) => Some("error: "@ + e@),
    }
}

impl TurnEndReason {
    /// The label under which this turn end is reported in the turn-end
    /// event; none when the turn completed.
    pub fn label(&self) -> (r: Option<String>)
        ensures
            crate::json_args::opt_view(r) == reason_label(*self),
    {
        match self {
            TurnEndReason::TokenBudgetReached => Some(string_from("token_budget_reached")),
            TurnEndReason::Completed => None,
            TurnEndReason::MaxTurns => Some(string_from("max_turns")),
            TurnEndReason::Cancelled => Some(string_from("cancelled")),
            TurnEndReason::ContextLimit => Some(string_from("context_limit")),
            TurnEndReason::BudgetExceeded => Some(string_from("budget_exceeded")),
            TurnEndReason::ConsecutiveErrors => Some(string_from("consecutive_errors")),
            TurnEndReason::DiminishingReturns => Some(string_from("diminishing_returns")),
            TurnEndReason::PlanApprovalPending => Some(string_from("plan_approval_pending")),
            TurnEndReason::Error(e) => {
                let mut s = string_from("error: ");
                push_str(&mut s, e.as_str());
                Some(s)
            },
        }
    }
}

} // verus!
