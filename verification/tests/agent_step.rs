use xiaolin_agent::agent_step::{TerminalReason, TurnEndReason};

#[test]
fn terminal_reasons_map_to_turn_end_reasons() {
    assert_eq!(TurnEndReason::from(TerminalReason::EndTurn), TurnEndReason::Completed);
    assert_eq!(TurnEndReason::from(TerminalReason::MaxIterations), TurnEndReason::MaxTurns);
    assert_eq!(TurnEndReason::from(TerminalReason::Aborted), TurnEndReason::Cancelled);
    assert_eq!(TurnEndReason::from(TerminalReason::BlockingLimit), TurnEndReason::ContextLimit);
    assert_eq!(TurnEndReason::from(TerminalReason::BudgetExhausted), TurnEndReason::BudgetExceeded);
    assert_eq!(TurnEndReason::from(TerminalReason::ConsecutiveErrors), TurnEndReason::ConsecutiveErrors);
    assert_eq!(TurnEndReason::from(TerminalReason::DiminishingReturns), TurnEndReason::DiminishingReturns);
}

#[test]
fn turn_end_labels() {
    assert_eq!(TurnEndReason::Completed.label(), None);
    assert_eq!(TurnEndReason::TokenBudgetReached.label(), Some("token_budget_reached".to_string()));
    assert_eq!(TurnEndReason::PlanApprovalPending.label(), Some("plan_approval_pending".to_string()));
    assert_eq!(TurnEndReason::Error("boom".into()).label(), Some("error: boom".to_string()));
}
