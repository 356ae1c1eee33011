use xiaolin_agent::agent_step::{TerminalReason, TurnEndReason};
use xiaolin_agent::end_turn::{
    end_turn_decision, goal_becomes_budget_limited, keeps_assistant_answer, should_run_stop_hooks,
    token_budget_reached_now, EndTurnAction, PlanModeAction, PROGRESS_SUMMARY_REQUEST,
};

#[test]
fn stop_hook_continues_a_plain_end_of_turn() {
    assert!(matches!(
        end_turn_decision(TerminalReason::EndTurn, false, true, false, false, false),
        EndTurnAction::Continue
    ));
    assert!(!should_run_stop_hooks(TerminalReason::EndTurn, true));
    assert!(!should_run_stop_hooks(TerminalReason::MaxIterations, false));
}

#[test]
fn forced_stop_ignores_the_stop_hook() {
    match end_turn_decision(TerminalReason::EndTurn, true, true, false, false, false) {
        EndTurnAction::Finish { request_progress_summary, plan, reason } => {
            assert!(!request_progress_summary);
            assert_eq!(plan, PlanModeAction::Keep);
            assert_eq!(reason, TurnEndReason::Completed);
        }
        EndTurnAction::Continue => panic!("expected the turn to end"),
    }
}

#[test]
fn tool_limit_requests_a_summary_and_plan_mode_is_settled() {
    match end_turn_decision(TerminalReason::MaxIterations, false, true, true, false, false) {
        EndTurnAction::Finish { request_progress_summary, plan, reason } => {
            assert!(request_progress_summary);
            assert_eq!(plan, PlanModeAction::ReturnToAgent);
            assert_eq!(reason, TurnEndReason::MaxTurns);
        }
        EndTurnAction::Continue => panic!("expected the turn to end"),
    }
    match end_turn_decision(TerminalReason::Aborted, false, false, true, true, true) {
        EndTurnAction::Finish { plan, reason, .. } => {
            assert_eq!(plan, PlanModeAction::ReportPlanFile);
            assert_eq!(reason, TurnEndReason::TokenBudgetReached);
        }
        EndTurnAction::Continue => panic!("expected the turn to end"),
    }
    assert!(PROGRESS_SUMMARY_REQUEST.starts_with("[SYSTEM] Tool call limit reached."));
}

#[test]
fn budgets_at_the_end_of_a_turn() {
    assert!(goal_becomes_budget_limited(true, false));
    assert!(!goal_becomes_budget_limited(true, true));
    assert!(!goal_becomes_budget_limited(false, false));
    assert!(token_budget_reached_now(false, Some(100), 100));
    assert!(!token_budget_reached_now(false, Some(100), 99));
    assert!(!token_budget_reached_now(false, None, 1_000_000));
    assert!(token_budget_reached_now(true, None, 0));
    assert!(keeps_assistant_answer("", "thinking"));
    assert!(!keeps_assistant_answer("", ""));
}
