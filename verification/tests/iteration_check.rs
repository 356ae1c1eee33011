use xiaolin_agent::iteration_check::{check_token_budget, consecutive_errors_message, TokenBudgetAction};

#[test]
fn budget_under_target_continues() {
    assert!(matches!(check_token_budget(999, 1000, false), TokenBudgetAction::Continue));
    assert!(matches!(check_token_budget(5000, 0, false), TokenBudgetAction::Continue));
}

#[test]
fn budget_at_target_nudges_once() {
    match check_token_budget(1000, 1000, false) {
        TokenBudgetAction::SoftNudge { message } => assert_eq!(
            message,
            "[SYSTEM] You have used 100% of your token budget (1000/1000 tokens). Please wrap up your current work soon and provide a summary. You may finish one more tool call if absolutely necessary."
        ),
        other => panic!("unexpected {other:?}"),
    }
    assert!(matches!(check_token_budget(1100, 1000, true), TokenBudgetAction::Continue));
}

#[test]
fn budget_far_over_target_stops() {
    match check_token_budget(1250, 1000, true) {
        TokenBudgetAction::HardStop { message } => assert_eq!(
            message,
            "[SYSTEM] Token budget exceeded (125% of target). You MUST finish your current task immediately and provide a final response. Do NOT start new tool calls."
        ),
        other => panic!("unexpected {other:?}"),
    }
    // 1199/1000 is 119% after integer division: only a nudge.
    assert!(matches!(check_token_budget(1199, 1000, false), TokenBudgetAction::SoftNudge { .. }));
}

#[test]
fn consecutive_error_messages() {
    assert_eq!(
        consecutive_errors_message(3, ""),
        "执行过程中遇到连续 3 次工具错误，已自动停止。请检查工具配置或尝试换一种方式描述任务。"
    );
    assert_eq!(
        consecutive_errors_message(3, "shell_exec: exit 1"),
        "执行过程中遇到连续工具错误，已自动停止。\n出错的工具调用：\nshell_exec: exit 1\n\n请检查相关配置或尝试换一种方式。"
    );
}
