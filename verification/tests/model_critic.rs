use xiaolin_agent::context_assembly::TaskType;
use xiaolin_agent::model_critic::{
    critic_system_prompt, parse_critic_response, prepare_critic_request, truncate_for_review,
    CriticConfig, CriticReview,
};

#[test]
fn parse_critic_approved() {
    let review = parse_critic_response("APPROVED");
    assert!(review.approved);
    assert!(review.issues.is_empty());
}

#[test]
fn parse_critic_with_issues() {
    let response = "ISSUES:\n- Missing null check on line 42\n- SQL injection vulnerability in query builder\nSUGGESTIONS:\n- Use parameterized queries instead";
    let review = parse_critic_response(response);
    assert!(!review.approved);
    assert_eq!(review.issues.len(), 2);
    assert_eq!(review.suggestions.len(), 1);
    assert!(review.issues[0].contains("null check"));
    assert!(review.issues[1].contains("SQL injection"));
    assert!(review.suggestions[0].contains("parameterized"));
}

#[test]
fn parse_critic_empty_issues_means_approved() {
    let response = "ISSUES:\nSUGGESTIONS:\n- Could improve readability";
    let review = parse_critic_response(response);
    assert!(review.approved);
    assert_eq!(review.suggestions.len(), 1);
}

#[test]
fn critic_review_format_approved_returns_none() {
    let review = CriticReview {
        approved: true,
        issues: Vec::new(),
        suggestions: Vec::new(),
    };
    assert!(review.format_for_injection().is_none());
}

#[test]
fn critic_review_format_with_issues() {
    let review = CriticReview {
        approved: false,
        issues: vec!["Missing error handling".into(), "Race condition".into()],
        suggestions: vec!["Add mutex lock".into()],
    };
    let formatted = review.format_for_injection().unwrap();
    assert!(formatted.contains("Missing error handling"));
    assert!(formatted.contains("Race condition"));
    assert!(formatted.contains("Add mutex lock"));
    assert!(formatted.contains("fix the issues"));
}

#[test]
fn critic_disabled_returns_none() {
    let config = CriticConfig::default();
    let output = "some long output here that is definitely more than 200 characters so it would trigger the critic if enabled but it won't because disabled";
    assert!(prepare_critic_request(&config, TaskType::Coding, output).is_none());
}

#[test]
fn parse_critic_lowercase_approved_and_bullets() {
    assert!(parse_critic_response("  approved, looks good").approved);
    let review = parse_critic_response("* bad\n\u{2022} Off-by-one in loop bound\r\n  -   Unchecked unwrap here  ");
    assert!(!review.approved);
    assert_eq!(review.issues, vec!["Off-by-one in loop bound", "Unchecked unwrap here"]);
    assert!(review.suggestions.is_empty());
}

#[test]
fn feedback_block_numbering_and_layout() {
    let review = CriticReview {
        approved: false,
        issues: vec!["First".into(), "Second".into()],
        suggestions: vec![],
    };
    let formatted = review.format_for_injection().unwrap();
    assert!(formatted.contains("correction:\n\n1. First\n2. Second\n\nPlease fix the issues above before proceeding.\n"));
    assert!(!formatted.contains("Suggestions:"));
    assert!(formatted.starts_with("\u{2500}\u{2500}\u{2500} Review Feedback "));
}

#[test]
fn critic_request_when_enabled() {
    let config = CriticConfig { enabled: true, model: String::new(), max_tokens: 256, min_output_chars: 5 };
    let req = prepare_critic_request(&config, TaskType::Writing, "hello world").unwrap();
    assert_eq!(req.model, "default");
    assert_eq!(req.max_tokens, 256);
    assert_eq!(req.user_message, "Review this output for correctness and quality:\n\nhello world");
    assert!(req.system_prompt.starts_with("You are an editor."));
    assert!(prepare_critic_request(&config, TaskType::Coding, "hey").is_none());
    assert!(critic_system_prompt(TaskType::Coding).starts_with("You are a code critic."));
    assert!(critic_system_prompt(TaskType::Workflow).starts_with("You are a quality critic."));
}

#[test]
fn review_excerpt_cuts_by_characters() {
    assert_eq!(truncate_for_review("abcdef", 10), "abcdef");
    assert_eq!(truncate_for_review("abcdef", 3), "abc");
    assert_eq!(truncate_for_review("\u{e9}\u{e9}\u{e9}", 4), "\u{e9}\u{e9}\u{e9}");
    assert_eq!(truncate_for_review("\u{e9}\u{e9}\u{e9}\u{e9}\u{e9}", 4), "\u{e9}\u{e9}\u{e9}\u{e9}");
}
