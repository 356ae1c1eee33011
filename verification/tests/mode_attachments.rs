use xiaolin_agent::mode_attachments::{
    plan_full_en, plan_full_zh, plan_mode_attachment, plan_reentry_notice, plan_sparse_en,
    plan_sparse_zh, AttachmentDecision, ExecutionMode, ModeAttachment,
};

fn sample_attachment() -> ModeAttachment {
    ModeAttachment {
        mode: ExecutionMode::Plan,
        full_template: "FULL".into(),
        sparse_template: "SPARSE".into(),
        turns_between: 5,
        full_every_n: 5,
    }
}

#[test]
fn first_turn_is_always_full() {
    let a = sample_attachment();
    assert_eq!(a.decide(0), AttachmentDecision::Full);
}

#[test]
fn turns_1_through_4_are_skipped() {
    let a = sample_attachment();
    for t in 1..5 {
        assert_eq!(a.decide(t), AttachmentDecision::Skip, "turn {t}");
    }
}

#[test]
fn turn_5_is_sparse() {
    let a = sample_attachment();
    assert_eq!(a.decide(5), AttachmentDecision::Sparse);
}

#[test]
fn turn_25_is_full_cycle() {
    let a = sample_attachment();
    assert_eq!(a.decide(25), AttachmentDecision::Full);
}

#[test]
fn turn_10_is_sparse_not_full() {
    let a = sample_attachment();
    assert_eq!(a.decide(10), AttachmentDecision::Sparse);
}

#[test]
fn text_for_turn_returns_correct_content() {
    let a = sample_attachment();
    assert_eq!(a.text_for_turn(0), Some("FULL"));
    assert_eq!(a.text_for_turn(1), None);
    assert_eq!(a.text_for_turn(5), Some("SPARSE"));
}

#[test]
fn plan_mode_attachment_en_full() {
    let a = plan_mode_attachment(Some("/tmp/plan.md"), false, None);
    assert!(a.full_template.contains("Plan Mode Active"));
    assert!(a.full_template.contains("/tmp/plan.md"));
    assert!(a.sparse_template.contains("Reminder"));
}

#[test]
fn plan_mode_attachment_zh_full() {
    let a = plan_mode_attachment(Some("/tmp/plan.md"), true, Some("zh"));
    assert!(a.full_template.contains("计划模式已激活"));
    assert!(a.full_template.contains("已存在"));
    assert!(a.sparse_template.contains("提醒"));
}

#[test]
fn reentry_notice_en() {
    let notice = plan_reentry_notice(None);
    assert!(notice.contains("re-entered Plan mode"));
}

#[test]
fn reentry_notice_zh() {
    let notice = plan_reentry_notice(Some("zh-CN"));
    assert!(notice.contains("重新进入计划模式"));
}

#[test]
fn zero_turns_between_always_skips_after_first() {
    let a = ModeAttachment {
        turns_between: 0,
        ..sample_attachment()
    };
    assert_eq!(a.decide(0), AttachmentDecision::Full);
    assert_eq!(a.decide(1), AttachmentDecision::Skip);
    assert_eq!(a.decide(100), AttachmentDecision::Skip);
}

#[test]
fn full_schedule_over_30_turns() {
    let a = sample_attachment();
    let decisions: Vec<_> = (0..30).map(|t| a.decide(t)).collect();
    assert_eq!(decisions[0], AttachmentDecision::Full);
    assert_eq!(decisions[5], AttachmentDecision::Sparse);
    assert_eq!(decisions[10], AttachmentDecision::Sparse);
    assert_eq!(decisions[15], AttachmentDecision::Sparse);
    assert_eq!(decisions[20], AttachmentDecision::Sparse);
    assert_eq!(decisions[25], AttachmentDecision::Full);
}

#[test]
fn schedule_repeats_after_full_cycle() {
    let a = sample_attachment();
    for t in 1..60u32 {
        assert_eq!(a.decide(t), a.decide(t + 25));
    }
    let never_full = ModeAttachment { full_every_n: 0, ..sample_attachment() };
    assert_eq!(never_full.decide(25), AttachmentDecision::Sparse);
    assert_eq!(never_full.decide(0), AttachmentDecision::Full);
}

#[test]
fn plan_file_info_variants() {
    assert!(plan_full_en(None, false).contains("### Plan File\nNo plan file path configured.\n\n"));
    assert!(plan_full_en(Some("p.md"), true)
        .contains("A plan file already exists at `p.md`. Read it first, then decide whether to update or replace it."));
    assert!(plan_full_en(Some("p.md"), false).contains("No plan file exists yet. Write your plan to `p.md`."));
    assert!(plan_full_zh(None, false).contains("未配置计划文件路径。"));
    assert!(plan_full_zh(Some("p.md"), false).contains("尚无计划文件。请将计划写入 `p.md`。"));
    assert!(plan_full_en(None, false).starts_with("<mode_attachment type=\"full\">\n## Plan Mode Active (Read-Only)\n\n"));
    assert!(plan_sparse_en().ends_with("</mode_attachment>"));
    assert!(plan_sparse_zh().starts_with("<mode_attachment type=\"sparse\">\n提醒"));
    let tw = plan_mode_attachment(None, false, Some("zh-TW"));
    assert!(tw.sparse_template.contains("提醒"));
    let other = plan_mode_attachment(None, false, Some("fr"));
    assert!(other.sparse_template.contains("Reminder"));
    assert_eq!((other.turns_between, other.full_every_n), (5, 5));
}
