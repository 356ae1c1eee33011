use xiaolin_agent::skill_injection::{clip_to_budget, is_trivial_task, select_skills, SkillMatch, SkillStatus};

fn skill(id: &str, status: SkillStatus) -> SkillMatch {
    SkillMatch { id: id.to_string(), status }
}

#[test]
fn trivial_tasks_skip_skill_lookup() {
    assert!(is_trivial_task("   "));
    assert!(is_trivial_task("hi there"));
    assert!(!is_trivial_task("fix the failing build"));
    // Two words, but twelve bytes or more.
    assert!(!is_trivial_task("refactoring modules"));
    // Three short words.
    assert!(!is_trivial_task("a b c"));
}

#[test]
fn selection_keeps_order_limits_and_lists() {
    let skills = vec![
        skill("a1", SkillStatus::Active),
        skill("c1", SkillStatus::Candidate),
        skill("a2", SkillStatus::Active),
        skill("r1", SkillStatus::Retired),
        skill("a3", SkillStatus::Active),
        skill("c2", SkillStatus::Candidate),
        skill("a4", SkillStatus::Active),
        skill("c3", SkillStatus::Candidate),
        skill("a5", SkillStatus::Active),
        skill("a6", SkillStatus::Active),
        skill("a7", SkillStatus::Active),
    ];
    let (active, candidates) = select_skills(&skills, &["a2".to_string()], &[]);
    assert_eq!(active, vec![0, 4, 6, 8, 9]);
    assert_eq!(candidates, vec![1, 5]);
    let (active, candidates) = select_skills(&skills, &[], &["a3".to_string(), "c3".to_string()]);
    assert_eq!(active, vec![4]);
    assert_eq!(candidates, vec![7]);
}

#[test]
fn skill_block_is_cut_to_its_budget() {
    assert_eq!(clip_to_budget("abcdef", 100, 3), "abc");
    assert_eq!(clip_to_budget("abcdef", 100, 0), "abcdef");
    assert_eq!(clip_to_budget("ééé", 200, 1), "éé");
    assert_eq!(clip_to_budget("abc", 1000, 50), "abc");
}
