//! Choosing which learned skills to show the model for a task.
use vstd::prelude::*;
use crate::dispatcher::indices_where;
use crate::text::{byte_len, chars_of, is_ws, slice_chars, str_eq, string_of, trim, trim_chars};

verus! {

/// Standing of a learned skill.
#[derive(Debug, Clone, Copy, PartialEq, Eq, Structural)]
pub enum SkillStatus {
    Active,
    Candidate,
    Retired,
}

/// A skill found similar to the task.
#[derive(Debug, Clone)]
pub struct SkillMatch {
    pub id: String,
    pub status: SkillStatus,
}

/// Most active skills shown.
pub const MAX_ACTIVE_SKILLS: usize = 5;
/// Most candidate skills shown.
pub const MAX_CANDIDATE_SKILLS: usize = 2;

/// Number of whitespace-separated words in `s`.
pub open spec fn word_count(s: Seq<char>) -> nat
    decreases s.len(),
{
    if s.len() == 0 {
        0
    } else {
        let starts = !is_ws(s.last()) && (s.len() == 1 || is_ws(s[s.len() - 2]));
        word_count(s.drop_last()) + if starts { 1nat } else { 0nat }
    }
}

/// Whether a task is too slight to look skills up for: blank, or fewer than
/// three words and fewer than twelve bytes once trimmed.
pub open spec fn trivial_task(task: Seq<char>) -> bool {
    let t = trim(task);
    t.len() == 0 || (word_count(t) < 3 && byte_len(t) < 12)
}

/// Whether skills are not looked up for `task`.
pub fn is_trivial_task(task: &str) -> (r: bool)
    ensures
        r == trivial_task(task@),
{
    let t = trim_chars(chars_of(task).as_slice());
    if t.len() == 0 {
        return true;
    }
    let mut words: usize = 0;
    let mut bytes: usize = 0;
    let mut i: usize = 0;
    while i < t.len()
        invariant
            i <= t.len(),
            words <= i,
            words == word_count(t@.take(i as int)),
            bytes == if byte_len(t@.take(i as int)) < 12 { byte_len(t@.take(i as int)) } else { 12 },
        decreases t.len() - i,
    {
        let c = t[i];
        proof {
            assert(t@.take(i + 1).drop_last() =~= t@.take(i as int));
            assert(t@.take(i + 1).last() == c);
            if i > 0 {
                assert(t@.take(i + 1)[i - 1] == t@[i - 1]);
            }
        }
        let ws = crate::text::is_whitespace(c);
        if !ws && (i == 0 || crate::text::is_whitespace(t[i - 1])) {
            words = words + 1;
        }
        let w = crate::plan_arg_interceptor::utf8_width_of(c);
        bytes = if bytes + w < 12 { bytes + w } else { 12 };
        i = i + 1;
    }
    proof {
        assert(t@.take(t.len() as int) =~= t@);
    }
    words < 3 && bytes < 12
}

/// Whether skill `id` may be shown: not denied, and allowed when an allow
/// list is given.
pub open spec fn skill_permitted(id: Seq<char>, deny: Seq<Seq<char>>, allow: Seq<Seq<char>>) -> bool {
    !deny.contains(id) && (allow.len() == 0 || allow.contains(id))
}

/// The views of a list of strings.
pub open spec fn names(v: Seq<String>) -> Seq<Seq<char>> {
    v.map_values(|s: String| s@)
}

/// The positions of the permitted skills with `status`, in order, at most
/// `max` of them.
pub open spec fn chosen(skills: Seq<SkillMatch>, status: SkillStatus, deny: Seq<Seq<char>>, allow: Seq<Seq<char>>, max: nat) -> Seq<usize> {
    let all = indices_where(
        skills.len() as int,
        |i: int| skills[i].status == status && skill_permitted(skills[i].id@, deny, allow),
    );
    if all.len() <= max {
        all
    } else {
        all.take(max as int)
    }
}

fn listed(list: &[String], id: &str) -> (r: bool)
    ensures
        r == names(list@).contains(id@),
{
    let mut i: usize = 0;
    while i < list.len()
        invariant
            i <= list.len(),
            forall|k: int| 0 <= k < i ==> names(list@)[k] != id@,
        decreases list.len() - i,
    {
        if str_eq(list[i].as_str(), id) {
            proof {
                assert(names(list@)[i as int] == id@);
            }
            return true;
        }
        i = i + 1;
    }
    false
}

/// The skills to show, as positions in `skills`: up to five active ones and
/// up to two candidates, each in order, leaving out denied skills and, when
/// an allow list is given, skills not on it.
pub fn select_skills(skills: &[SkillMatch], deny: &[String], allow: &[String]) -> (r: (Vec<usize>, Vec<usize>))
    ensures
        r.0@ == chosen(skills@, SkillStatus::Active, names(deny@), names(allow@), MAX_ACTIVE_SKILLS as nat),
        r.1@ == chosen(skills@, SkillStatus::Candidate, names(deny@), names(allow@), MAX_CANDIDATE_SKILLS as nat),
{
    let ghost pa = |i: int| skills@[i].status == SkillStatus::Active && skill_permitted(skills@[i].id@, names(deny@), names(allow@));
    let ghost pc = |i: int| skills@[i].status == SkillStatus::Candidate && skill_permitted(skills@[i].id@, names(deny@), names(allow@));
    let mut active: Vec<usize> = Vec::new();
    let mut candidates: Vec<usize> = Vec::new();
    let mut i: usize = 0;
    while i < skills.len()
        invariant
            i <= skills.len(),
            pa == (|k: int| skills@[k].status == SkillStatus::Active && skill_permitted(skills@[k].id@, names(deny@), names(allow@))),
            pc == (|k: int| skills@[k].status == SkillStatus::Candidate && skill_permitted(skills@[k].id@, names(deny@), names(allow@))),
            active@ == (if indices_where(i as int, pa).len() <= MAX_ACTIVE_SKILLS {
                indices_where(i as int, pa)
            } else {
                indices_where(i as int, pa).take(MAX_ACTIVE_SKILLS as int)
            }),
            candidates@ == (if indices_where(i as int, pc).len() <= MAX_CANDIDATE_SKILLS {
                indices_where(i as int, pc)
            } else {
                indices_where(i as int, pc).take(MAX_CANDIDATE_SKILLS as int)
            }),
        decreases skills.len() - i,
    {
        let s = &skills[i];
        let permitted = !listed(deny, s.id.as_str()) && (allow.len() == 0 || listed(allow, s.id.as_str()));
        proof {
            assert(names(allow@).len() == allow.len());
            assert(permitted == skill_permitted(skills@[i as int].id@, names(deny@), names(allow@)));
            let pa_all = indices_where(i as int, pa);
            let pc_all = indices_where(i as int, pc);
            assert(indices_where(i + 1, pa) == if pa(i as int) { pa_all.push(i) } else { pa_all });
            assert(indices_where(i + 1, pc) == if pc(i as int) { pc_all.push(i) } else { pc_all });
            if pa_all.len() > MAX_ACTIVE_SKILLS {
                assert(pa_all.push(i).take(MAX_ACTIVE_SKILLS as int) =~= pa_all.take(MAX_ACTIVE_SKILLS as int));
            }
            if pc_all.len() > MAX_CANDIDATE_SKILLS {
                assert(pc_all.push(i).take(MAX_CANDIDATE_SKILLS as int) =~= pc_all.take(MAX_CANDIDATE_SKILLS as int));
            }
            if pa_all.len() == MAX_ACTIVE_SKILLS {
                assert(pa_all.push(i).take(MAX_ACTIVE_SKILLS as int) =~= pa_all);
            }
            if pc_all.len() == MAX_CANDIDATE_SKILLS {
                assert(pc_all.push(i).take(MAX_CANDIDATE_SKILLS as int) =~= pc_all);
            }
        }
        if permitted {
            match s.status {
                SkillStatus::Active => {
                    if active.len() < MAX_ACTIVE_SKILLS {
                        active.push(i);
                    }
                },
                SkillStatus::Candidate => {
                    if candidates.len() < MAX_CANDIDATE_SKILLS {
                        candidates.push(i);
                    }
                },
                SkillStatus::Retired => {},
            }
        }
        i = i + 1;
    }
    (active, candidates)
}

/// The characters of the skill block that fit the share `budget_percent` of
/// a context window of `context_window` tokens, counting one token per
/// character; the whole block when no share is set.
pub open spec fn within_budget(block: Seq<char>, context_window: u32, budget_percent: u8) -> Seq<char> {
    let budget = context_window * budget_percent / 100;
    if budget_percent > 0 && block.len() > budget {
        block.take(budget)
    } else {
        block
    }
}

/// Cuts the skill block to its share of the context window.
pub fn clip_to_budget(block: &str, context_window: u32, budget_percent: u8) -> (r: String)
    ensures
        r@ == within_budget(block@, context_window, budget_percent),
{
    let cs = chars_of(block);
    assert((context_window as u64) * (budget_percent as u64) <= 0xffff_ffffu64 * 255) by (nonlinear_arith)
        requires
            context_window <= 0xffff_ffffu32,
            budget_percent <= 255u8,
    ;
    let budget: u64 = (context_window as u64) * (budget_percent as u64) / 100;
    if budget_percent > 0 && (cs.len() as u64) > budget {
        let cut = slice_chars(cs.as_slice(), 0, budget as usize);
        string_of(cut.as_slice())
    } else {
        string_of(cs.as_slice())
    }
}

} // verus!
