//! Mode-specific per-turn attachment injection.
//!
//! Mode instructions are injected as messages on a throttled schedule: the
//! full text on the first turn, nothing for a few turns, then a short
//! reminder, with the full text coming back periodically.
use vstd::prelude::*;
use crate::text::{push_str, str_eq, string_from};
use vstd::arithmetic::div_mod::{lemma_div_multiples_vanish_fancy, lemma_fundamental_div_mod, lemma_mod_add_multiples_vanish};

verus! {

/// The execution modes that carry an attachment.
#[derive(Debug, Clone, Copy, PartialEq, Eq)]
pub enum ExecutionMode {
    Plan,
}

/// Configuration + templates for a mode-specific attachment.
#[derive(Debug, Clone)]
pub struct ModeAttachment {
    pub mode: ExecutionMode,
    /// Full instruction template.
    pub full_template: String,
    /// Abbreviated reminder template.
    pub sparse_template: String,
    /// Number of turns between any attachments (default 5).
    pub turns_between: u32,
    /// Every N-th attachment is a full one (default 5).
    pub full_every_n: u32,
}

/// Decides what to inject on a given turn.
#[derive(Debug, Clone, Copy, PartialEq, Eq)]
pub enum AttachmentDecision {
    /// Inject the full template.
    Full,
    /// Inject the sparse reminder.
    Sparse,
    /// Inject nothing this turn.
    Skip,
}

/// The schedule: the full text on turn 0; afterwards an attachment on every
/// `turns_between`-th turn (none at all when that is 0), which is the full
/// text when its number is a multiple of `full_every_n` and the reminder
/// otherwise.
pub open spec fn schedule(turns_between: u32, full_every_n: u32, t: u32) -> AttachmentDecision {
    if t == 0 {
        AttachmentDecision::Full
    } else if turns_between == 0 || t % turns_between != 0 {
        AttachmentDecision::Skip
    } else if full_every_n > 0 && (t / turns_between) % full_every_n == 0 {
        AttachmentDecision::Full
    } else {
        AttachmentDecision::Sparse
    }
}

impl ModeAttachment {
    /// Determine what to inject given the number of turns since entering the mode.
    pub fn decide(&self, turns_since_entry: u32) -> (r: AttachmentDecision)
        ensures
            r == schedule(self.turns_between, self.full_every_n, turns_since_entry),
    {
        if turns_since_entry == 0 {
            return AttachmentDecision::Full;
        }
        if self.turns_between == 0 {
            return AttachmentDecision::Skip;
        }
        if turns_since_entry % self.turns_between != 0 {
            return AttachmentDecision::Skip;
        }
        let attachment_index = turns_since_entry / self.turns_between;
        if self.full_every_n > 0 && attachment_index % self.full_every_n == 0 {
            AttachmentDecision::Full
        } else {
            AttachmentDecision::Sparse
        }
    }

    /// Return the text to inject (if any) for the given turn.
    pub fn text_for_turn(&self, turns_since_entry: u32) -> (r: Option<&str>)
        ensures
            match schedule(self.turns_between, self.full_every_n, turns_since_entry) {
                AttachmentDecision::Full => r matches Some(s) && s@ == self.full_template@,
                AttachmentDecision::Sparse => r matches Some(s) && s@ == self.sparse_template@,
                AttachmentDecision::Skip => r is None,
            },
    {
        match self.decide(turns_since_entry) {
            AttachmentDecision::Full => Some(self.full_template.as_str()),
            AttachmentDecision::Sparse => Some(self.sparse_template.as_str()),
            AttachmentDecision::Skip => None,
        }
    }
}

/// The schedule repeats: after the first turn, a turn is treated like the
/// turn `turns_between * full_every_n` later.
pub proof fn lemma_schedule_periodic(turns_between: u32, full_every_n: u32, t: u32)
    requires
        t > 0,
        turns_between > 0,
        full_every_n > 0,
        t + turns_between * full_every_n <= u32::MAX,
    ensures
        schedule(turns_between, full_every_n, (t + turns_between * full_every_n) as u32)
            == schedule(turns_between, full_every_n, t),
{
    let d: int = turns_between as int;
    let f: int = full_every_n as int;
    let x: int = t as int;
    let t2: int = x + d * f;
    let q: int = x / d;
    let r: int = x % d;
    lemma_fundamental_div_mod(x, d);
    assert(t2 == d * (q + f) + r) by (nonlinear_arith)
        requires t2 == x + d * f, x == d * q + r;
    lemma_div_multiples_vanish_fancy(q + f, r, d);
    lemma_fundamental_div_mod(t2, d);
    assert(t2 / d == q + f);
    assert(t2 % d == r) by (nonlinear_arith)
        requires t2 == d * (t2 / d) + t2 % d, t2 == d * (q + f) + r, t2 / d == q + f;
    lemma_mod_add_multiples_vanish(q, f);
    assert(((t + turns_between * full_every_n) as u32) as int == t2);
}

/// With the default settings, the full text comes back on every 25th turn
/// and the reminder on the other multiples of 5.
pub proof fn lemma_default_schedule(t: u32)
    requires
        t > 0,
    ensures
        t % 25 == 0 ==> schedule(5, 5, t) == AttachmentDecision::Full,
        t % 5 == 0 && t % 25 != 0 ==> schedule(5, 5, t) == AttachmentDecision::Sparse,
        t % 5 != 0 ==> schedule(5, 5, t) == AttachmentDecision::Skip,
{
    assert(t % 5 == 0 ==> ((t / 5) % 5 == 0 <==> t % 25 == 0)) by (nonlinear_arith);
}

// ───────────────────────── texts ─────────────────────────

pub const FULL_EN_HEAD: &'static str = "<mode_attachment type=\"full\">\n\
         ## Plan Mode Active (Read-Only)\n\n\
         You are in Plan mode until the user explicitly exits it. Plan mode is NOT changed \
         by user intent, tone, or imperative language. If the user asks you to \"do X\" or \
         \"implement Y\", treat it as \"plan the doing of X\" or \"plan the implementation of Y\".\n\n\
         All edit and execute tools are blocked. The ONLY exception is writing to the plan \
         file specified below.\n\n\
         ### Plan File\n\
         ";

pub const FULL_EN_TAIL: &'static str = "\n\n\
         ### Three-Phase Workflow\n\n\
         #### Phase 1: Explore (ground in environment)\n\
         Explore the codebase to eliminate unknowns. Before asking the user ANY question, \
         perform at least one exploration pass: read relevant files, search for patterns, \
         inspect configs, trace call chains, find reusable utilities.\n\n\
         Do NOT ask questions that can be answered by reading the code. Only ask once you \
         have exhausted reasonable exploration.\n\n\
         Distinguish two kinds of unknowns:\n\
         1. **Discoverable facts** (repo/system truth) — explore first. Search files, \
         check configs, inspect schemas. Ask only if multiple plausible candidates exist.\n\
         2. **Preferences/tradeoffs** (not discoverable) — ask the user early. \
         Provide 2-4 options with a recommended default.\n\n\
         #### Phase 2: Intent (confirm what the user actually wants)\n\
         Chat with the user until you can clearly state: goal, success criteria, scope \
         (in/out), constraints, current state, and key tradeoffs.\n\n\
         Use `ask_question` for structured questions with options. Strongly prefer \
         `ask_question` over free-text questions. Each question must:\n\
         - Materially change the plan, OR\n\
         - Confirm/lock an assumption, OR\n\
         - Choose between meaningful tradeoffs\n\n\
         #### Phase 3: Plan (output a decision-complete spec)\n\
         Write a plan to the plan file. The plan must be **decision complete**: an \
         implementer should not need to make any design decisions. All technical choices, \
         file paths, function signatures, and architecture decisions must be explicit.\n\n\
         ### Plan File Format\n\n\
         Your plan file MUST include these sections:\n\
         1. **Context**: Why this change is needed (1-2 sentences)\n\
         2. **Approach**: Your recommended approach (only one, not alternatives)\n\
         3. **Changes**: Files to modify with specific changes per file\n\
            - Reference existing functions/utilities to reuse (with file paths)\n\
            - Include function signatures or data structures where relevant\n\
         4. **Verification**: How to test the changes (specific commands or scenarios)\n\
         5. **Assumptions**: Any defaults chosen where the user did not specify\n\n\
         Keep it concise enough to scan quickly but detailed enough to execute. Most good \
         plans are under 60 lines.\n\n\
         ### Ending Your Turn\n\n\
         Your turn MUST end in one of two ways:\n\
         1. `ask_question` — for clarifying requirements or choosing approaches\n\
         2. `exit_plan_mode` — when your plan is complete and ready for approval\n\n\
         Do NOT ask \"should I proceed?\" or \"is this plan OK?\" in text. Use \
         `exit_plan_mode` to request approval.\n\n\
         Only call `exit_plan_mode` once your plan is decision complete.\n\n\
         DO NOT write or edit any files except the plan file.\n\
         </mode_attachment>";

pub const FULL_ZH_HEAD: &'static str = "<mode_attachment type=\"full\">\n\
         ## 计划模式已激活（只读）\n\n\
         你当前处于计划模式，直到用户明确退出。计划模式不会因用户的意图、语气或命令式语言而改变。\
         如果用户说「帮我实现 X」或「做 Y」，将其理解为「规划 X 的实现」或「规划 Y 的执行」。\n\n\
         所有编辑和执行工具均被阻塞。唯一例外是写入下方指定的计划文件。\n\n\
         ### 计划文件\n\
         ";

pub const FULL_ZH_TAIL: &'static str = "\n\n\
         ### 三阶段工作流\n\n\
         #### 阶段一：探索（基于环境建立上下文）\n\
         探索代码库以消除未知。在向用户提问之前，至少执行一次探索：读取相关文件、搜索模式、\
         检查配置、追踪调用链、发现可复用的工具函数。\n\n\
         不要提问那些可以通过阅读代码回答的问题。只有在合理探索后仍无法确定时才提问。\n\n\
         区分两类未知：\n\
         1. **可发现的事实**（仓库/系统中的真相）— 先探索。搜索文件、检查配置、查看 schema。\
         只在存在多个合理候选时才提问。\n\
         2. **偏好/权衡**（无法通过探索发现）— 尽早向用户提问。提供 2-4 个选项并给出推荐。\n\n\
         #### 阶段二：意图（确认用户真正想要什么）\n\
         与用户对话，直到你能清晰陈述：目标、成功标准、范围（包含/排除）、约束、现状和关键权衡。\n\n\
         使用 `ask_question` 提出带选项的结构化问题。强烈优先使用 `ask_question` 而非纯文本提问。\
         每个问题必须满足以下至少一条：\n\
         - 实质性改变方案\n\
         - 确认/锁定假设\n\
         - 在有意义的权衡间选择\n\n\
         #### 阶段三：规划（输出决策完整的规格）\n\
         将计划写入计划文件。计划必须**决策完整**：实现者不需要做任何设计决策。\
         所有技术选择、文件路径、函数签名和架构决策都必须明确。\n\n\
         ### 计划文件格式\n\n\
         计划文件必须包含以下章节：\n\
         1. **Context（背景）**：为什么需要这个变更（1-2 句）\n\
         2. **Approach（方案）**：推荐方案（只写一个，不列备选）\n\
         3. **Changes（修改）**：要修改的文件及每个文件的具体变更\n\
            - 引用可复用的已有函数/工具（附文件路径）\n\
            - 包含函数签名或数据结构定义\n\
         4. **Verification（验证）**：如何测试变更（具体命令或场景）\n\
         5. **Assumptions（假设）**：用户未指定时你选择的默认值\n\n\
         保持简洁易扫读但足够详细可执行。好的计划通常不超过 60 行。\n\n\
         ### 结束你的回合\n\n\
         你的回合必须以以下两种方式之一结束：\n\
         1. `ask_question` — 澄清需求或选择方案\n\
         2. `exit_plan_mode` — 计划完成时提交审批\n\n\
         不要在文本中询问「这个方案可以吗？」或「要开始实现吗？」。使用 `exit_plan_mode` 请求审批。\n\n\
         只有当计划决策完整后才调用 `exit_plan_mode`。\n\n\
         除计划文件外，不要写入或编辑任何文件。\n\
         </mode_attachment>";

pub const EN_EXISTS_HEAD: &'static str = "A plan file already exists at `";

pub const EN_EXISTS_TAIL: &'static str = "`. Read it first, then decide \
             whether to update or replace it.";

pub const EN_NEW_HEAD: &'static str = "No plan file exists yet. Write your plan to `";

pub const EN_NEW_TAIL: &'static str = "`.";

pub const EN_NO_PATH: &'static str = "No plan file path configured.";

pub const ZH_EXISTS_HEAD: &'static str = "计划文件已存在于 `";

pub const ZH_EXISTS_TAIL: &'static str = "`。请先阅读，再决定更新或替换。";

pub const ZH_NEW_HEAD: &'static str = "尚无计划文件。请将计划写入 `";

pub const ZH_NEW_TAIL: &'static str = "`。";

pub const ZH_NO_PATH: &'static str = "未配置计划文件路径。";

pub const REENTRY_ZH: &'static str = "<mode_attachment type=\"reentry\">\n\
         你已重新进入计划模式。之前已退出过计划模式，现在回到只读探索阶段。\n\
         请先阅读之前的计划文件（如果存在），了解已完成和待办的内容。\n\
         </mode_attachment>";

pub const REENTRY_EN: &'static str = "<mode_attachment type=\"reentry\">\n\
         You have re-entered Plan mode. You previously exited Plan mode and are now \
         back in the read-only exploration phase. Read any existing plan file first \
         to understand what was done and what remains.\n\
         </mode_attachment>";

pub const SPARSE_EN: &'static str = "<mode_attachment type=\"sparse\">\n\
     Reminder: Plan mode active. Read-only except plan file.\n\
     Explore before asking. Plan must be decision-complete.\n\
     End turn with ask_question (clarify) or exit_plan_mode (approval).\n\
     Do NOT ask about approval in text.\n\
     </mode_attachment>";

pub const SPARSE_ZH: &'static str = "<mode_attachment type=\"sparse\">\n\
     提醒：计划模式激活中。只读 — 除计划文件外不可编辑。\n\
     提问前先探索。计划必须决策完整。\n\
     以 ask_question（澄清）或 exit_plan_mode（审批）结束回合。\n\
     不要在文本中询问审批。\n\
     </mode_attachment>";

/// Whether a language tag selects the Chinese texts.
pub open spec fn is_chinese(lang: Option<Seq<char>>) -> bool {
    match lang {
        Some(l) => l == "zh"@ || l == "zh-CN"@ || l == "zh-TW"@,
        None => false,
    }
}

fn chinese(lang: Option<&str>) -> (r: bool)
    ensures
        r == is_chinese(match lang { Some(l) => Some(l@), None => None }),
{
    match lang {
        Some(l) => str_eq(l, "zh") || str_eq(l, "zh-CN") || str_eq(l, "zh-TW"),
        None => false,
    }
}

/// The reentry notice.
pub open spec fn reentry_text(zh: bool) -> Seq<char> {
    if zh { REENTRY_ZH@ } else { REENTRY_EN@ }
}

/// One-time reentry notice when the agent re-enters Plan mode after having exited.
pub fn plan_reentry_notice(lang: Option<&str>) -> (r: String)
    ensures
        r@ == reentry_text(is_chinese(match lang { Some(l) => Some(l@), None => None })),
{
    if chinese(lang) { string_from(REENTRY_ZH) } else { string_from(REENTRY_EN) }
}

/// What the full text says about the plan file.
pub open spec fn plan_file_info(zh: bool, path: Option<Seq<char>>, exists: bool) -> Seq<char> {
    match path {
        Some(p) => if exists {
            if zh { ZH_EXISTS_HEAD@ + p + ZH_EXISTS_TAIL@ } else { EN_EXISTS_HEAD@ + p + EN_EXISTS_TAIL@ }
        } else {
            if zh { ZH_NEW_HEAD@ + p + ZH_NEW_TAIL@ } else { EN_NEW_HEAD@ + p + EN_NEW_TAIL@ }
        },
        None => if zh { ZH_NO_PATH@ } else { EN_NO_PATH@ },
    }
}

/// The full Plan mode text.
pub open spec fn plan_full_text(zh: bool, path: Option<Seq<char>>, exists: bool) -> Seq<char> {
    if zh {
        FULL_ZH_HEAD@ + plan_file_info(true, path, exists) + FULL_ZH_TAIL@
    } else {
        FULL_EN_HEAD@ + plan_file_info(false, path, exists) + FULL_EN_TAIL@
    }
}

/// The Plan mode reminder.
pub open spec fn plan_sparse_text(zh: bool) -> Seq<char> {
    if zh { SPARSE_ZH@ } else { SPARSE_EN@ }
}

fn push_plan_file_info(out: &mut String, zh: bool, path: Option<&str>, exists: bool)
    ensures
        final(out)@ == old(out)@ + plan_file_info(zh, match path { Some(p) => Some(p@), None => None }, exists),
{
    let ghost start = out@;
    match path {
        Some(p) => {
            if exists {
                push_str(out, if zh { ZH_EXISTS_HEAD } else { EN_EXISTS_HEAD });
                push_str(out, p);
                push_str(out, if zh { ZH_EXISTS_TAIL } else { EN_EXISTS_TAIL });
            } else {
                push_str(out, if zh { ZH_NEW_HEAD } else { EN_NEW_HEAD });
                push_str(out, p);
                push_str(out, if zh { ZH_NEW_TAIL } else { EN_NEW_TAIL });
            }
            assert(out@ =~= start + plan_file_info(zh, Some(p@), exists));
        },
        None => {
            push_str(out, if zh { ZH_NO_PATH } else { EN_NO_PATH });
        },
    }
}

/// The full Plan mode instructions in English.
pub fn plan_full_en(plan_file_path: Option<&str>, plan_file_exists: bool) -> (r: String)
    ensures
        r@ == plan_full_text(false, match plan_file_path { Some(p) => Some(p@), None => None }, plan_file_exists),
{
    let mut out = string_from(FULL_EN_HEAD);
    push_plan_file_info(&mut out, false, plan_file_path, plan_file_exists);
    push_str(&mut out, FULL_EN_TAIL);
    out
}

/// The full Plan mode instructions in Chinese.
pub fn plan_full_zh(plan_file_path: Option<&str>, plan_file_exists: bool) -> (r: String)
    ensures
        r@ == plan_full_text(true, match plan_file_path { Some(p) => Some(p@), None => None }, plan_file_exists),
{
    let mut out = string_from(FULL_ZH_HEAD);
    push_plan_file_info(&mut out, true, plan_file_path, plan_file_exists);
    push_str(&mut out, FULL_ZH_TAIL);
    out
}

/// The Plan mode reminder in English.
pub fn plan_sparse_en() -> (r: String)
    ensures
        r@ == plan_sparse_text(false),
{
    string_from(SPARSE_EN)
}

/// The Plan mode reminder in Chinese.
pub fn plan_sparse_zh() -> (r: String)
    ensures
        r@ == plan_sparse_text(true),
{
    string_from(SPARSE_ZH)
}

/// Build the Plan mode attachment with the default schedule (an attachment
/// every 5 turns, every 5th of them full), in Chinese for `zh`, `zh-CN` and
/// `zh-TW` and in English otherwise.
pub fn plan_mode_attachment(plan_file_path: Option<&str>, plan_file_exists: bool, lang: Option<&str>) -> (r: ModeAttachment)
    ensures
        ({
            let zh = is_chinese(match lang { Some(l) => Some(l@), None => None });
            let path = match plan_file_path { Some(p) => Some(p@), None => None };
            &&& r.mode == ExecutionMode::Plan
            &&& r.full_template@ == plan_full_text(zh, path, plan_file_exists)
            &&& r.sparse_template@ == plan_sparse_text(zh)
            &&& r.turns_between == 5
            &&& r.full_every_n == 5
        }),
{
    let zh = chinese(lang);
    let full = if zh { plan_full_zh(plan_file_path, plan_file_exists) } else { plan_full_en(plan_file_path, plan_file_exists) };
    let sparse = if zh { plan_sparse_zh() } else { plan_sparse_en() };
    ModeAttachment { mode: ExecutionMode::Plan, full_template: full, sparse_template: sparse, turns_between: 5, full_every_n: 5 }
}

} // verus!
