//! Critic side-query for model gap compensation.
//!
//! After the agent produces a key output, a separate query asks a model to
//! review it. This module decides whether a review is due and what to ask,
//! parses the critic's answer and renders the feedback for the next turn.
use vstd::prelude::*;
use crate::text;
use crate::text::{chars_of, push_char, push_chars, push_str, push_u64, string_from, string_of, trim_chars};
use crate::context_assembly::TaskType;
use crate::plan_arg_interceptor::utf8_len;

verus! {

/// Configuration for the critic/verifier.
#[derive(Debug, Clone)]
pub struct CriticConfig {
    pub enabled: bool,
    /// Model to use for criticism (can be same as main or different).
    pub model: String,
    /// Maximum tokens for critic response.
    pub max_tokens: u32,
    /// Minimum output length (bytes) to trigger critic review.
    pub min_output_chars: usize,
}

impl Default for CriticConfig {
    fn default() -> (r: Self)
        ensures
            !r.enabled && r.model@.len() == 0 && r.max_tokens == 512 && r.min_output_chars == 200,
    {
        CriticConfig { enabled: false, model: String::new(), max_tokens: 512, min_output_chars: 200 }
    }
}

/// Result of a critic review.
#[derive(Debug, Clone)]
pub struct CriticReview {
    /// Whether the output passed review.
    pub approved: bool,
    /// Issues found (empty if approved).
    pub issues: Vec<String>,
    /// Suggested improvements (optional).
    pub suggestions: Vec<String>,
}

/// The texts of a list of strings.
pub open spec fn texts(v: Seq<String>) -> Seq<Seq<char>> {
    v.map_values(|s: String| s@)
}

/// The opening rule of the feedback block.
pub const FEEDBACK_HEAD: &'static str = "─── Review Feedback ────────────────────────────────\n";

/// The closing rule of the feedback block.
pub const FEEDBACK_FOOT: &'static str = "────────────────────────────────────────────────────\n";

/// The numbered issue lines, counting from `start + 1`.
pub open spec fn issue_lines(issues: Seq<Seq<char>>) -> Seq<char>
    decreases issues.len(),
{
    if issues.len() == 0 {
        Seq::empty()
    } else {
        issue_lines(issues.drop_last()) + text::decimal(issues.len()) + ". "@ + issues.last() + "\n"@
    }
}

/// The bulleted suggestion lines.
pub open spec fn suggestion_lines(s: Seq<Seq<char>>) -> Seq<char>
    decreases s.len(),
{
    if s.len() == 0 {
        Seq::empty()
    } else {
        suggestion_lines(s.drop_last()) + "  \u{2022} "@ + s.last() + "\n"@
    }
}

/// The feedback block for a review that did not pass.
pub open spec fn feedback_block(issues: Seq<Seq<char>>, suggestions: Seq<Seq<char>>) -> Seq<char> {
    FEEDBACK_HEAD@ + "Your output has issues that need correction:\n\n"@ + issue_lines(issues)
        + (if suggestions.len() == 0 { Seq::empty() } else { "\nSuggestions:\n"@ + suggestion_lines(suggestions) })
        + "\nPlease fix the issues above before proceeding.\n"@ + FEEDBACK_FOOT@
}

impl CriticReview {
    /// Format the review as guidance to inject into the next turn; nothing
    /// for an approved review.
    pub fn format_for_injection(&self) -> (r: Option<String>)
        ensures
            self.approved ==> r is None,
            !self.approved ==> (r matches Some(b) && b@ == feedback_block(texts(self.issues@), texts(self.suggestions@))),
    {
        if self.approved {
            return None;
        }
        let mut block = String::new();
        push_str(&mut block, FEEDBACK_HEAD);
        push_str(&mut block, "Your output has issues that need correction:\n\n");
        let ghost head = block@;
        let ghost issues = texts(self.issues@);
        let mut i: usize = 0;
        while i < self.issues.len()
            invariant
                i <= self.issues.len(),
                issues == texts(self.issues@),
                block@ == head + issue_lines(issues.take(i as int)),
            decreases self.issues.len() - i,
        {
            let ghost before = block@;
            push_u64(&mut block, (i + 1) as u64);
            push_str(&mut block, ". ");
            push_str(&mut block, self.issues[i].as_str());
            push_str(&mut block, "\n");
            proof {
                let t = issues.take(i + 1);
                assert(t.drop_last() == issues.take(i as int));
                assert(t.last() == self.issues@[i as int]@);
                assert(block@ =~= head + issue_lines(t));
            }
            i = i + 1;
        }
        proof {
            assert(issues.take(issues.len() as int) == issues);
        }
        let ghost mid = block@;
        let ghost sugg = texts(self.suggestions@);
        if self.suggestions.len() > 0 {
            push_str(&mut block, "\nSuggestions:\n");
            let ghost shead = block@;
            let mut k: usize = 0;
            while k < self.suggestions.len()
                invariant
                    k <= self.suggestions.len(),
                    sugg == texts(self.suggestions@),
                    block@ == shead + suggestion_lines(sugg.take(k as int)),
                decreases self.suggestions.len() - k,
            {
                push_str(&mut block, "  \u{2022} ");
                push_str(&mut block, self.suggestions[k].as_str());
                push_str(&mut block, "\n");
                proof {
                    let t = sugg.take(k + 1);
                    assert(t.drop_last() == sugg.take(k as int));
                    assert(t.last() == self.suggestions@[k as int]@);
                    assert(block@ =~= shead + suggestion_lines(t));
                }
                k = k + 1;
            }
            proof {
                assert(sugg.take(sugg.len() as int) == sugg);
                assert(block@ =~= mid + ("\nSuggestions:\n"@ + suggestion_lines(sugg)));
            }
        } else {
            proof {
                assert(block@ =~= mid + Seq::<char>::empty());
            }
        }
        push_str(&mut block, "\nPlease fix the issues above before proceeding.\n");
        push_str(&mut block, FEEDBACK_FOOT);
        Some(block)
    }
}

// ───────────────────────── prompts ─────────────────────────

pub const CODE_CRITIC_PROMPT: &'static str = "\
You are a code critic. Check the output for:
1. Logic errors or bugs
2. Missing error handling
3. Security vulnerabilities
4. API misuse or wrong assumptions

Output format (exactly):
APPROVED
or
ISSUES:
- issue 1
- issue 2
SUGGESTIONS:
- suggestion 1";

pub const WRITING_CRITIC_PROMPT: &'static str = "\
You are an editor. Check the output for:
1. Logical consistency and coherence
2. Missing key points or arguments
3. Factual accuracy (flag anything questionable)
4. Appropriate tone and structure

Output format (exactly):
APPROVED
or
ISSUES:
- issue 1
SUGGESTIONS:
- suggestion 1";

pub const DATA_CRITIC_PROMPT: &'static str = "\
You are a data analyst critic. Check the output for:
1. Statistical methodology correctness
2. Whether conclusions are supported by the data shown
3. Calculation errors or misinterpretations
4. Missing caveats or limitations

Output format (exactly):
APPROVED
or
ISSUES:
- issue 1
SUGGESTIONS:
- suggestion 1";

pub const GENERAL_CRITIC_PROMPT: &'static str = "\
You are a quality critic. Check the output for:
1. Correctness and accuracy
2. Completeness (are key points addressed?)
3. Clarity and coherence
4. Any obvious errors

Output format (exactly):
APPROVED
or
ISSUES:
- issue 1
SUGGESTIONS:
- suggestion 1";

/// The critic's instructions for a kind of task.
pub open spec fn critic_prompt(t: TaskType) -> Seq<char> {
    match t {
        TaskType::Coding => CODE_CRITIC_PROMPT@,
        TaskType::Writing => WRITING_CRITIC_PROMPT@,
        TaskType::DataAnalysis => DATA_CRITIC_PROMPT@,
        _ => GENERAL_CRITIC_PROMPT@,
    }
}

/// The critic's instructions for a kind of task.
pub fn critic_system_prompt(task_type: TaskType) -> (r: &'static str)
    ensures
        r@ == critic_prompt(task_type),
{
    match task_type {
        TaskType::Coding => CODE_CRITIC_PROMPT,
        TaskType::Writing => WRITING_CRITIC_PROMPT,
        TaskType::DataAnalysis => DATA_CRITIC_PROMPT,
        _ => GENERAL_CRITIC_PROMPT,
    }
}

// ───────────────────────── the request ─────────────────────────

/// The first `max_chars` characters of `s` when its UTF-8 encoding is
/// longer than `max_chars` bytes; otherwise all of it.
pub open spec fn review_excerpt(s: Seq<char>, max_chars: nat) -> Seq<char> {
    if text::byte_len(s) <= max_chars || s.len() <= max_chars { s } else { s.take(max_chars as int) }
}

/// The text to be checked, cut for the critic.
pub fn truncate_for_review(text: &str, max_chars: usize) -> (r: String)
    ensures
        r@ == review_excerpt(text@, max_chars as nat),
{
    let cs = chars_of(text);
    let n = utf8_len(cs.as_slice());
    if (n <= max_chars && n < usize::MAX) || cs.len() <= max_chars {
        return string_of(cs.as_slice());
    }
    string_of(text::slice_chars(cs.as_slice(), 0, max_chars).as_slice())
}

/// What to ask the critic.
#[derive(Debug, Clone)]
pub struct CriticRequest {
    /// The model to ask.
    pub model: String,
    /// The critic's instructions.
    pub system_prompt: String,
    /// The request carrying the output under review.
    pub user_message: String,
    /// The reply's token limit.
    pub max_tokens: u32,
}

/// Whether a review is due: the critic is on and the output is long enough.
pub open spec fn review_due(config: CriticConfig, output: Seq<char>) -> bool {
    config.enabled && text::byte_len(output) >= config.min_output_chars
}

/// Decide whether to review an output and, if so, what to ask: no request
/// when the critic is disabled or the output is shorter than the minimum.
/// The request names the configured model (`default` when none is set),
/// the instructions for the task type and the output cut to 3000
/// characters.
pub fn prepare_critic_request(config: &CriticConfig, task_type: TaskType, agent_output: &str) -> (r: Option<CriticRequest>)
    ensures
        r is Some <==> review_due(*config, agent_output@),
        r matches Some(q) ==> {
            &&& q.model@ == (if config.model@.len() == 0 { "default"@ } else { config.model@ })
            &&& q.system_prompt@ == critic_prompt(task_type)
            &&& q.user_message@ == "Review this output for correctness and quality:\n\n"@
                + review_excerpt(agent_output@, 3000)
            &&& q.max_tokens == config.max_tokens
        },
{
    if !config.enabled {
        return None;
    }
    let cs = chars_of(agent_output);
    let n = utf8_len(cs.as_slice());
    if n < config.min_output_chars {
        return None;
    }
    let mut user_message = String::new();
    push_str(&mut user_message, "Review this output for correctness and quality:\n\n");
    let excerpt = truncate_for_review(agent_output, 3000);
    push_str(&mut user_message, excerpt.as_str());
    let model = if config.model.as_str().is_empty() { string_from("default") } else { config.model.clone() };
    Some(CriticRequest {
        model,
        system_prompt: string_from(critic_system_prompt(task_type)),
        user_message,
        max_tokens: config.max_tokens,
    })
}

// ───────────────────────── parsing the verdict ─────────────────────────

/// The name of what `str::to_uppercase` returns for a text.
pub uninterp spec fn uppercase_of(s: Seq<char>) -> Seq<char>;

/// Uppercases a text with `str::to_uppercase`; the result is named
/// `uppercase_of` and nothing more is claimed.
#[verifier::external_body]
pub(crate) fn to_uppercase(s: &str) -> (r: String)
    ensures
        r@ == uppercase_of(s@),
{
    s.to_uppercase()
}

/// Where the parser is while reading the critic's lines.
pub struct ParseState {
    pub issues: Seq<Seq<char>>,
    pub suggestions: Seq<Seq<char>>,
    pub in_issues: bool,
    pub in_suggestions: bool,
}

/// The characters stripped from the front of a bullet line.
pub open spec fn is_bullet_char(c: char) -> bool {
    c == '-' || c == '\u{2022}' || c == '*' || c == ' '
}

/// The content of a bullet line: its leading bullet characters removed, then trimmed.
pub open spec fn bullet_content(line: Seq<char>) -> Seq<char> {
    text::trim(text::strip_front(line, |c: char| is_bullet_char(c)))
}

/// One line of the reply read in state `st` (the line as split, before trimming).
pub open spec fn read_line(st: ParseState, raw: Seq<char>) -> ParseState {
    let line = text::trim(raw);
    if text::has_prefix(line, "ISSUES:"@) || text::has_prefix(line, "Issues:"@) {
        ParseState { in_issues: true, in_suggestions: false, ..st }
    } else if text::has_prefix(line, "SUGGESTIONS:"@) || text::has_prefix(line, "Suggestions:"@) {
        ParseState { in_issues: false, in_suggestions: true, ..st }
    } else if line.len() > 0 && (line[0] == '-' || line[0] == '\u{2022}' || line[0] == '*') {
        let content = bullet_content(line);
        if text::byte_len(content) >= 5 {
            if !st.in_issues && st.in_suggestions {
                ParseState { suggestions: st.suggestions.push(content), ..st }
            } else {
                ParseState { issues: st.issues.push(content), ..st }
            }
        } else {
            st
        }
    } else {
        st
    }
}

/// The state after reading all lines, in order.
pub open spec fn read_lines(lines: Seq<Seq<char>>) -> ParseState
    decreases lines.len(),
{
    if lines.len() == 0 {
        ParseState { issues: Seq::empty(), suggestions: Seq::empty(), in_issues: false, in_suggestions: false }
    } else {
        read_line(read_lines(lines.drop_last()), lines.last())
    }
}

/// Whether the reply approves the output outright.
pub open spec fn reply_approves(response: Seq<char>) -> bool {
    let t = text::trim(response);
    text::has_prefix(t, "APPROVED"@) || text::has_prefix(uppercase_of(t), "APPROVED"@)
}

/// The lines read from a reply that does not approve outright.
pub open spec fn reply_state(response: Seq<char>) -> ParseState {
    read_lines(text::split_by(text::trim(response), |c: char| c == '\n'))
}

fn has_prefix_lit(cs: &Vec<char>, lit: &str) -> (r: bool)
    ensures
        r == text::has_prefix(cs@, lit@),
{
    let l = chars_of(lit);
    text::starts_with_chars(cs.as_slice(), l.as_slice())
}

fn bullet_content_of(line: &Vec<char>) -> (r: Vec<char>)
    ensures
        r@ == bullet_content(line@),
{
    let ghost p = |c: char| is_bullet_char(c);
    let mut a: usize = 0;
    assert(line@.subrange(0, line@.len() as int) == line@);
    while a < line.len() && (line[a] == '-' || line[a] == '\u{2022}' || line[a] == '*' || line[a] == ' ')
        invariant
            a <= line.len(),
            p == (|c: char| is_bullet_char(c)),
            text::strip_front(line@.subrange(a as int, line@.len() as int), p) == text::strip_front(line@, p),
        decreases line.len() - a,
    {
        proof {
            let sub = line@.subrange(a as int, line@.len() as int);
            assert(sub[0] == line@[a as int]);
            assert(p(sub[0]));
            assert(sub.drop_first() == line@.subrange(a + 1, line@.len() as int));
        }
        a = a + 1;
    }
    proof {
        let sub = line@.subrange(a as int, line@.len() as int);
        if a < line.len() {
            assert(sub[0] == line@[a as int]);
            assert(!p(sub[0]));
        }
        assert(text::strip_front(sub, p) == sub);
    }
    let rest = text::slice_chars(line.as_slice(), a, line.len());
    trim_chars(rest.as_slice())
}

/// Reads one line of the reply into the lists and flags.
fn read_reply_line(
    raw: &Vec<char>,
    issues: &mut Vec<String>,
    suggestions: &mut Vec<String>,
    in_issues: &mut bool,
    in_suggestions: &mut bool,
)
    ensures
        ({
            let st = ParseState {
                issues: texts(old(issues)@),
                suggestions: texts(old(suggestions)@),
                in_issues: *old(in_issues),
                in_suggestions: *old(in_suggestions),
            };
            let nx = read_line(st, raw@);
            &&& texts(final(issues)@) == nx.issues
            &&& texts(final(suggestions)@) == nx.suggestions
            &&& *final(in_issues) == nx.in_issues
            &&& *final(in_suggestions) == nx.in_suggestions
        }),
{
    let line = trim_chars(raw.as_slice());
    if has_prefix_lit(&line, "ISSUES:") || has_prefix_lit(&line, "Issues:") {
        *in_issues = true;
        *in_suggestions = false;
        return;
    }
    if has_prefix_lit(&line, "SUGGESTIONS:") || has_prefix_lit(&line, "Suggestions:") {
        *in_suggestions = true;
        *in_issues = false;
        return;
    }
    if line.len() > 0 && (line[0] == '-' || line[0] == '\u{2022}' || line[0] == '*') {
        let content = bullet_content_of(&line);
        let n = utf8_len(content.as_slice());
        if n >= 5 {
            let s = string_of(content.as_slice());
            if *in_issues {
                issues.push(s);
                proof {
                    assert(texts(issues@) =~= texts(old(issues)@).push(content@));
                }
            } else if *in_suggestions {
                suggestions.push(s);
                proof {
                    assert(texts(suggestions@) =~= texts(old(suggestions)@).push(content@));
                }
            } else {
                issues.push(s);
                proof {
                    assert(texts(issues@) =~= texts(old(issues)@).push(content@));
                }
            }
        }
    }
}

/// Parse the critic's reply. A reply that starts with `APPROVED` (in any
/// case) approves outright. Otherwise each bullet line (`-`, `•` or `*`)
/// whose content has at least 5 bytes is an issue, or a suggestion when it
/// follows a `SUGGESTIONS:` header; the review is approved when no issue
/// was found.
pub fn parse_critic_response(response: &str) -> (r: CriticReview)
    ensures
        reply_approves(response@) ==> r.approved && r.issues@.len() == 0 && r.suggestions@.len() == 0,
        !reply_approves(response@) ==> {
            let st = reply_state(response@);
            &&& texts(r.issues@) == st.issues
            &&& texts(r.suggestions@) == st.suggestions
            &&& r.approved == (st.issues.len() == 0)
        },
{
    let all = chars_of(response);
    let trimmed = trim_chars(all.as_slice());
    let t = string_of(trimmed.as_slice());
    let upper = to_uppercase(t.as_str());
    let upper_cs = chars_of(upper.as_str());
    if has_prefix_lit(&trimmed, "APPROVED") || has_prefix_lit(&upper_cs, "APPROVED") {
        return CriticReview { approved: true, issues: Vec::new(), suggestions: Vec::new() };
    }
    let mut issues: Vec<String> = Vec::new();
    let mut suggestions: Vec<String> = Vec::new();
    let mut in_issues = false;
    let mut in_suggestions = false;
    let ghost sep = |c: char| c == '\n';
    let ghost mut done: Seq<Seq<char>> = Seq::empty();
    let mut cur: Vec<char> = Vec::new();
    proof {
        assert(trimmed@.take(0) == Seq::<char>::empty());
        assert(text::split_by(trimmed@.take(0), sep) =~= done.push(cur@));
        assert(texts(issues@) =~= Seq::<Seq<char>>::empty());
        assert(texts(suggestions@) =~= Seq::<Seq<char>>::empty());
    }
    let mut i: usize = 0;
    while i < trimmed.len()
        invariant
            i <= trimmed.len(),
            sep == (|c: char| c == '\n'),
            text::split_by(trimmed@.take(i as int), sep) == done.push(cur@),
            ({
                let st = read_lines(done);
                &&& texts(issues@) == st.issues
                &&& texts(suggestions@) == st.suggestions
                &&& in_issues == st.in_issues
                &&& in_suggestions == st.in_suggestions
            }),
        decreases trimmed.len() - i,
    {
        proof {
            text::lemma_split_by_step(trimmed@, sep, i as int, done, cur@);
        }
        let c = trimmed[i];
        if c == '\n' {
            read_reply_line(&cur, &mut issues, &mut suggestions, &mut in_issues, &mut in_suggestions);
            proof {
                assert(done.push(cur@).drop_last() == done);
                done = done.push(cur@);
            }
            cur = Vec::new();
            proof {
                assert(cur@ == Seq::<char>::empty());
            }
        } else {
            cur.push(c);
        }
        i = i + 1;
    }
    read_reply_line(&cur, &mut issues, &mut suggestions, &mut in_issues, &mut in_suggestions);
    proof {
        assert(trimmed@.take(trimmed@.len() as int) == trimmed@);
        assert(done.push(cur@).drop_last() == done);
    }
    let approved = issues.len() == 0;
    CriticReview { approved, issues, suggestions }
}

} // verus!
