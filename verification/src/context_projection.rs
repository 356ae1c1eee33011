//! Decisions of the context projection pipeline: budget accounting for
//! projected tool outputs, relevance of an output to the current task, the
//! handles that let the model recall stored outputs, and the texts that
//! stand in for an output once it is projected.
use vstd::prelude::*;
use crate::text;
use crate::text::{chars_of, find_chars, lines_of, push_chars, push_str, slice_chars, str_contains, str_eq, string_of};
use crate::lsp_actions::fit_chars;
use crate::accumulator::views;
use crate::plan_arg_interceptor::{utf8_len, utf8_width_of};

verus! {

// ───────────────────────── budget accounting ─────────────────────────

/// Accumulated projection budget metrics for a single context assembly pass.
#[derive(Debug, Clone)]
pub struct ProjectionBudget {
    /// Total raw bytes of tool outputs before projection.
    pub raw_bytes: usize,
    /// Estimated raw tokens (bytes / 4) before projection.
    pub raw_tokens_estimate: usize,
    /// Total bytes of projected output after projection.
    pub projected_bytes: usize,
    /// Estimated projected tokens after projection.
    pub projected_tokens_estimate: usize,
    /// Estimated tokens saved by projection.
    pub tokens_saved: usize,
    /// Number of tool outputs that were projected.
    pub projected_count: usize,
    /// Number of tool outputs left inline (small enough).
    pub inline_count: usize,
    /// Number of tool outputs that fell back to handle-only (budget exhausted).
    pub handle_only_count: usize,
}

/// The metrics after a projection of `projected_bytes` bytes and
/// `projected_tokens` tokens replaced an output of `raw_bytes` bytes.
pub open spec fn after_projection(b: ProjectionBudget, raw_bytes: usize, projected_bytes: usize, projected_tokens: usize) -> ProjectionBudget {
    ProjectionBudget {
        raw_bytes: (b.raw_bytes + raw_bytes) as usize,
        raw_tokens_estimate: (b.raw_tokens_estimate + raw_bytes / 4) as usize,
        projected_bytes: (b.projected_bytes + projected_bytes) as usize,
        projected_tokens_estimate: (b.projected_tokens_estimate + projected_tokens) as usize,
        tokens_saved: (b.tokens_saved + (if raw_bytes / 4 >= projected_tokens {
            raw_bytes / 4 - projected_tokens
        } else {
            0
        })) as usize,
        projected_count: (b.projected_count + 1) as usize,
        ..b
    }
}

/// The metrics after an output of `raw_bytes` bytes fell back to a
/// handle-only stub, which saves the raw estimate less the stub's cost of
/// 30 tokens (never less than nothing).
pub open spec fn after_handle_only(b: ProjectionBudget, raw_bytes: usize) -> ProjectionBudget {
    ProjectionBudget {
        raw_bytes: (b.raw_bytes + raw_bytes) as usize,
        raw_tokens_estimate: (b.raw_tokens_estimate + raw_bytes / 4) as usize,
        tokens_saved: (b.tokens_saved + (if raw_bytes / 4 >= 30 { raw_bytes / 4 - 30 } else { 0 })) as usize,
        handle_only_count: (b.handle_only_count + 1) as usize,
        ..b
    }
}

/// The estimated cost in tokens of the stub that replaces an output.
pub const HANDLE_STUB_TOKENS: usize = 30;

impl Default for ProjectionBudget {
    fn default() -> (r: Self)
        ensures
            r.raw_bytes == 0 && r.raw_tokens_estimate == 0 && r.projected_bytes == 0
                && r.projected_tokens_estimate == 0 && r.tokens_saved == 0 && r.projected_count == 0
                && r.inline_count == 0 && r.handle_only_count == 0,
    {
        ProjectionBudget {
            raw_bytes: 0,
            raw_tokens_estimate: 0,
            projected_bytes: 0,
            projected_tokens_estimate: 0,
            tokens_saved: 0,
            projected_count: 0,
            inline_count: 0,
            handle_only_count: 0,
        }
    }
}

impl ProjectionBudget {
    /// Record an inline decision (small output kept as-is).
    pub fn record_inline(&mut self, raw_bytes: usize)
        requires
            old(self).raw_bytes + raw_bytes <= usize::MAX,
            old(self).raw_tokens_estimate + raw_bytes / 4 <= usize::MAX,
            old(self).inline_count < usize::MAX,
        ensures
            *final(self) == (ProjectionBudget {
                raw_bytes: (old(self).raw_bytes + raw_bytes) as usize,
                raw_tokens_estimate: (old(self).raw_tokens_estimate + raw_bytes / 4) as usize,
                inline_count: (old(self).inline_count + 1) as usize,
                ..*old(self)
            }),
    {
        self.raw_bytes = self.raw_bytes + raw_bytes;
        self.raw_tokens_estimate = self.raw_tokens_estimate + raw_bytes / 4;
        self.inline_count = self.inline_count + 1;
    }

    /// Record a projection decision (typed summary or excerpt): the raw
    /// output was replaced by a projection of `projected_bytes` bytes and an
    /// estimated `projected_tokens` tokens.
    pub fn record_projection(&mut self, raw_bytes: usize, projected_bytes: usize, projected_tokens: usize)
        requires
            old(self).raw_bytes + raw_bytes <= usize::MAX,
            old(self).raw_tokens_estimate + raw_bytes / 4 <= usize::MAX,
            old(self).projected_bytes + projected_bytes <= usize::MAX,
            old(self).projected_tokens_estimate + projected_tokens <= usize::MAX,
            old(self).tokens_saved + (if raw_bytes / 4 >= projected_tokens { raw_bytes / 4 - projected_tokens } else { 0 })
                <= usize::MAX,
            old(self).projected_count < usize::MAX,
        ensures
            *final(self) == after_projection(*old(self), raw_bytes, projected_bytes, projected_tokens),
    {
        self.raw_bytes = self.raw_bytes + raw_bytes;
        self.raw_tokens_estimate = self.raw_tokens_estimate + raw_bytes / 4;
        self.projected_bytes = self.projected_bytes + projected_bytes;
        self.projected_tokens_estimate = self.projected_tokens_estimate + projected_tokens;
        let saved: usize = if raw_bytes / 4 >= projected_tokens { raw_bytes / 4 - projected_tokens } else { 0 };
        self.tokens_saved = self.tokens_saved + saved;
        self.projected_count = self.projected_count + 1;
    }

    /// Record a handle-only fallback (budget exhausted): the output was
    /// replaced by a stub, which saves the raw estimate less the stub's
    /// cost of 30 tokens (never less than nothing).
    pub fn record_handle_only_fallback(&mut self, raw_bytes: usize)
        requires
            old(self).raw_bytes + raw_bytes <= usize::MAX,
            old(self).raw_tokens_estimate + raw_bytes / 4 <= usize::MAX,
            old(self).tokens_saved + (if raw_bytes / 4 >= 30 { raw_bytes / 4 - 30 } else { 0 }) <= usize::MAX,
            old(self).handle_only_count < usize::MAX,
        ensures
            *final(self) == after_handle_only(*old(self), raw_bytes),
    {
        self.raw_bytes = self.raw_bytes + raw_bytes;
        self.raw_tokens_estimate = self.raw_tokens_estimate + raw_bytes / 4;
        let saved: usize = if raw_bytes / 4 >= HANDLE_STUB_TOKENS { raw_bytes / 4 - HANDLE_STUB_TOKENS } else { 0 };
        self.tokens_saved = self.tokens_saved + saved;
        self.handle_only_count = self.handle_only_count + 1;
    }
}

// ───────────────────────── handles ─────────────────────────

/// The handle in the tag format: the text between the first
/// `<output-handle>` and the next `</output-handle>`.
pub open spec fn tagged_handle(t: Seq<char>) -> Option<Seq<char>> {
    match text::first_occurrence(t, "<output-handle>"@) {
        Some(s) => {
            let rest = t.skip(s + "<output-handle>"@.len());
            match text::first_occurrence(rest, "</output-handle>"@) {
                Some(e) => Some(rest.take(e)),
                None => None,
            }
        },
        None => None,
    }
}

/// The handle in the bracket format: the text after the first
/// ` — handle: ` up to the next `]`, when it starts with `out_`.
pub open spec fn bracketed_handle(t: Seq<char>) -> Option<Seq<char>> {
    match text::first_occurrence(t, " \u{2014} handle: "@) {
        Some(s) => {
            let rest = t.skip(s + " \u{2014} handle: "@.len());
            match text::first_occurrence(rest, seq![']']) {
                Some(e) => if text::has_prefix(rest.take(e), "out_"@) { Some(rest.take(e)) } else { None },
                None => None,
            }
        },
        None => None,
    }
}

/// The handle in a message: in the tag format if there is one, otherwise
/// in the bracket format.
pub open spec fn message_handle(t: Seq<char>) -> Option<Seq<char>> {
    match tagged_handle(t) {
        Some(h) => Some(h),
        None => bracketed_handle(t),
    }
}

fn find_lit(h: &Vec<char>, lit: &str) -> (r: Option<usize>)
    ensures
        r matches Some(i) ==> text::first_occurrence(h@, lit@) == Some(i as int)
            && i + lit@.len() <= h.len(),
        r is None <==> text::first_occurrence(h@, lit@) is None,
{
    let n = chars_of(lit);
    let r = find_chars(h.as_slice(), n.as_slice());
    r
}

fn tagged_handle_of(cs: &Vec<char>) -> (r: Option<String>)
    ensures
        r matches Some(h) ==> tagged_handle(cs@) == Some(h@),
        r is None <==> tagged_handle(cs@) is None,
{
    let open_tag = "<output-handle>";
    let ol = chars_of(open_tag);
    match find_lit(cs, open_tag) {
        Some(s) => {
            let rest = slice_chars(cs.as_slice(), s + ol.len(), cs.len());
            assert(rest@ == cs@.skip(s + open_tag@.len()));
            match find_lit(&rest, "</output-handle>") {
                Some(e) => {
                    let h = slice_chars(rest.as_slice(), 0, e);
                    Some(string_of(h.as_slice()))
                },
                None => None,
            }
        },
        None => None,
    }
}

#[verifier::rlimit(40)]
fn bracketed_handle_of(cs: &Vec<char>) -> (r: Option<String>)
    ensures
        r matches Some(h) ==> bracketed_handle(cs@) == Some(h@),
        r is None <==> bracketed_handle(cs@) is None,
{
    let marker = " \u{2014} handle: ";
    let ml = chars_of(marker);
    match find_lit(cs, marker) {
        Some(s) => {
            let rest = slice_chars(cs.as_slice(), s + ml.len(), cs.len());
            assert(rest@ == cs@.skip(s + marker@.len()));
            let close: Vec<char> = vec![']'];
            assert(close@ == seq![']']);
            match find_chars(rest.as_slice(), close.as_slice()) {
                Some(e) => {
                    assert(text::occurs_at(rest@, close@, e as int));
                    let h = slice_chars(rest.as_slice(), 0, e);
                    let p = chars_of("out_");
                    if text::starts_with_chars(h.as_slice(), p.as_slice()) {
                        Some(string_of(h.as_slice()))
                    } else {
                        None
                    }
                },
                None => None,
            }
        },
        None => None,
    }
}

/// Extract an output handle from a message, in either the tag format
/// `<output-handle>…</output-handle>` or the bracket format
/// `[… — handle: out_…]`.
pub fn extract_handle_from_message(text: &str) -> (r: Option<String>)
    ensures
        r matches Some(h) ==> message_handle(text@) == Some(h@),
        r is None <==> message_handle(text@) is None,
{
    let cs = chars_of(text);
    match tagged_handle_of(&cs) {
        Some(h) => Some(h),
        None => bracketed_handle_of(&cs),
    }
}

// ───────────────────────── relevance ─────────────────────────

/// Relevance classification for a tool output.
#[derive(Debug, Clone, Copy, PartialEq, Eq, Structural)]
pub enum OutputRelevance {
    High,
    Low,
}

/// Whether a message sits in the last fifth of the conversation: its
/// position over the number of messages exceeds 0.8.
pub open spec fn is_recent(msg_index: nat, total_messages: nat) -> bool {
    total_messages > 0 && 5 * msg_index > 4 * total_messages
}

/// Whether an output reports a failure.
pub open spec fn mentions_failure(content: Seq<char>) -> bool {
    ||| text::seq_contains(content, "error"@)
    ||| text::seq_contains(content, "Error"@)
    ||| text::seq_contains(content, "FAILED"@)
    ||| text::seq_contains(content, "panic"@)
    ||| text::seq_contains(content, "assertion failed"@)
    ||| text::seq_contains(content, "exit code"@)
}

/// The lines of an output used to find references: among its first five
/// lines, the first three longer than 15 bytes.
pub open spec fn probe_lines(content: Seq<char>) -> Seq<Seq<char>> {
    let first = if text::str_lines(content).len() <= 5 { text::str_lines(content) } else { text::str_lines(content).take(5) };
    let long = long_lines(first);
    if long.len() <= 3 { long } else { long.take(3) }
}

/// The lines longer than 15 bytes, in order.
pub open spec fn long_lines(ls: Seq<Seq<char>>) -> Seq<Seq<char>>
    decreases ls.len(),
{
    if ls.len() == 0 {
        Seq::empty()
    } else {
        let r = long_lines(ls.drop_last());
        if text::byte_len(ls.last()) > 15 { r.push(ls.last()) } else { r }
    }
}

/// The start of a line that is looked for: its longest prefix of at most
/// 40 bytes that ends between characters.
pub open spec fn probe(line: Seq<char>) -> Seq<char> {
    line.take(fit_chars(line, 40, 0) as int)
}

/// Whether some assistant text contains the start of some probe line.
pub open spec fn is_referenced(content: Seq<char>, assistant_texts: Seq<Seq<char>>) -> bool {
    exists|a: int, l: int| 0 <= a < assistant_texts.len() && 0 <= l < probe_lines(content).len()
        && text::seq_contains(#[trigger] assistant_texts[a], #[trigger] probe(probe_lines(content)[l]))
}

/// Tools whose output is relevant by default.
pub open spec fn key_tool(name: Seq<char>) -> bool {
    ||| name == "read_file"@ ||| name == "Read"@ ||| name == "Bash"@ ||| name == "shell"@
    ||| name == "shell_exec"@ ||| name == "Glob"@ ||| name == "Grep"@
}

/// The relevance of an output: high when recent, failing, referenced by
/// the assistant or produced by a key tool; low otherwise.
pub open spec fn relevance(
    msg_index: nat,
    total_messages: nat,
    tool_name: Seq<char>,
    content: Seq<char>,
    assistant_texts: Seq<Seq<char>>,
) -> OutputRelevance {
    if is_recent(msg_index, total_messages) || mentions_failure(content)
        || is_referenced(content, assistant_texts) || key_tool(tool_name) {
        OutputRelevance::High
    } else {
        OutputRelevance::Low
    }
}

/// The output of a key tool (`read_file`, `Read`, `Bash`, `shell`,
/// `shell_exec`, `Glob`, `Grep`) is highly relevant wherever it stands and
/// whatever it says; an output that is not recent, reports no failure, is
/// not quoted by the assistant and comes from another tool is not.
pub proof fn lemma_key_tools_are_relevant(
    msg_index: nat,
    total_messages: nat,
    tool_name: Seq<char>,
    content: Seq<char>,
    assistant_texts: Seq<Seq<char>>,
)
    ensures
        (tool_name == "read_file"@ || tool_name == "Read"@ || tool_name == "Bash"@ || tool_name == "shell"@
            || tool_name == "shell_exec"@ || tool_name == "Glob"@ || tool_name == "Grep"@)
            ==> relevance(msg_index, total_messages, tool_name, content, assistant_texts) == OutputRelevance::High,
        relevance(msg_index, total_messages, tool_name, content, assistant_texts) == OutputRelevance::Low
            ==> tool_name != "read_file"@ && tool_name != "Read"@ && tool_name != "Bash"@ && tool_name != "shell"@
                && tool_name != "shell_exec"@ && tool_name != "Glob"@ && tool_name != "Grep"@
                && !is_recent(msg_index, total_messages) && !mentions_failure(content),
{
}

fn prefix_within(line: &Vec<char>, max: usize) -> (r: Vec<char>)
    ensures
        r@ == line@.take(fit_chars(line@, max as nat, 0) as int),
{
    let mut acc: usize = 0;
    let mut i: usize = 0;
    while i < line.len() && utf8_width_of(line[i]) <= max - acc
        invariant
            i <= line.len(),
            acc == text::byte_len(line@.take(i as int)),
            acc <= max,
            fit_chars(line@, max as nat, i as nat) == fit_chars(line@, max as nat, 0),
        decreases line.len() - i,
    {
        proof {
            assert(line@.take(i + 1).drop_last() == line@.take(i as int));
        }
        acc = acc + utf8_width_of(line[i]);
        i = i + 1;
    }
    proof {
        if i < line.len() {
            assert(line@.take(i + 1).drop_last() == line@.take(i as int));
        }
    }
    slice_chars(line.as_slice(), 0, i)
}

fn probe_lines_of(content: &str) -> (r: Vec<Vec<char>>)
    ensures
        r@.map_values(|l: Vec<char>| l@) == probe_lines(content@),
{
    let lines = lines_of(content);
    let ghost ls = lines@.map_values(|l: Vec<char>| l@);
    let n: usize = if lines.len() <= 5 { lines.len() } else { 5 };
    let ghost first = if ls.len() <= 5 { ls } else { ls.take(5) };
    let mut out: Vec<Vec<char>> = Vec::new();
    let mut i: usize = 0;
    proof {
        assert(out@.map_values(|l: Vec<char>| l@) =~= long_lines(first.take(0)));
    }
    while i < n
        invariant
            i <= n,
            n == first.len(),
            ls == lines@.map_values(|l: Vec<char>| l@),
            first == (if ls.len() <= 5 { ls } else { ls.take(5) }),
            out@.map_values(|l: Vec<char>| l@) == long_lines(first.take(i as int)),
        decreases n - i,
    {
        proof {
            assert(first.take(i + 1).drop_last() == first.take(i as int));
            assert(first.take(i + 1).last() == lines@[i as int]@);
        }
        if utf8_len(lines[i].as_slice()) > 15 {
            let ghost old_out = out@;
            let l = slice_chars(lines[i].as_slice(), 0, lines[i].len());
            proof {
                assert(l@ =~= lines@[i as int]@);
            }
            out.push(l);
            proof {
                assert(out@.map_values(|l: Vec<char>| l@) =~= old_out.map_values(|l: Vec<char>| l@).push(lines@[i as int]@));
            }
        }
        i = i + 1;
    }
    proof {
        assert(first.take(n as int) == first);
    }
    if out.len() > 3 {
        let ghost all = out@.map_values(|l: Vec<char>| l@);
        out.truncate(3);
        proof {
            assert(out@.map_values(|l: Vec<char>| l@) =~= all.take(3));
        }
    }
    out
}

fn referenced(content: &str, assistant_texts: &[String]) -> (r: bool)
    ensures
        r == is_referenced(content@, assistant_texts@.map_values(|s: String| s@)),
{
    let probes = probe_lines_of(content);
    let ghost ps = probes@.map_values(|l: Vec<char>| l@);
    let ghost asst = assistant_texts@.map_values(|s: String| s@);
    let mut a: usize = 0;
    while a < assistant_texts.len()
        invariant
            a <= assistant_texts.len(),
            ps == probes@.map_values(|l: Vec<char>| l@),
            ps == probe_lines(content@),
            asst == assistant_texts@.map_values(|s: String| s@),
            forall|x: int, l: int| 0 <= x < a && 0 <= l < ps.len()
                ==> !text::seq_contains(#[trigger] asst[x], #[trigger] probe(ps[l])),
        decreases assistant_texts.len() - a,
    {
        let mut l: usize = 0;
        while l < probes.len()
            invariant
                l <= probes.len(),
                a < assistant_texts.len(),
                ps == probes@.map_values(|l: Vec<char>| l@),
                ps == probe_lines(content@),
                asst == assistant_texts@.map_values(|s: String| s@),
                forall|x: int, k: int| 0 <= x < a && 0 <= k < ps.len()
                    ==> !text::seq_contains(#[trigger] asst[x], #[trigger] probe(ps[k])),
                forall|k: int| 0 <= k < l ==> !text::seq_contains(asst[a as int], #[trigger] probe(ps[k])),
            decreases probes.len() - l,
        {
            let pre = prefix_within(&probes[l], 40);
            let needle = string_of(pre.as_slice());
            proof {
                assert(ps[l as int] == probes@[l as int]@);
                assert(asst[a as int] == assistant_texts@[a as int]@);
            }
            if str_contains(assistant_texts[a].as_str(), needle.as_str()) {
                proof {
                    assert(text::seq_contains(asst[a as int], probe(ps[l as int])));
                }
                return true;
            }
            l = l + 1;
        }
        a = a + 1;
    }
    false
}

fn contains_lit(cs: &Vec<char>, lit: &str) -> (r: bool)
    ensures
        r == text::seq_contains(cs@, lit@),
{
    let n = chars_of(lit);
    text::contains_chars(cs.as_slice(), n.as_slice())
}

/// Classify the relevance of a tool output from its position in the
/// conversation, its content, its tool and whether the assistant quoted it.
pub fn classify_relevance(
    msg_index: usize,
    total_messages: usize,
    tool_name: &str,
    content: &str,
    assistant_texts: &[String],
) -> (r: OutputRelevance)
    ensures
        r == relevance(msg_index as nat, total_messages as nat, tool_name@, content@,
            assistant_texts@.map_values(|s: String| s@)),
{
    if total_messages > 0 && (msg_index as u128) * 5 > (total_messages as u128) * 4 {
        return OutputRelevance::High;
    }
    let cs = chars_of(content);
    if contains_lit(&cs, "error") || contains_lit(&cs, "Error") || contains_lit(&cs, "FAILED")
        || contains_lit(&cs, "panic") || contains_lit(&cs, "assertion failed")
        || contains_lit(&cs, "exit code") {
        return OutputRelevance::High;
    }
    if referenced(content, assistant_texts) {
        return OutputRelevance::High;
    }
    if str_eq(tool_name, "read_file") || str_eq(tool_name, "Read") || str_eq(tool_name, "Bash")
        || str_eq(tool_name, "shell") || str_eq(tool_name, "shell_exec") || str_eq(tool_name, "Glob")
        || str_eq(tool_name, "Grep") {
        OutputRelevance::High
    } else {
        OutputRelevance::Low
    }
}

// ───────────────────────── labels and stubs ─────────────────────────

/// The human-readable kind of a tool's output.
pub open spec fn type_label(name: Seq<char>) -> Seq<char> {
    if name == "Bash"@ || name == "shell"@ || name == "shell_exec"@ || name == "run_command"@ || name == "exec"@ {
        "shell/test output"@
    } else if name == "Read"@ || name == "read_file"@ {
        "file read output"@
    } else if name == "Grep"@ || name == "search"@ || name == "rg"@ {
        "search/grep output"@
    } else if name == "Glob"@ || name == "ls"@ || name == "list_dir"@ || name == "list_directory"@ {
        "directory listing"@
    } else if name == "mcp__browser"@ || name == "browser"@ || name == "TakeSnapshot"@ {
        "browser snapshot"@
    } else if text::has_prefix(name, "mcp__"@) {
        "JSON/structured output"@
    } else {
        "text output"@
    }
}

/// Map a tool name to a human-readable type label.
pub fn classify_type_label(tool_name: &str) -> (r: &'static str)
    ensures
        r@ == type_label(tool_name@),
{
    if str_eq(tool_name, "Bash") || str_eq(tool_name, "shell") || str_eq(tool_name, "shell_exec")
        || str_eq(tool_name, "run_command") || str_eq(tool_name, "exec") {
        "shell/test output"
    } else if str_eq(tool_name, "Read") || str_eq(tool_name, "read_file") {
        "file read output"
    } else if str_eq(tool_name, "Grep") || str_eq(tool_name, "search") || str_eq(tool_name, "rg") {
        "search/grep output"
    } else if str_eq(tool_name, "Glob") || str_eq(tool_name, "ls") || str_eq(tool_name, "list_dir")
        || str_eq(tool_name, "list_directory") {
        "directory listing"
    } else if str_eq(tool_name, "mcp__browser") || str_eq(tool_name, "browser") || str_eq(tool_name, "TakeSnapshot") {
        "browser snapshot"
    } else if text::str_starts_with(tool_name, "mcp__") {
        "JSON/structured output"
    } else {
        "text output"
    }
}

/// The stub that replaces an output when the budget is exhausted.
pub open spec fn handle_only_text(tool_name: Seq<char>, handle: Seq<char>) -> Seq<char> {
    "[output stored \u{2014} handle: "@ + handle + "]\nType: "@ + type_label(tool_name)
        + "\nUse output_read, output_search, or output_summary to recall content.\n"@
}

/// Build a handle-only fallback message: the handle, so the model can
/// recall the content, and the kind of output.
pub fn build_handle_only(tool_name: &str, handle: &str) -> (r: String)
    ensures
        r@ == handle_only_text(tool_name@, handle@),
{
    let mut out = String::new();
    push_str(&mut out, "[output stored \u{2014} handle: ");
    push_str(&mut out, handle);
    push_str(&mut out, "]\nType: ");
    push_str(&mut out, classify_type_label(tool_name));
    push_str(&mut out, "\nUse output_read, output_search, or output_summary to recall content.\n");
    out
}

/// A line cut to at most `max_bytes` bytes: kept when it fits; otherwise
/// its longest prefix within `max_bytes - 3` bytes that ends between
/// characters, followed by `...`.
pub open spec fn truncated_line(line: Seq<char>, max_bytes: nat) -> Seq<char> {
    if text::byte_len(line) <= max_bytes {
        line
    } else {
        let cutoff: nat = if max_bytes >= 3 { (max_bytes - 3) as nat } else { 0 };
        line.take(fit_chars(line, cutoff, 0) as int) + "..."@
    }
}

/// Truncate a line to at most `max_bytes` bytes, respecting character
/// boundaries; `...` marks a cut.
pub fn safe_truncate_line(line: &str, max_bytes: usize) -> (r: String)
    ensures
        r@ == truncated_line(line@, max_bytes as nat),
{
    let cs = chars_of(line);
    if crate::magic_docs::bytes_within(cs.as_slice(), max_bytes) {
        return string_of(cs.as_slice());
    }
    let cutoff: usize = if max_bytes >= 3 { max_bytes - 3 } else { 0 };
    let head = prefix_within(&cs, cutoff);
    let mut out = string_of(head.as_slice());
    push_str(&mut out, "...");
    out
}

/// A cut line never exceeds its byte budget, when the budget leaves room
/// for the `...` marker.
pub proof fn lemma_truncated_line_fits(line: Seq<char>, max_bytes: nat)
    requires
        max_bytes >= 3,
    ensures
        text::byte_len(truncated_line(line, max_bytes)) <= max_bytes,
{
    if text::byte_len(line) > max_bytes {
        let cutoff = (max_bytes - 3) as nat;
        let k = fit_chars(line, cutoff, 0);
        lemma_fit_chars_fits(line, cutoff, 0);
        lemma_byte_len_add(line.take(k as int), "..."@);
        reveal_strlit("...");
        reveal_with_fuel(text::byte_len, 4);
    }
}

proof fn lemma_fit_chars_fits(s: Seq<char>, n: nat, i: nat)
    requires
        i <= s.len(),
        text::byte_len(s.take(i as int)) <= n,
    ensures
        fit_chars(s, n, i) <= s.len(),
        text::byte_len(s.take(fit_chars(s, n, i) as int)) <= n,
    decreases s.len() - i,
{
    if i < s.len() && text::byte_len(s.take((i + 1) as int)) <= n {
        lemma_fit_chars_fits(s, n, i + 1);
    }
}

proof fn lemma_byte_len_add(a: Seq<char>, b: Seq<char>)
    ensures
        text::byte_len(a + b) == text::byte_len(a) + text::byte_len(b),
    decreases b.len(),
{
    if b.len() == 0 {
        assert(a + b == a);
    } else {
        assert((a + b).drop_last() == a + b.drop_last());
        lemma_byte_len_add(a, b.drop_last());
    }
}

// ───────────────────────── projections ─────────────────────────

/// Where a projection's text comes from.
#[derive(Debug, Clone, Copy, PartialEq, Eq, Structural)]
pub enum ProjectionProvenance {
    /// A summary typed by the kind of output, with an excerpt.
    TypedSummary,
    /// Only the stored asset's size and handle.
    AssetManifest,
}

/// What stands in the context for a stored tool output.
#[derive(Debug, Clone)]
pub struct Projection {
    pub type_label: String,
    pub summary_lines: Vec<String>,
    pub excerpt: Option<String>,
    pub handle: String,
    pub provenance: ProjectionProvenance,
    /// Calls of the recall tools that fetch the stored output.
    pub recall_guidance: Vec<String>,
    pub is_failure: bool,
}

/// The view of a [`Projection`].
pub struct ProjectionModel {
    pub type_label: Seq<char>,
    pub summary_lines: Seq<Seq<char>>,
    pub excerpt: Option<Seq<char>>,
    pub handle: Seq<char>,
    pub provenance: ProjectionProvenance,
    pub recall_guidance: Seq<Seq<char>>,
    pub is_failure: bool,
}

impl View for Projection {
    type V = ProjectionModel;

    open spec fn view(&self) -> ProjectionModel {
        ProjectionModel {
            type_label: self.type_label@,
            summary_lines: views(self.summary_lines@),
            excerpt: match self.excerpt {
                Some(e) => Some(e@),
                None => None,
            },
            handle: self.handle@,
            provenance: self.provenance,
            recall_guidance: views(self.recall_guidance@),
            is_failure: self.is_failure,
        }
    }
}

/// The summary line that names the tool.
pub open spec fn tool_line(tool_name: Seq<char>) -> Seq<char> {
    "Tool: "@ + tool_name
}

/// The summary line with an output's size in bytes, lines and estimated
/// tokens (a token per four bytes).
pub open spec fn size_line(raw_bytes: nat, raw_lines: nat) -> Seq<char> {
    "Size: "@ + text::decimal(raw_bytes) + " bytes, "@ + text::decimal(raw_lines) + " lines, ~"@
        + text::decimal(raw_bytes / 4) + " tokens"@
}

/// Whether an output reads as a failure.
pub open spec fn looks_failed(content: Seq<char>) -> bool {
    text::seq_contains(content, "error"@) || text::seq_contains(content, "Error"@)
        || text::seq_contains(content, "FAILED"@) || text::seq_contains(content, "exit code: 1"@)
        || text::seq_contains(content, "exit code: 2"@)
}

/// The last `n` lines of `lines` (all of them when there are fewer).
pub open spec fn tail_lines(lines: Seq<Seq<char>>, n: nat) -> Seq<Seq<char>> {
    if lines.len() <= n {
        lines
    } else {
        lines.subrange(lines.len() - n, lines.len() as int)
    }
}

/// The line budget of an excerpt, in bytes.
pub const EXCERPT_LINE_BYTES: usize = 500;

/// The excerpt of an output: its last five lines, each cut to 500 bytes,
/// joined by newlines; none for an output without lines.
pub open spec fn excerpt_of(content: Seq<char>) -> Option<Seq<char>> {
    let tail = tail_lines(text::str_lines(content), 5);
    if tail.len() == 0 {
        None
    } else {
        Some(text::join(tail.map_values(|l: Seq<char>| truncated_line(l, EXCERPT_LINE_BYTES as nat)), "\n"@))
    }
}

/// The recall call that reads the first 500 lines of a stored output.
pub open spec fn read_hint(handle: Seq<char>) -> Seq<char> {
    "output_read handle="@ + handle + " start_line=1 end_line=500"@
}

/// The projection of an output that is summarised with an excerpt.
pub open spec fn metadata_projection(tool_name: Seq<char>, handle: Seq<char>, content: Seq<char>, raw_bytes: nat, raw_lines: nat) -> ProjectionModel {
    let head = seq![tool_line(tool_name), size_line(raw_bytes, raw_lines)];
    ProjectionModel {
        type_label: type_label(tool_name),
        summary_lines: if looks_failed(content) { head.push("Status: FAILED"@) } else { head },
        excerpt: excerpt_of(content),
        handle: handle,
        provenance: ProjectionProvenance::TypedSummary,
        recall_guidance: seq![
            read_hint(handle),
            "output_search handle="@ + handle + " pattern=<keyword>"@,
            "output_tail handle="@ + handle + " lines=50"@,
        ],
        is_failure: looks_failed(content),
    }
}

/// The projection of an output that is only listed: its size and handle.
pub open spec fn minimal_projection(tool_name: Seq<char>, handle: Seq<char>, raw_bytes: nat, raw_lines: nat) -> ProjectionModel {
    ProjectionModel {
        type_label: type_label(tool_name),
        summary_lines: seq![tool_line(tool_name), size_line(raw_bytes, raw_lines)],
        excerpt: None,
        handle: handle,
        provenance: ProjectionProvenance::AssetManifest,
        recall_guidance: seq![
            read_hint(handle),
            "output_summary handle="@ + handle + " \u{2014} get typed summary"@,
        ],
        is_failure: false,
    }
}

fn summary_head(tool_name: &str, raw_bytes: usize, raw_lines: usize) -> (r: Vec<String>)
    ensures
        views(r@) == seq![tool_line(tool_name@), size_line(raw_bytes as nat, raw_lines as nat)],
{
    let mut tool = string_of(&[]);
    push_str(&mut tool, "Tool: ");
    push_str(&mut tool, tool_name);
    let mut size = String::new();
    push_str(&mut size, "Size: ");
    text::push_u64(&mut size, raw_bytes as u64);
    push_str(&mut size, " bytes, ");
    text::push_u64(&mut size, raw_lines as u64);
    push_str(&mut size, " lines, ~");
    text::push_u64(&mut size, (raw_bytes / 4) as u64);
    push_str(&mut size, " tokens");
    let mut r: Vec<String> = Vec::new();
    r.push(tool);
    r.push(size);
    proof {
        assert(views(r@) =~= seq![tool_line(tool_name@), size_line(raw_bytes as nat, raw_lines as nat)]);
    }
    r
}

fn hint(head: &str, handle: &str, tail: &str) -> (r: String)
    ensures
        r@ == head@ + handle@ + tail@,
{
    let mut s = string_from_str(head);
    push_str(&mut s, handle);
    push_str(&mut s, tail);
    s
}

fn string_from_str(t: &str) -> (r: String)
    ensures
        r@ == t@,
{
    let mut s = String::new();
    push_str(&mut s, t);
    s
}

/// The excerpt of an output (see `excerpt_of`).
pub fn tail_excerpt(content: &str) -> (r: Option<String>)
    ensures
        match r {
            Some(e) => excerpt_of(content@) == Some(e@),
            None => excerpt_of(content@) is None,
        },
{
    let lines = lines_of(content);
    let ghost all = text::str_lines(content@);
    let n = lines.len();
    if n == 0 {
        return None;
    }
    let start: usize = if n > 5 { n - 5 } else { 0 };
    let ghost tail = tail_lines(all, 5);
    let ghost ts = tail.map_values(|l: Seq<char>| truncated_line(l, EXCERPT_LINE_BYTES as nat));
    proof {
        assert(all.len() == n);
        assert(tail.len() == n - start);
        assert forall|j: int| 0 <= j < tail.len() implies #[trigger] tail[j] == all[start + j] by {}
    }
    let mut out = String::new();
    let mut k: usize = start;
    while k < n
        invariant
            start <= k <= n,
            n == lines@.len(),
            all == lines@.map_values(|l: Vec<char>| l@),
            tail.len() == n - start,
            ts == tail.map_values(|l: Seq<char>| truncated_line(l, EXCERPT_LINE_BYTES as nat)),
            forall|j: int| 0 <= j < tail.len() ==> #[trigger] tail[j] == all[start + j],
            out@ == text::join(ts.take(k - start), "\n"@),
        decreases n - k,
    {
        let line = string_of(lines[k].as_slice());
        let cut = safe_truncate_line(line.as_str(), EXCERPT_LINE_BYTES);
        proof {
            assert(all[k as int] == lines@[k as int]@);
            assert(tail[k - start] == all[k as int]);
            assert(ts[k - start] == cut@);
            let t = ts.take(k - start + 1);
            assert(t.drop_last() =~= ts.take(k - start));
            assert(t.last() == cut@);
        }
        if k > start {
            push_str(&mut out, "\n");
        }
        push_str(&mut out, cut.as_str());
        proof {
            let t = ts.take(k - start + 1);
            if k == start {
                assert(out@ =~= cut@);
                assert(t.len() == 1);
                assert(text::join(t, "\n"@) == t[0]);
            }
        }
        k = k + 1;
    }
    proof {
        assert(ts.take(n - start) =~= ts);
    }
    Some(out)
}

/// Build a metadata projection with excerpt for a tool output.
pub fn build_metadata_projection(tool_name: &str, handle: &str, content: &str, raw_bytes: usize, raw_lines: usize) -> (p: Projection)
    ensures
        p@ == metadata_projection(tool_name@, handle@, content@, raw_bytes as nat, raw_lines as nat),
{
    let mut summary_lines = summary_head(tool_name, raw_bytes, raw_lines);
    let is_failure = str_contains(content, "error") || str_contains(content, "Error")
        || str_contains(content, "FAILED") || str_contains(content, "exit code: 1")
        || str_contains(content, "exit code: 2");
    if is_failure {
        let ghost before = summary_lines@;
        summary_lines.push(string_from_str("Status: FAILED"));
        proof {
            assert(views(summary_lines@) =~= views(before).push("Status: FAILED"@));
        }
    }
    let mut recall_guidance: Vec<String> = Vec::new();
    recall_guidance.push(hint("output_read handle=", handle, " start_line=1 end_line=500"));
    recall_guidance.push(hint("output_search handle=", handle, " pattern=<keyword>"));
    recall_guidance.push(hint("output_tail handle=", handle, " lines=50"));
    let p = Projection {
        type_label: string_from_str(classify_type_label(tool_name)),
        summary_lines,
        excerpt: tail_excerpt(content),
        handle: string_from_str(handle),
        provenance: ProjectionProvenance::TypedSummary,
        recall_guidance,
        is_failure,
    };
    proof {
        let m = metadata_projection(tool_name@, handle@, content@, raw_bytes as nat, raw_lines as nat);
        assert(p@.recall_guidance =~= m.recall_guidance);
        assert(p@.summary_lines =~= m.summary_lines);
    }
    p
}

/// Build a minimal projection (no excerpt, just size and handle).
pub fn build_minimal_projection(tool_name: &str, handle: &str, raw_bytes: usize, raw_lines: usize) -> (p: Projection)
    ensures
        p@ == minimal_projection(tool_name@, handle@, raw_bytes as nat, raw_lines as nat),
{
    let mut recall_guidance: Vec<String> = Vec::new();
    recall_guidance.push(hint("output_read handle=", handle, " start_line=1 end_line=500"));
    recall_guidance.push(hint("output_summary handle=", handle, " \u{2014} get typed summary"));
    let p = Projection {
        type_label: string_from_str(classify_type_label(tool_name)),
        summary_lines: summary_head(tool_name, raw_bytes, raw_lines),
        excerpt: None,
        handle: string_from_str(handle),
        provenance: ProjectionProvenance::AssetManifest,
        recall_guidance,
        is_failure: false,
    };
    proof {
        assert(p@.recall_guidance =~= minimal_projection(tool_name@, handle@, raw_bytes as nat, raw_lines as nat).recall_guidance);
    }
    p
}

// ───────────────────────── the pipeline ─────────────────────────

/// How large a tool output is, as the output store classifies it.
#[derive(Debug, Clone, Copy, PartialEq, Eq, Structural)]
pub enum OutputSizeClass {
    Small,
    Medium,
    Large,
}

/// What to do with one tool output, before any projection is built.
#[derive(Debug, Clone, Copy, PartialEq, Eq, Structural)]
pub enum ProjectionPlan {
    /// Leave the message alone: it is a projection already, or its output
    /// was projected earlier in this pass.
    Skip,
    /// Keep the output inline.
    KeepInline,
    /// Build a projection: a typed summary with an excerpt, or, when
    /// `minimal`, only the output's size and handle.
    Build { minimal: bool },
}

/// The plan for an output of class `size` and relevance `rel`.
pub open spec fn plan_for(size: OutputSizeClass, rel: OutputRelevance) -> ProjectionPlan {
    match size {
        OutputSizeClass::Small => ProjectionPlan::KeepInline,
        OutputSizeClass::Medium => if rel == OutputRelevance::High {
            ProjectionPlan::KeepInline
        } else {
            ProjectionPlan::Build { minimal: false }
        },
        OutputSizeClass::Large => ProjectionPlan::Build { minimal: rel == OutputRelevance::Low },
    }
}

/// The single owner of how tool outputs are shown to the model under a
/// token budget, for one context assembly pass.
#[derive(Debug)]
pub struct ContextProjectionPipeline {
    budget: ProjectionBudget,
    /// Handles projected in the current pass.
    projected_handles: Vec<String>,
    /// Most tokens that projections may take in this pass, if limited.
    projection_token_budget: Option<usize>,
    /// Tokens taken by projections so far in this pass.
    projection_tokens_used: usize,
}

/// Every counter of `b` is at most `bound`.
pub open spec fn counters_within(b: ProjectionBudget, bound: nat) -> bool {
    &&& b.raw_bytes <= bound
    &&& b.raw_tokens_estimate <= bound
    &&& b.projected_bytes <= bound
    &&& b.projected_tokens_estimate <= bound
    &&& b.tokens_saved <= bound
    &&& b.projected_count <= bound
    &&& b.inline_count <= bound
    &&& b.handle_only_count <= bound
}

impl ContextProjectionPipeline {
    /// The handles projected in this pass.
    pub closed spec fn handles(&self) -> Set<Seq<char>> {
        views(self.projected_handles@).to_set()
    }

    /// The budget metrics so far.
    pub closed spec fn metrics(&self) -> ProjectionBudget {
        self.budget
    }

    /// The projection token limit, if any.
    pub closed spec fn limit(&self) -> Option<usize> {
        self.projection_token_budget
    }

    /// Tokens taken by projections so far.
    pub closed spec fn used(&self) -> usize {
        self.projection_tokens_used
    }

    /// A pipeline with nothing recorded and no token limit.
    pub fn new() -> (r: Self)
        ensures
            r.handles() == Set::<Seq<char>>::empty(),
            r.limit() is None,
            r.used() == 0,
            counters_within(r.metrics(), 0),
    {
        let r = ContextProjectionPipeline {
            budget: ProjectionBudget::default(),
            projected_handles: Vec::new(),
            projection_token_budget: None,
            projection_tokens_used: 0,
        };
        proof {
            assert(views(r.projected_handles@).to_set() =~= Set::<Seq<char>>::empty());
        }
        r
    }

    /// Limits the tokens that projections may take in this pass; outputs
    /// beyond the limit get a handle-only stub.
    pub fn set_projection_budget(&mut self, max_tokens: usize)
        ensures
            final(self).limit() == Some(max_tokens),
            final(self).used() == old(self).used(),
            final(self).handles() == old(self).handles(),
            final(self).metrics() == old(self).metrics(),
    {
        self.projection_token_budget = Some(max_tokens);
    }

    /// The budget metrics of the pass so far.
    pub fn budget(&self) -> (r: &ProjectionBudget)
        ensures
            *r == self.metrics(),
    {
        &self.budget
    }

    /// Clears the pass's state; the token limit stays.
    pub fn reset(&mut self)
        ensures
            final(self).handles() == Set::<Seq<char>>::empty(),
            final(self).used() == 0,
            final(self).limit() == old(self).limit(),
            counters_within(final(self).metrics(), 0),
    {
        self.budget = ProjectionBudget::default();
        self.projected_handles.clear();
        self.projection_tokens_used = 0;
        proof {
            assert(views(self.projected_handles@).to_set() =~= Set::<Seq<char>>::empty());
        }
    }

    /// Takes `tokens` from the projection budget when they fit.
    pub fn try_consume_budget(&mut self, tokens: usize) -> (r: bool)
        requires
            old(self).used() + tokens <= usize::MAX,
        ensures
            r == (match old(self).limit() {
                Some(max) => old(self).used() + tokens <= max,
                None => true,
            }),
            final(self).used() == if r { (old(self).used() + tokens) as usize } else { old(self).used() },
            match old(self).limit() {
                Some(max) => old(self).used() <= max ==> final(self).used() <= max,
                None => true,
            },
            final(self).limit() == old(self).limit(),
            final(self).handles() == old(self).handles(),
            final(self).metrics() == old(self).metrics(),
    {
        match self.projection_token_budget {
            Some(max) => {
                if self.projection_tokens_used + tokens > max {
                    return false;
                }
            },
            None => {},
        }
        self.projection_tokens_used = self.projection_tokens_used + tokens;
        true
    }

    /// Whether `h` was projected in this pass.
    fn seen(&self, h: &str) -> (r: bool)
        ensures
            r == self.handles().contains(h@),
    {
        let mut i: usize = 0;
        while i < self.projected_handles.len()
            invariant
                i <= self.projected_handles.len(),
                forall|k: int| 0 <= k < i ==> self.projected_handles@[k]@ != h@,
            decreases self.projected_handles.len() - i,
        {
            if str_eq(self.projected_handles[i].as_str(), h) {
                proof {
                    assert(views(self.projected_handles@)[i as int] == h@);
                }
                return true;
            }
            i = i + 1;
        }
        proof {
            if self.handles().contains(h@) {
                let k = choose|k: int| 0 <= k < self.projected_handles@.len() && #[trigger] views(self.projected_handles@)[k] == h@;
                assert(self.projected_handles@[k]@ == h@);
            }
        }
        false
    }

    /// Plans the projection of one tool output that is not a projection
    /// already: an output whose handle was projected earlier in the pass is
    /// skipped, otherwise its handle is remembered; a small output, or a
    /// medium one relevant to the task, stays inline (and is recorded so);
    /// any other output is to be projected, minimally when it is large and
    /// not relevant.
    pub fn plan_output(&mut self, handle: Option<&str>, size: OutputSizeClass, rel: OutputRelevance, raw_bytes: usize) -> (r: ProjectionPlan)
        requires
            counters_within(old(self).metrics(), (usize::MAX - raw_bytes) as nat),
            old(self).metrics().inline_count < usize::MAX,
        ensures
            match handle {
                Some(h) => if old(self).handles().contains(h@) {
                    r == ProjectionPlan::Skip && final(self).metrics() == old(self).metrics()
                } else {
                    r == plan_for(size, rel)
                },
                None => r == plan_for(size, rel),
            },
            final(self).handles() == match handle {
                Some(h) => old(self).handles().insert(h@),
                None => old(self).handles(),
            },
            r == ProjectionPlan::KeepInline ==> final(self).metrics() == (ProjectionBudget {
                raw_bytes: (old(self).metrics().raw_bytes + raw_bytes) as usize,
                raw_tokens_estimate: (old(self).metrics().raw_tokens_estimate + raw_bytes / 4) as usize,
                inline_count: (old(self).metrics().inline_count + 1) as usize,
                ..old(self).metrics()
            }),
            r != ProjectionPlan::KeepInline ==> final(self).metrics() == old(self).metrics(),
            final(self).used() == old(self).used(),
            final(self).limit() == old(self).limit(),
    {
        match handle {
            Some(h) => {
                if self.seen(h) {
                    proof {
                        assert(self.handles().insert(h@) =~= self.handles());
                    }
                    return ProjectionPlan::Skip;
                }
                let ghost before = self.projected_handles@;
                self.projected_handles.push(crate::text::string_from(h));
                proof {
                    assert(views(self.projected_handles@) =~= views(before).push(h@));
                    views(before).lemma_push_to_set_commute(h@);
                }
            },
            None => {},
        }
        match size {
            OutputSizeClass::Small => {
                self.budget.record_inline(raw_bytes);
                ProjectionPlan::KeepInline
            },
            OutputSizeClass::Medium => {
                if rel == OutputRelevance::High {
                    self.budget.record_inline(raw_bytes);
                    ProjectionPlan::KeepInline
                } else {
                    ProjectionPlan::Build { minimal: false }
                }
            },
            OutputSizeClass::Large => ProjectionPlan::Build { minimal: rel == OutputRelevance::Low },
        }
    }

    /// Settles a built projection of `projected_tokens` tokens and
    /// `projected_bytes` bytes for an output of `raw_bytes` bytes: when it
    /// fits the budget it is used and recorded; otherwise the output of
    /// either size gets a handle-only stub, recorded as such.  Tells whether
    /// the projection is used.
    pub fn settle_projection(&mut self, size: OutputSizeClass, raw_bytes: usize, projected_bytes: usize, projected_tokens: usize) -> (r: bool)
        requires
            old(self).used() + projected_tokens <= usize::MAX,
            counters_within(
                old(self).metrics(),
                (usize::MAX - (if raw_bytes >= projected_bytes { raw_bytes } else { projected_bytes })
                    - projected_tokens) as nat,
            ),
            old(self).metrics().projected_count < usize::MAX,
            old(self).metrics().inline_count < usize::MAX,
            old(self).metrics().handle_only_count < usize::MAX,
            raw_bytes + projected_tokens <= usize::MAX,
            projected_bytes + projected_tokens <= usize::MAX,
        ensures
            r == (match old(self).limit() {
                Some(max) => old(self).used() + projected_tokens <= max,
                None => true,
            }),
            final(self).used() == if r { (old(self).used() + projected_tokens) as usize } else { old(self).used() },
            match old(self).limit() {
                Some(max) => old(self).used() <= max ==> final(self).used() <= max,
                None => true,
            },
            final(self).metrics() == if r {
                after_projection(old(self).metrics(), raw_bytes, projected_bytes, projected_tokens)
            } else {
                after_handle_only(old(self).metrics(), raw_bytes)
            },
            final(self).handles() == old(self).handles(),
            final(self).limit() == old(self).limit(),
    {
        if self.try_consume_budget(projected_tokens) {
            self.budget.record_projection(raw_bytes, projected_bytes, projected_tokens);
            true
        } else {
            self.budget.record_handle_only_fallback(raw_bytes);
            false
        }
    }
}

impl Default for ContextProjectionPipeline {
    fn default() -> (r: Self)
        ensures
            r.handles() == Set::<Seq<char>>::empty(),
            r.limit() is None,
            r.used() == 0,
            counters_within(r.metrics(), 0),
    {
        ContextProjectionPipeline::new()
    }
}

} // verus!
