//! Guidance for the model after a streak of failed tool calls.
use vstd::prelude::*;
use crate::accumulator::views;
use crate::lsp_actions::fit_chars;
use crate::message_injection::{conversation, injected, inject_user_context, ChatMessage};
use crate::plan_arg_interceptor::{utf8_len, utf8_width_of};
use crate::text::{byte_len, chars_of, join, push_chars, push_str, slice_chars, str_eq, string_from};

verus! {

/// A failed tool call of the current streak.
#[derive(Debug, Clone)]
pub struct ToolCallTrace {
    pub tool_name: String,
    pub error: Option<String>,
}

/// Longest error text shown per failed call, in bytes.
pub const ERROR_SHOWN_BYTES: usize = 150;

/// The error of a failed call.
pub open spec fn error_of(t: ToolCallTrace) -> Seq<char> {
    match t.error {
        Some(e) => e@,
        None => "unknown error"@,
    }
}

/// An error cut to 150 bytes, at a character boundary, with `...` after a cut.
pub open spec fn clipped(e: Seq<char>) -> Seq<char> {
    if byte_len(e) > ERROR_SHOWN_BYTES {
        e.take(fit_chars(e, ERROR_SHOWN_BYTES as nat, 0) as int) + "..."@
    } else {
        e
    }
}

/// The line that lists one failed call.
pub open spec fn error_line(t: ToolCallTrace) -> Seq<char> {
    "- `"@ + t.tool_name@ + "`: "@ + clipped(error_of(t))
}

/// The distinct names of `names`, in order of first appearance.
pub open spec fn distinct_names(names: Seq<Seq<char>>) -> Seq<Seq<char>>
    decreases names.len(),
{
    if names.len() == 0 {
        Seq::empty()
    } else {
        let d = distinct_names(names.drop_last());
        if d.contains(names.last()) {
            d
        } else {
            d.push(names.last())
        }
    }
}

/// The advice given for failures of `tool`.
pub open spec fn advice_for(tool: Seq<char>) -> Seq<char> {
    if tool == "read_file"@ || tool == "list_dir"@ || tool == "list_directory"@ {
        "- File/path errors: verify the path exists, check spelling, use `glob` or `list_dir` to discover correct paths\n"@
    } else if tool == "shell_exec"@ || tool == "shell"@ || tool == "run_command"@ {
        "- Command errors: check command syntax, verify required tools are installed, try simpler alternatives\n"@
    } else if tool == "write_file"@ || tool == "edit_file"@ || tool == "apply_patch"@ || tool == "multi_edit"@ {
        "- Write errors: ensure the target directory exists, check permissions, verify the file content/diff is correct\n"@
    } else if tool == "grep"@ || tool == "ripgrep"@ {
        "- Search errors: simplify the pattern, check regex syntax, try broader search scope\n"@
    } else {
        "- `"@ + tool + "` errors: review the error message carefully and try a different approach\n"@
    }
}

/// The advice lines for `tools`, in order.
pub open spec fn advice_lines(tools: Seq<Seq<char>>) -> Seq<char>
    decreases tools.len(),
{
    if tools.len() == 0 {
        Seq::empty()
    } else {
        advice_lines(tools.drop_last()) + advice_for(tools.last())
    }
}

/// Opens the guidance.
pub const GUIDANCE_OPEN: &'static str = "The following tool calls have failed consecutively:\n";
/// Introduces the advice.
pub const ADVICE_OPEN: &'static str = "\n\nBefore retrying, consider:\n";
/// Closes the guidance.
pub const GUIDANCE_CLOSE: &'static str = "\nDo NOT repeat the same failing calls. Try an alternative approach or explain the issue to the user.";

/// The guidance for a non-empty streak of failed calls: each failed call
/// with its error, then advice for each tool that failed (once per tool, in
/// order of first failure).
pub open spec fn guidance_text(streak: Seq<ToolCallTrace>) -> Seq<char> {
    GUIDANCE_OPEN@ + join(streak.map_values(|t: ToolCallTrace| error_line(t)), "\n"@) + ADVICE_OPEN@
        + advice_lines(distinct_names(streak.map_values(|t: ToolCallTrace| t.tool_name@))) + GUIDANCE_CLOSE@
}

/// `e` cut to 150 bytes at a character boundary, with `...` after a cut.
fn clip_error(e: &str) -> (r: Vec<char>)
    ensures
        r@ == clipped(e@),
{
    let cs = chars_of(e);
    let len = utf8_len(cs.as_slice());
    if len <= ERROR_SHOWN_BYTES {
        proof {
            assert(byte_len(e@) <= ERROR_SHOWN_BYTES);
        }
        return cs;
    }
    let n: usize = ERROR_SHOWN_BYTES;
    let mut acc: usize = 0;
    let mut i: usize = 0;
    proof {
        assert(cs@.take(0) =~= Seq::<char>::empty());
    }
    while i < cs.len() && acc + utf8_width_of(cs[i]) <= n
        invariant
            i <= cs.len(),
            acc == byte_len(cs@.take(i as int)),
            acc <= n,
            n == ERROR_SHOWN_BYTES,
            fit_chars(cs@, n as nat, i as nat) == fit_chars(cs@, n as nat, 0),
        decreases cs.len() - i,
    {
        proof {
            assert(cs@.take(i + 1).drop_last() == cs@.take(i as int));
        }
        acc = acc + utf8_width_of(cs[i]);
        i = i + 1;
    }
    proof {
        if i < cs.len() {
            assert(cs@.take(i + 1).drop_last() == cs@.take(i as int));
            assert(byte_len(cs@.take(i + 1)) > n);
        }
    }
    let mut out = slice_chars(cs.as_slice(), 0, i);
    out.push('.');
    out.push('.');
    out.push('.');
    proof {
        assert(out@ =~= cs@.take(fit_chars(cs@, n as nat, 0) as int) + "..."@) by {
            reveal_strlit("...");
        }
    }
    out
}

/// The advice for failures of `tool`.
fn push_advice(s: &mut String, tool: &str)
    ensures
        final(s)@ == old(s)@ + advice_for(tool@),
{
    if str_eq(tool, "read_file") || str_eq(tool, "list_dir") || str_eq(tool, "list_directory") {
        push_str(s, "- File/path errors: verify the path exists, check spelling, use `glob` or `list_dir` to discover correct paths\n");
    } else if str_eq(tool, "shell_exec") || str_eq(tool, "shell") || str_eq(tool, "run_command") {
        push_str(s, "- Command errors: check command syntax, verify required tools are installed, try simpler alternatives\n");
    } else if str_eq(tool, "write_file") || str_eq(tool, "edit_file") || str_eq(tool, "apply_patch") || str_eq(tool, "multi_edit") {
        push_str(s, "- Write errors: ensure the target directory exists, check permissions, verify the file content/diff is correct\n");
    } else if str_eq(tool, "grep") || str_eq(tool, "ripgrep") {
        push_str(s, "- Search errors: simplify the pattern, check regex syntax, try broader search scope\n");
    } else {
        push_str(s, "- `");
        push_str(s, tool);
        push_str(s, "` errors: review the error message carefully and try a different approach\n");
    }
}

/// Guidance for the model after consecutive failed tool calls; none for an
/// empty streak.
pub fn format_basic_recovery_guidance(failure_streak: &[ToolCallTrace]) -> (r: Option<String>)
    ensures
        match r {
            Some(g) => failure_streak.len() > 0 && g@ == guidance_text(failure_streak@),
            None => failure_streak.len() == 0,
        },
{
    if failure_streak.len() == 0 {
        return None;
    }
    let ghost lines = failure_streak@.map_values(|t: ToolCallTrace| error_line(t));
    let ghost names = failure_streak@.map_values(|t: ToolCallTrace| t.tool_name@);
    let mut g = string_from(GUIDANCE_OPEN);
    let ghost head = g@;
    let mut seen: Vec<String> = Vec::new();
    let mut i: usize = 0;
    while i < failure_streak.len()
        invariant
            i <= failure_streak.len(),
            failure_streak.len() > 0,
            lines == failure_streak@.map_values(|t: ToolCallTrace| error_line(t)),
            names == failure_streak@.map_values(|t: ToolCallTrace| t.tool_name@),
            g@ == head + join(lines.take(i as int), "\n"@),
            views(seen@) == distinct_names(names.take(i as int)),
        decreases failure_streak.len() - i,
    {
        let t = &failure_streak[i];
        if i > 0 {
            push_str(&mut g, "\n");
        }
        push_str(&mut g, "- `");
        push_str(&mut g, t.tool_name.as_str());
        push_str(&mut g, "`: ");
        let err = match &t.error {
            Some(e) => clip_error(e.as_str()),
            None => clip_error("unknown error"),
        };
        push_chars(&mut g, err.as_slice());
        proof {
            let tk = lines.take(i + 1);
            assert(tk.drop_last() =~= lines.take(i as int));
            assert(tk.last() == error_line(failure_streak@[i as int]));
            if i == 0 {
                assert(tk.len() == 1);
                assert(join(tk, "\n"@) == tk[0]);
            }
            assert(g@ =~= head + join(lines.take(i + 1), "\n"@));
        }
        let ghost seen_before = seen@;
        let mut found = false;
        let mut k: usize = 0;
        while k < seen.len()
            invariant
                k <= seen.len(),
                found ==> views(seen@).contains(t.tool_name@),
                !found ==> forall|q: int| 0 <= q < k ==> seen@[q]@ != t.tool_name@,
            decreases seen.len() - k,
        {
            if str_eq(seen[k].as_str(), t.tool_name.as_str()) {
                proof {
                    assert(views(seen@)[k as int] == t.tool_name@);
                }
                found = true;
            }
            k = k + 1;
        }
        let ghost nk = names.take(i + 1);
        proof {
            assert(nk.drop_last() =~= names.take(i as int));
            assert(nk.last() == t.tool_name@);
        }
        if !found {
            seen.push(t.tool_name.clone());
            proof {
                assert(!views(seen_before).contains(t.tool_name@)) by {
                    if views(seen_before).contains(t.tool_name@) {
                        let q = choose|q: int| 0 <= q < seen_before.len() && #[trigger] views(seen_before)[q] == t.tool_name@;
                        assert(seen_before[q]@ == t.tool_name@);
                    }
                }
                assert(views(seen@) =~= views(seen_before).push(t.tool_name@));
            }
        }
        i = i + 1;
    }
    proof {
        assert(lines.take(failure_streak.len() as int) =~= lines);
        assert(names.take(failure_streak.len() as int) =~= names);
    }
    push_str(&mut g, ADVICE_OPEN);
    let ghost mid = g@;
    let mut j: usize = 0;
    while j < seen.len()
        invariant
            j <= seen.len(),
            g@ == mid + advice_lines(views(seen@).take(j as int)),
        decreases seen.len() - j,
    {
        push_advice(&mut g, seen[j].as_str());
        proof {
            let sv = views(seen@);
            assert(sv.take(j + 1).drop_last() =~= sv.take(j as int));
            assert(sv.take(j + 1).last() == seen@[j as int]@);
            assert(g@ =~= mid + advice_lines(sv.take(j + 1)));
        }
        j = j + 1;
    }
    proof {
        assert(views(seen@).take(seen.len() as int) =~= views(seen@));
    }
    push_str(&mut g, GUIDANCE_CLOSE);
    proof {
        assert(g@ =~= guidance_text(failure_streak@));
    }
    Some(g)
}

/// Opens the block that carries recovery guidance.
pub const RECOVERY_OPEN: &'static str = "---\n[Tool execution recovery — review before your next tool_calls]\n";
/// Closes that block.
pub const RECOVERY_CLOSE: &'static str = "\n---";

/// Injects recovery guidance into the last user message as per-turn
/// context.
pub fn inject_tool_recovery_guidance(messages: &mut Vec<ChatMessage>, guidance: &str)
    ensures
        conversation(final(messages)@) == injected(
            conversation(old(messages)@),
            RECOVERY_OPEN@ + guidance@ + RECOVERY_CLOSE@,
        ),
{
    let mut block = string_from(RECOVERY_OPEN);
    push_str(&mut block, guidance);
    push_str(&mut block, RECOVERY_CLOSE);
    inject_user_context(messages, block.as_str());
}

/// Recovery attempts allowed per turn.
pub const MAX_RECOVERY_ATTEMPTS: u32 = 3;

/// Whether guidance is given: attempts remain, the streak is not empty, and
/// at least `min(2, max(max_errors, 1))` consecutive calls failed.
pub open spec fn recovery_due(attempts: u32, consecutive_errors: u32, max_errors: u32, streak_len: nat) -> bool {
    let trigger: int = if max_errors <= 1 { 1 } else { 2 };
    attempts < MAX_RECOVERY_ATTEMPTS && consecutive_errors >= trigger && streak_len > 0
}

/// After consecutive tool failures, injects recovery guidance into the last
/// user message and counts the attempt; tells whether it did.
pub fn try_tool_recovery(
    messages: &mut Vec<ChatMessage>,
    consecutive_errors: u32,
    max_errors: u32,
    failure_streak: &[ToolCallTrace],
    recovery_attempts: &mut u32,
) -> (r: bool)
    ensures
        r == recovery_due(*old(recovery_attempts), consecutive_errors, max_errors, failure_streak@.len()),
        r ==> *final(recovery_attempts) == *old(recovery_attempts) + 1 && conversation(final(messages)@)
            == injected(
            conversation(old(messages)@),
            RECOVERY_OPEN@ + guidance_text(failure_streak@) + RECOVERY_CLOSE@,
        ),
        !r ==> *final(recovery_attempts) == *old(recovery_attempts) && final(messages)@ == old(messages)@,
        *old(recovery_attempts) <= MAX_RECOVERY_ATTEMPTS ==> *final(recovery_attempts) <= MAX_RECOVERY_ATTEMPTS,
{
    if *recovery_attempts >= MAX_RECOVERY_ATTEMPTS {
        return false;
    }
    let trigger: u32 = if max_errors <= 1 { 1 } else { 2 };
    if consecutive_errors < trigger || failure_streak.len() == 0 {
        return false;
    }
    match format_basic_recovery_guidance(failure_streak) {
        Some(g) => {
            inject_tool_recovery_guidance(messages, g.as_str());
            *recovery_attempts = *recovery_attempts + 1;
            true
        },
        None => false,
    }
}

} // verus!
