//! Injecting dynamic context into a conversation without disturbing the
//! cacheable system prefix.
//!
//! A conversation is a list of messages, each held here by its role and its
//! text.  The "Tier-2" system message is the second of two leading system
//! messages, or the only leading one.
use vstd::prelude::*;
use crate::text::{chars_of, push_chars, push_str, string_from, string_of, trim, trim_chars};

verus! {

/// Who wrote a message.
#[derive(Debug, Clone, Copy, PartialEq, Eq, Structural)]
pub enum Role {
    System,
    User,
    Assistant,
    Tool,
}

/// One message of a conversation.
#[derive(Debug)]
pub struct ChatMessage {
    pub role: Role,
    pub content: String,
}

/// Opens the block that wraps per-turn context.
pub const SYSTEM_CONTEXT_OPEN: &'static str = "\n\n<system_context>\n";
/// Closes the block that wraps per-turn context.
pub const SYSTEM_CONTEXT_CLOSE: &'static str = "\n</system_context>";
/// Separates blocks appended to a system message.
pub const BLOCK_SEPARATOR: &'static str = "\n\n";

/// A message as a role and its text.
pub open spec fn message_view(m: ChatMessage) -> (Role, Seq<char>) {
    (m.role, m.content@)
}

/// A conversation as roles and texts.
pub open spec fn conversation(msgs: Seq<ChatMessage>) -> Seq<(Role, Seq<char>)> {
    msgs.map_values(|m: ChatMessage| message_view(m))
}

/// Index of the last user message.
pub open spec fn last_user_index(msgs: Seq<(Role, Seq<char>)>) -> Option<int>
    decreases msgs.len(),
{
    if msgs.len() == 0 {
        None
    } else if msgs.last().0 == Role::User {
        Some(msgs.len() - 1)
    } else {
        last_user_index(msgs.drop_last())
    }
}

/// Index of the Tier-2 system message.
pub open spec fn tier2_index(msgs: Seq<(Role, Seq<char>)>) -> Option<int> {
    if msgs.len() >= 2 && msgs[0].0 == Role::System && msgs[1].0 == Role::System {
        Some(1)
    } else if msgs.len() >= 1 && msgs[0].0 == Role::System {
        Some(0)
    } else {
        None
    }
}

/// `msgs` with `extra` appended to the text of message `i`.
pub open spec fn append_at(msgs: Seq<(Role, Seq<char>)>, i: int, extra: Seq<char>) -> Seq<(Role, Seq<char>)> {
    msgs.update(i, (msgs[i].0, msgs[i].1 + extra))
}

/// The conversation after `inject_user_context`.
pub open spec fn injected(msgs: Seq<(Role, Seq<char>)>, block: Seq<char>) -> Seq<(Role, Seq<char>)> {
    let b = trim(block);
    let wrapped = SYSTEM_CONTEXT_OPEN@ + b + SYSTEM_CONTEXT_CLOSE@;
    if b.len() == 0 {
        msgs
    } else {
        match last_user_index(msgs) {
            Some(i) => append_at(msgs, i, wrapped),
            None => msgs.push((Role::User, wrapped)),
        }
    }
}

/// The conversation after `push_tier2_system_prefix`.
pub open spec fn prefixed(msgs: Seq<(Role, Seq<char>)>, block: Seq<char>) -> Seq<(Role, Seq<char>)> {
    let b = trim(block);
    if b.len() == 0 {
        msgs
    } else {
        seq![(Role::System, b)] + msgs
    }
}

/// The conversation after `append_to_tier2_system`.
pub open spec fn tier2_appended(msgs: Seq<(Role, Seq<char>)>, block: Seq<char>) -> Seq<(Role, Seq<char>)> {
    let b = trim(block);
    if b.len() == 0 {
        msgs
    } else {
        match tier2_index(msgs) {
            Some(i) => append_at(msgs, i, BLOCK_SEPARATOR@ + b),
            None => prefixed(msgs, block),
        }
    }
}

/// Number of system messages that directly follow position `from`.
pub open spec fn system_run(msgs: Seq<(Role, Seq<char>)>, from: int) -> nat
    decreases msgs.len() - from,
{
    if 0 <= from < msgs.len() && msgs[from].0 == Role::System {
        1 + system_run(msgs, from + 1)
    } else {
        0
    }
}

/// `base` with each of `texts` whose trimmed form is not empty appended,
/// each after a blank line.
pub open spec fn merged_text(base: Seq<char>, texts: Seq<Seq<char>>) -> Seq<char>
    decreases texts.len(),
{
    if texts.len() == 0 {
        base
    } else {
        let last = texts.last();
        let rest = merged_text(base, texts.drop_last());
        if trim(last).len() > 0 {
            rest + BLOCK_SEPARATOR@ + last
        } else {
            rest
        }
    }
}

/// The conversation after `merge_leading_system_into_tier2`: the system
/// messages that directly follow the Tier-2 message are removed and their
/// non-blank texts appended to it, in order.
pub open spec fn merged(msgs: Seq<(Role, Seq<char>)>) -> Seq<(Role, Seq<char>)> {
    match tier2_index(msgs) {
        None => msgs,
        Some(t) => {
            let k = system_run(msgs, t + 1) as int;
            let texts = msgs.subrange(t + 1, t + 1 + k).map_values(|m: (Role, Seq<char>)| m.1);
            msgs.subrange(0, t).push((Role::System, merged_text(msgs[t].1, texts)))
                + msgs.subrange(t + 1 + k, msgs.len() as int)
        },
    }
}

proof fn lemma_system_run_bounds(msgs: Seq<(Role, Seq<char>)>, from: int)
    requires
        0 <= from,
    ensures
        from + system_run(msgs, from) <= if from <= msgs.len() { msgs.len() as int } else { from },
        forall|j: int| from <= j < from + system_run(msgs, from) ==> #[trigger] msgs[j].0 == Role::System,
        from + system_run(msgs, from) < msgs.len() ==> msgs[from + system_run(msgs, from)].0 != Role::System,
    decreases msgs.len() - from,
{
    if 0 <= from < msgs.len() && msgs[from].0 == Role::System {
        lemma_system_run_bounds(msgs, from + 1);
    }
}

proof fn lemma_last_user_index(msgs: Seq<(Role, Seq<char>)>)
    ensures
        match last_user_index(msgs) {
            Some(i) => 0 <= i < msgs.len() && msgs[i].0 == Role::User,
            None => forall|j: int| 0 <= j < msgs.len() ==> #[trigger] msgs[j].0 != Role::User,
        },
    decreases msgs.len(),
{
    if msgs.len() > 0 && msgs.last().0 != Role::User {
        let rest = msgs.drop_last();
        lemma_last_user_index(rest);
        match last_user_index(rest) {
            Some(i) => {
                assert(rest[i] == msgs[i]);
            },
            None => {
                assert forall|j: int| 0 <= j < msgs.len() implies #[trigger] msgs[j].0 != Role::User by {
                    if j < msgs.len() - 1 {
                        assert(rest[j] == msgs[j]);
                    }
                }
            },
        }
    }
}

/// Per-turn context never touches the system messages that form the
/// cacheable prefix: every message that was there stays, in place, and every
/// system message keeps its text.
pub proof fn lemma_injection_keeps_system_prefix(msgs: Seq<(Role, Seq<char>)>, block: Seq<char>)
    ensures
        injected(msgs, block).len() >= msgs.len(),
        forall|i: int| 0 <= i < msgs.len() ==> (#[trigger] injected(msgs, block)[i]).0 == msgs[i].0,
        forall|i: int| 0 <= i < msgs.len() && msgs[i].0 == Role::System ==> #[trigger] injected(msgs, block)[i]
            == msgs[i],
{
    lemma_last_user_index(msgs);
}

/// The text of `msg` with `extra` appended.
fn appended(msg: &ChatMessage, extra: &[char]) -> (r: ChatMessage)
    ensures
        message_view(r) == (msg.role, msg.content@ + extra@),
{
    let mut content = string_from(msg.content.as_str());
    push_chars(&mut content, extra);
    ChatMessage { role: msg.role, content }
}

/// Replaces message `i` by itself with `extra` appended to its text.
fn append_to_message(messages: &mut Vec<ChatMessage>, i: usize, extra: &[char])
    requires
        i < old(messages).len(),
    ensures
        conversation(final(messages)@) == append_at(conversation(old(messages)@), i as int, extra@),
{
    let m = appended(&messages[i], extra);
    messages.set(i, m);
    proof {
        assert(conversation(messages@) =~= append_at(conversation(old(messages)@), i as int, extra@));
    }
}

/// Position of the last user message.
fn find_last_user(messages: &Vec<ChatMessage>) -> (r: Option<usize>)
    ensures
        match r {
            Some(i) => i < messages.len() && last_user_index(conversation(messages@)) == Some(i as int),
            None => last_user_index(conversation(messages@)) == None::<int>,
        },
{
    let ghost c = conversation(messages@);
    let mut n: usize = messages.len();
    proof {
        assert(c.subrange(0, n as int) =~= c);
    }
    while n > 0
        invariant
            n <= messages.len(),
            c == conversation(messages@),
            last_user_index(c) == last_user_index(c.subrange(0, n as int)),
        decreases n,
    {
        let ghost pre = c.subrange(0, n as int);
        if messages[n - 1].role == Role::User {
            proof {
                assert(pre.last() == c[n - 1]);
            }
            return Some(n - 1);
        }
        proof {
            assert(pre.drop_last() =~= c.subrange(0, n - 1));
        }
        n = n - 1;
    }
    None
}

/// Position of the Tier-2 system message.
fn tier2_system_index(messages: &Vec<ChatMessage>) -> (r: Option<usize>)
    ensures
        match r {
            Some(i) => i < messages.len() && tier2_index(conversation(messages@)) == Some(i as int),
            None => tier2_index(conversation(messages@)) == None::<int>,
        },
{
    if messages.len() >= 2 && messages[0].role == Role::System && messages[1].role == Role::System {
        Some(1)
    } else if messages.len() >= 1 && messages[0].role == Role::System {
        Some(0)
    } else {
        None
    }
}

/// Injects per-turn dynamic content into the last user message, wrapped in
/// `<system_context>`; when there is no user message, appends one.  A block
/// that is blank once trimmed changes nothing.
pub fn inject_user_context(messages: &mut Vec<ChatMessage>, block: &str)
    ensures
        conversation(final(messages)@) == injected(conversation(old(messages)@), block@),
{
    let b = trim_chars(chars_of(block).as_slice());
    if b.len() == 0 {
        return;
    }
    let mut wrapped: Vec<char> = chars_of(SYSTEM_CONTEXT_OPEN);
    let mut tail = b.clone();
    let close = chars_of(SYSTEM_CONTEXT_CLOSE);
    let mut k: usize = 0;
    while k < close.len()
        invariant
            k <= close.len(),
            tail@ == b@ + close@.subrange(0, k as int),
        decreases close.len() - k,
    {
        tail.push(close[k]);
        k = k + 1;
        proof {
            assert(tail@ =~= b@ + close@.subrange(0, k as int));
        }
    }
    wrapped.append(&mut tail);
    proof {
        assert(close@.subrange(0, close@.len() as int) =~= close@);
        assert(wrapped@ =~= SYSTEM_CONTEXT_OPEN@ + trim(block@) + SYSTEM_CONTEXT_CLOSE@);
    }
    match find_last_user(messages) {
        Some(i) => {
            append_to_message(messages, i, wrapped.as_slice());
        },
        None => {
            let m = ChatMessage { role: Role::User, content: string_of(wrapped.as_slice()) };
            messages.push(m);
            proof {
                assert(conversation(messages@) =~= conversation(old(messages)@).push(
                    (Role::User, wrapped@),
                ));
            }
        },
    }
}

/// Prepends a session-stable system message holding the trimmed `block`; a
/// blank block changes nothing.
pub fn push_tier2_system_prefix(messages: &mut Vec<ChatMessage>, block: &str)
    ensures
        conversation(final(messages)@) == prefixed(conversation(old(messages)@), block@),
{
    let b = trim_chars(chars_of(block).as_slice());
    if b.len() == 0 {
        return;
    }
    let m = ChatMessage { role: Role::System, content: string_of(b.as_slice()) };
    messages.insert(0, m);
    proof {
        assert(conversation(messages@) =~= seq![(Role::System, trim(block@))] + conversation(
            old(messages)@,
        ));
    }
}

/// Appends session-stable content to the Tier-2 system message, after a
/// blank line; without a leading system message, prepends one instead.  A
/// blank block changes nothing.
pub fn append_to_tier2_system(messages: &mut Vec<ChatMessage>, block: &str)
    ensures
        conversation(final(messages)@) == tier2_appended(conversation(old(messages)@), block@),
{
    let b = trim_chars(chars_of(block).as_slice());
    if b.len() == 0 {
        return;
    }
    match tier2_system_index(messages) {
        None => {
            push_tier2_system_prefix(messages, block);
        },
        Some(i) => {
            let mut extra = chars_of(BLOCK_SEPARATOR);
            let mut rest = b.clone();
            extra.append(&mut rest);
            append_to_message(messages, i, extra.as_slice());
        },
    }
}

/// Folds the system messages that directly follow the Tier-2 message into
/// it: each is removed, and its text, when not blank, is appended to the
/// Tier-2 message after a blank line.
#[verifier::spinoff_prover]
pub fn merge_leading_system_into_tier2(messages: &mut Vec<ChatMessage>)
    ensures
        conversation(final(messages)@) == merged(conversation(old(messages)@)),
{
    let ghost c0 = conversation(messages@);
    let t = match tier2_system_index(messages) {
        None => {
            return;
        },
        Some(t) => t,
    };
    let ghost k0 = system_run(c0, t + 1) as int;
    proof {
        lemma_system_run_bounds(c0, t + 1);
    }
    let ghost texts = c0.subrange(t + 1, t + 1 + k0).map_values(|m: (Role, Seq<char>)| m.1);
    let ghost mut done: int = 0;
    loop
        invariant
            0 <= done <= k0,
            t < c0.len(),
            t < messages.len(),
            t + 1 + k0 <= c0.len(),
            forall|j: int| t + 1 <= j < t + 1 + k0 ==> #[trigger] c0[j].0 == Role::System,
            t + 1 + k0 < c0.len() ==> c0[t + 1 + k0].0 != Role::System,
            texts == c0.subrange(t + 1, t + 1 + k0).map_values(|m: (Role, Seq<char>)| m.1),
            conversation(messages@) == c0.subrange(0, t as int).push(
                (c0[t as int].0, merged_text(c0[t as int].1, texts.take(done))),
            ) + c0.subrange(t + 1 + done, c0.len() as int),
        ensures
            done == k0,
            conversation(messages@) == c0.subrange(0, t as int).push(
                (c0[t as int].0, merged_text(c0[t as int].1, texts)),
            ) + c0.subrange(t + 1 + k0, c0.len() as int),
        decreases k0 - done,
    {
        let ghost cur = conversation(messages@);
        let peel = t + 1;
        proof {
            assert(cur.len() == t + 1 + (c0.len() - (t + 1 + done)));
        }
        if peel >= messages.len() {
            proof {
                assert(done == k0);
                assert(texts.take(done) =~= texts);
            }
            break;
        }
        proof {
            assert(cur[peel as int] == c0[t + 1 + done]);
        }
        if messages[peel].role != Role::System {
            proof {
                assert(done == k0);
                assert(texts.take(done) =~= texts);
            }
            break;
        }
        proof {
            assert(done < k0);
        }
        let removed = messages.remove(peel);
        let ghost after_remove = conversation(messages@);
        let text = chars_of(removed.content.as_str());
        let trimmed = trim_chars(text.as_slice());
        let ghost next = texts.take(done + 1);
        let ghost base = c0[t as int].1;
        proof {
            assert(after_remove =~= cur.remove(peel as int));
            assert(text@ == c0[t + 1 + done].1);
            assert(texts[done] == c0[t + 1 + done].1);
            assert(next.drop_last() =~= texts.take(done));
            assert(next.last() == text@);
            assert(after_remove =~= c0.subrange(0, t as int).push(
                (c0[t as int].0, merged_text(base, texts.take(done))),
            ) + c0.subrange(t + 1 + done + 1, c0.len() as int));
        }
        if trimmed.len() != 0 {
            let mut extra = chars_of(BLOCK_SEPARATOR);
            let mut rest = text.clone();
            extra.append(&mut rest);
            append_to_message(messages, t, extra.as_slice());
            proof {
                assert(extra@ =~= BLOCK_SEPARATOR@ + text@);
                assert(merged_text(base, next) =~= merged_text(base, texts.take(done)) + BLOCK_SEPARATOR@
                    + text@);
                assert(after_remove[t as int] == (c0[t as int].0, merged_text(base, texts.take(done))));
                assert(merged_text(base, texts.take(done)) + extra@ =~= merged_text(base, next));
                assert(conversation(messages@) =~= c0.subrange(0, t as int).push(
                    (c0[t as int].0, merged_text(base, next)),
                ) + c0.subrange(t + 1 + done + 1, c0.len() as int));
            }
        } else {
            proof {
                assert(merged_text(base, next) == merged_text(base, texts.take(done)));
                assert(conversation(messages@) =~= c0.subrange(0, t as int).push(
                    (c0[t as int].0, merged_text(base, next)),
                ) + c0.subrange(t + 1 + done + 1, c0.len() as int));
            }
        }
        proof {
            done = done + 1;
            assert(conversation(messages@) =~= c0.subrange(0, t as int).push(
                (c0[t as int].0, merged_text(base, texts.take(done))),
            ) + c0.subrange(t + 1 + done, c0.len() as int));
        }
    }
    proof {
        assert(c0[t as int].0 == Role::System);
    }
}

/// Whether a lowercased assistant text claims an identity.
pub open spec fn claims_identity(lower: Seq<char>) -> bool {
    crate::text::seq_contains(lower, "我是"@) || crate::text::seq_contains(lower, "i am"@)
        || crate::text::seq_contains(lower, "i'm"@)
}

/// Whether an assistant message claims an identity other than `model`.
pub open spec fn claims_other_identity(m: (Role, Seq<char>), model: Seq<char>) -> bool {
    let lower = crate::text::lowercase_of(m.1);
    m.0 == Role::Assistant && claims_identity(lower) && !crate::text::seq_contains(
        lower,
        crate::text::lowercase_of(model),
    )
}

/// Opens the notice given after a model switch.
pub const SWITCH_NOTICE_OPEN: &'static str = "[Model Switch Notice] The model has been switched. You are now ";
/// Closes that notice.
pub const SWITCH_NOTICE_CLOSE: &'static str = ". Disregard any previous assistant messages claiming a different model identity.";

/// The conversation after a switch to `model`: when an earlier assistant
/// message claims another identity, a system notice naming the current
/// model follows the last user message.
pub open spec fn with_switch_notice(msgs: Seq<(Role, Seq<char>)>, model: Seq<char>) -> Seq<(Role, Seq<char>)> {
    if model.len() > 0 && exists|i: int| 0 <= i < msgs.len() && #[trigger] claims_other_identity(msgs[i], model) {
        match last_user_index(msgs) {
            Some(u) => msgs.insert(u + 1, (Role::System, SWITCH_NOTICE_OPEN@ + model + SWITCH_NOTICE_CLOSE@)),
            None => msgs,
        }
    } else {
        msgs
    }
}

/// Whether `text`, lowercased, claims an identity other than the one whose
/// lowercase name is `model_lower`.
fn other_identity(text: &str, model_lower: &str) -> (r: bool)
    ensures
        r == (claims_identity(crate::text::lowercase_of(text@)) && !crate::text::seq_contains(
            crate::text::lowercase_of(text@),
            model_lower@,
        )),
{
    let lower = crate::text::to_lowercase(text);
    (crate::text::str_contains(lower.as_str(), "我是") || crate::text::str_contains(lower.as_str(), "i am")
        || crate::text::str_contains(lower.as_str(), "i'm")) && !crate::text::str_contains(
        lower.as_str(),
        model_lower,
    )
}

/// After a switch to `requested_model`, reminds the model of its identity
/// when an earlier assistant message claims another one.
pub fn apply_model_switch_notice(messages: &mut Vec<ChatMessage>, requested_model: &str)
    ensures
        conversation(final(messages)@) == with_switch_notice(conversation(old(messages)@), requested_model@),
{
    let ghost c = conversation(messages@);
    if chars_of(requested_model).len() == 0 {
        return;
    }
    let model_lower = crate::text::to_lowercase(requested_model);
    let mut conflicting = false;
    let mut i: usize = 0;
    while i < messages.len() && !conflicting
        invariant
            i <= messages.len(),
            c == conversation(messages@),
            model_lower@ == crate::text::lowercase_of(requested_model@),
            conflicting ==> exists|k: int| 0 <= k < c.len() && #[trigger] claims_other_identity(c[k], requested_model@),
            !conflicting ==> forall|k: int| 0 <= k < i ==> !#[trigger] claims_other_identity(c[k], requested_model@),
        decreases messages.len() - i,
    {
        if messages[i].role == Role::Assistant && other_identity(messages[i].content.as_str(), model_lower.as_str()) {
            proof {
                assert(claims_other_identity(c[i as int], requested_model@));
            }
            conflicting = true;
        } else {
            proof {
                assert(!claims_other_identity(c[i as int], requested_model@));
            }
        }
        i = i + 1;
    }
    if !conflicting {
        return;
    }
    match find_last_user(messages) {
        Some(u) => {
            let mut notice = string_from(SWITCH_NOTICE_OPEN);
            push_str(&mut notice, requested_model);
            push_str(&mut notice, SWITCH_NOTICE_CLOSE);
            messages.insert(u + 1, ChatMessage { role: Role::System, content: notice });
            proof {
                assert(conversation(messages@) =~= c.insert(
                    u + 1,
                    (Role::System, SWITCH_NOTICE_OPEN@ + requested_model@ + SWITCH_NOTICE_CLOSE@),
                ));
            }
        },
        None => {},
    }
}

} // verus!
