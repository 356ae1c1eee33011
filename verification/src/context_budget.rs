//! Splitting a conversation into the categories that share the context
//! window's token budget.
use vstd::prelude::*;
use crate::dispatcher::indices_where;
use crate::message_injection::{ChatMessage, Role};

verus! {

/// The positions of a conversation's messages, by category, each in
/// conversation order.
#[derive(Debug)]
pub struct MessageClassification {
    pub system_indices: Vec<usize>,
    pub user_indices: Vec<usize>,
    /// The last tool results, within the recent window.
    pub recent_tool_indices: Vec<usize>,
    /// The tool results before the recent window.
    pub older_tool_indices: Vec<usize>,
    pub assistant_indices: Vec<usize>,
}

/// The positions of the messages with role `role`, in order.
pub open spec fn with_role(msgs: Seq<ChatMessage>, role: Role) -> Seq<usize> {
    indices_where(msgs.len() as int, |i: int| msgs[i].role == role)
}

/// How many tool results fall before the recent window of `window`.
pub open spec fn older_count(tools: int, window: int) -> int {
    if tools > window {
        tools - window
    } else {
        0
    }
}

/// Classifies messages by role; of the tool results, the last
/// `recent_window` are recent and the others older.
pub fn classify_messages(messages: &[ChatMessage], recent_window: usize) -> (r: MessageClassification)
    ensures
        r.system_indices@ == with_role(messages@, Role::System),
        r.user_indices@ == with_role(messages@, Role::User),
        r.assistant_indices@ == with_role(messages@, Role::Assistant),
        r.older_tool_indices@ == with_role(messages@, Role::Tool).take(
            older_count(with_role(messages@, Role::Tool).len() as int, recent_window as int),
        ),
        r.recent_tool_indices@ == with_role(messages@, Role::Tool).skip(
            older_count(with_role(messages@, Role::Tool).len() as int, recent_window as int),
        ),
{
    let ghost ps = |i: int| messages@[i].role == Role::System;
    let ghost pu = |i: int| messages@[i].role == Role::User;
    let ghost pt = |i: int| messages@[i].role == Role::Tool;
    let ghost pa = |i: int| messages@[i].role == Role::Assistant;
    let mut system_indices: Vec<usize> = Vec::new();
    let mut user_indices: Vec<usize> = Vec::new();
    let mut tool_indices: Vec<usize> = Vec::new();
    let mut assistant_indices: Vec<usize> = Vec::new();
    let mut i: usize = 0;
    while i < messages.len()
        invariant
            i <= messages.len(),
            ps == (|k: int| messages@[k].role == Role::System),
            pu == (|k: int| messages@[k].role == Role::User),
            pt == (|k: int| messages@[k].role == Role::Tool),
            pa == (|k: int| messages@[k].role == Role::Assistant),
            system_indices@ == indices_where(i as int, ps),
            user_indices@ == indices_where(i as int, pu),
            tool_indices@ == indices_where(i as int, pt),
            assistant_indices@ == indices_where(i as int, pa),
        decreases messages.len() - i,
    {
        match messages[i].role {
            Role::System => system_indices.push(i),
            Role::User => user_indices.push(i),
            Role::Tool => tool_indices.push(i),
            Role::Assistant => assistant_indices.push(i),
        }
        i = i + 1;
    }
    let n = tool_indices.len();
    let split = if n > recent_window {
        n - recent_window
    } else {
        0
    };
    let mut older: Vec<usize> = Vec::new();
    let mut recent: Vec<usize> = Vec::new();
    let mut k: usize = 0;
    while k < n
        invariant
            n == tool_indices.len(),
            split <= n,
            k <= n,
            k <= split ==> older@ == tool_indices@.take(k as int) && recent@.len() == 0,
            k > split ==> older@ == tool_indices@.take(split as int) && recent@ == tool_indices@.subrange(
                split as int,
                k as int,
            ),
        decreases n - k,
    {
        if k < split {
            older.push(tool_indices[k]);
            proof {
                assert(older@ =~= tool_indices@.take(k + 1));
            }
        } else {
            recent.push(tool_indices[k]);
            proof {
                if k == split {
                    assert(recent@ =~= tool_indices@.subrange(split as int, k + 1));
                } else {
                    assert(recent@ =~= tool_indices@.subrange(split as int, k + 1));
                }
            }
        }
        k = k + 1;
    }
    proof {
        if n <= split {
            assert(recent@ =~= tool_indices@.skip(split as int));
        } else {
            assert(recent@ =~= tool_indices@.skip(split as int));
        }
        assert(older@ =~= tool_indices@.take(split as int));
    }
    MessageClassification {
        system_indices,
        user_indices,
        recent_tool_indices: recent,
        older_tool_indices: older,
        assistant_indices,
    }
}

/// Every message falls in exactly one category: the one of its role, and a
/// tool result is either recent or older, never both.
pub proof fn lemma_each_message_classified_once(msgs: Seq<ChatMessage>, window: int, i: int)
    requires
        msgs.len() <= usize::MAX,
        0 <= i < msgs.len(),
        window >= 0,
    ensures
        ({
            let iu = i as usize;
            let tools = with_role(msgs, Role::Tool);
            let split = older_count(tools.len() as int, window);
            &&& with_role(msgs, Role::System).contains(iu) == (msgs[i].role == Role::System)
            &&& with_role(msgs, Role::User).contains(iu) == (msgs[i].role == Role::User)
            &&& with_role(msgs, Role::Assistant).contains(iu) == (msgs[i].role == Role::Assistant)
            &&& (tools.take(split).contains(iu) || tools.skip(split).contains(iu)) == (msgs[i].role == Role::Tool)
            &&& !(tools.take(split).contains(iu) && tools.skip(split).contains(iu))
        }),
{
    let iu = i as usize;
    let n = msgs.len() as int;
    assert(iu as int == i);
    assert forall|role: Role| #[trigger] with_role(msgs, role).contains(iu) == (msgs[i].role == role) by {
        let p = |k: int| msgs[k].role == role;
        crate::dispatcher::lemma_indices_where(n, p);
        assert(p(i) == (msgs[i].role == role));
        if with_role(msgs, role).contains(iu) {
            let k = choose|k: int| 0 <= k < with_role(msgs, role).len() && with_role(msgs, role)[k] == iu;
            assert(p(with_role(msgs, role)[k] as int));
        }
    }
    let tools = with_role(msgs, Role::Tool);
    let split = older_count(tools.len() as int, window);
    crate::dispatcher::lemma_indices_where(n, |k: int| msgs[k].role == Role::Tool);
    assert(tools =~= tools.take(split) + tools.skip(split));
    if tools.take(split).contains(iu) {
        let a = choose|a: int| 0 <= a < tools.take(split).len() && tools.take(split)[a] == iu;
        assert(tools[a] == iu);
        assert(tools.contains(iu));
    }
    if tools.skip(split).contains(iu) {
        let b = choose|b: int| 0 <= b < tools.skip(split).len() && tools.skip(split)[b] == iu;
        assert(tools[b + split] == iu);
        assert(tools.contains(iu));
        if tools.take(split).contains(iu) {
            let a = choose|a: int| 0 <= a < tools.take(split).len() && tools.take(split)[a] == iu;
            assert(tools[a] == iu);
            assert(a < b + split);
            assert(tools[a] < tools[b + split]);
        }
    }
    if tools.contains(iu) {
        let c = choose|c: int| 0 <= c < tools.len() && tools[c] == iu;
        if c < split {
            assert(tools.take(split)[c] == iu);
        } else {
            assert(tools.skip(split)[c - split] == iu);
        }
    }
}

} // verus!
