//! Priority queue of steering messages for a running agent.
//!
//! Producers push messages; the agent loop drains them at tool-round
//! boundaries, highest priority first and, within a priority, in the order
//! they were pushed.  The queue never holds more than `MAX_QUEUE_SIZE`
//! messages: at capacity the oldest low-priority message (else the oldest
//! normal one) makes room, an incoming low-priority message is dropped when
//! no such room can be made, and otherwise the oldest message goes.
use vstd::prelude::*;
use vstd::seq_lib::{lemma_multiset_commutative, to_multiset_build};

verus! {

/// Maximum number of queued messages.
pub const MAX_QUEUE_SIZE: usize = 10000;

/// Priority of a queued message; higher priorities drain first.
#[derive(Debug, Clone, Copy, PartialEq, Eq, Hash, Structural)]
pub enum Priority {
    /// Background notifications.
    Low,
    /// Steering messages from other agents or the user.
    Normal,
    /// System messages such as budget limits or cancellation.
    High,
}

/// The rank of a priority: `Low` < `Normal` < `High`.
pub open spec fn rank(p: Priority) -> nat {
    match p {
        Priority::Low => 0,
        Priority::Normal => 1,
        Priority::High => 2,
    }
}

/// The rank of a priority.
pub fn priority_rank(p: Priority) -> (r: u8)
    ensures
        r == rank(p),
{
    match p {
        Priority::Low => 0,
        Priority::Normal => 1,
        Priority::High => 2,
    }
}

/// A message waiting to be injected into an agent's context.
#[derive(Debug, Clone)]
pub struct QueuedMessage {
    pub priority: Priority,
    pub source: String,
    pub content: String,
    pub timestamp_ms: u64,
}

/// Mathematical form of a queued message.
pub struct MessageModel {
    pub priority: Priority,
    pub source: Seq<char>,
    pub content: Seq<char>,
    pub timestamp_ms: u64,
}

impl View for QueuedMessage {
    type V = MessageModel;

    open spec fn view(&self) -> MessageModel {
        MessageModel {
            priority: self.priority,
            source: self.source@,
            content: self.content@,
            timestamp_ms: self.timestamp_ms,
        }
    }
}

/// The views of a sequence of messages.
pub open spec fn msg_views(v: Seq<QueuedMessage>) -> Seq<MessageModel> {
    v.map_values(|m: QueuedMessage| m@)
}

/// The messages of `q` with priority `p`, in queue order.
pub open spec fn with_priority(q: Seq<MessageModel>, p: Priority) -> Seq<MessageModel> {
    q.filter(|m: MessageModel| m.priority == p)
}

/// The messages of `q` whose priority is at most `max`, in queue order.
pub open spec fn at_most(q: Seq<MessageModel>, max: Priority) -> Seq<MessageModel> {
    q.filter(|m: MessageModel| rank(m.priority) <= rank(max))
}

/// The messages of `q` whose priority is above `max`, in queue order.
pub open spec fn above(q: Seq<MessageModel>, max: Priority) -> Seq<MessageModel> {
    q.filter(|m: MessageModel| rank(m.priority) > rank(max))
}

/// What `drain(max)` returns: the messages of priority at most `max`,
/// `High` ones first, then `Normal`, then `Low`, each group in queue order.
pub open spec fn drained(q: Seq<MessageModel>, max: Priority) -> Seq<MessageModel> {
    let d = at_most(q, max);
    with_priority(d, Priority::High) + with_priority(d, Priority::Normal) + with_priority(
        d,
        Priority::Low,
    )
}

/// The first position in `q` of a message with priority `p`.
pub open spec fn first_with(q: Seq<MessageModel>, p: Priority) -> Option<int>
    decreases q.len(),
{
    if q.len() == 0 {
        None
    } else if q[0].priority == p {
        Some(0)
    } else {
        match first_with(q.drop_first(), p) {
            Some(i) => Some(i + 1),
            None => None,
        }
    }
}

/// `first_with` finds the first message of the priority, when there is one.
pub proof fn lemma_first_with(q: Seq<MessageModel>, p: Priority)
    ensures
        match first_with(q, p) {
            Some(i) => 0 <= i < q.len() && q[i].priority == p && forall|j: int|
                0 <= j < i ==> q[j].priority != p,
            None => forall|j: int| 0 <= j < q.len() ==> q[j].priority != p,
        },
    decreases q.len(),
{
    if q.len() > 0 && q[0].priority != p {
        lemma_first_with(q.drop_first(), p);
        assert forall|j: int| 1 <= j < q.len() implies q[j] == q.drop_first()[j - 1] by {}
    }
}

/// The queue after pushing `m` onto `q`.
pub open spec fn pushed(q: Seq<MessageModel>, m: MessageModel) -> Seq<MessageModel> {
    if q.len() >= MAX_QUEUE_SIZE {
        match first_with(q, Priority::Low) {
            Some(i) => q.remove(i).push(m),
            None => if m.priority == Priority::Low {
                q
            } else {
                match first_with(q, Priority::Normal) {
                    Some(i) => q.remove(i).push(m),
                    None => q.drop_first().push(m),
                }
            },
        }
    } else {
        q.push(m)
    }
}

/// The current time in milliseconds since the Unix epoch
/// (`SystemTime::now`), or 0 when the clock reads before the epoch.
/// Nothing is claimed of the value.
#[verifier::external_body]
pub(crate) fn now_millis() -> u64 {
    match std::time::SystemTime::now().duration_since(std::time::UNIX_EPOCH) {
        Ok(d) => d.as_millis() as u64,
        Err(_) => 0,
    }
}

fn copy_message(m: &QueuedMessage) -> (r: QueuedMessage)
    ensures
        r@ == m@,
{
    QueuedMessage {
        priority: m.priority,
        source: m.source.clone(),
        content: m.content.clone(),
        timestamp_ms: m.timestamp_ms,
    }
}

/// Queue of steering messages for a running agent.
#[derive(Debug)]
pub struct MessageQueue {
    inner: Vec<QueuedMessage>,
}

impl View for MessageQueue {
    type V = Seq<MessageModel>;

    closed spec fn view(&self) -> Seq<MessageModel> {
        msg_views(self.inner@)
    }
}

impl MessageQueue {
    /// The queue never holds more than `MAX_QUEUE_SIZE` messages.
    #[verifier::type_invariant]
    spec fn bounded(&self) -> bool {
        self.inner.len() <= MAX_QUEUE_SIZE
    }

    /// An empty queue.
    pub fn new() -> (r: Self)
        ensures
            r@ == Seq::<MessageModel>::empty(),
    {
        let r = MessageQueue { inner: Vec::new() };
        assert(msg_views(r.inner@) =~= Seq::empty());
        r
    }

    /// Whether nothing is queued.
    pub fn is_empty(&self) -> (r: bool)
        ensures
            r == (self@.len() == 0),
    {
        self.inner.len() == 0
    }

    /// Number of queued messages.
    pub fn len(&self) -> (r: usize)
        ensures
            r == self@.len(),
            r <= MAX_QUEUE_SIZE,
    {
        proof {
            use_type_invariant(self);
        }
        self.inner.len()
    }

    fn first_index_with(&self, p: Priority) -> (r: Option<usize>)
        ensures
            match r {
                Some(i) => first_with(self@, p) == Some(i as int) && i < self@.len(),
                None => first_with(self@, p) is None,
            },
    {
        proof {
            lemma_first_with(self@, p);
        }
        let mut i: usize = 0;
        while i < self.inner.len()
            invariant
                i <= self.inner.len(),
                forall|j: int| 0 <= j < i ==> self@[j].priority != p,
            decreases self.inner.len() - i,
        {
            if self.inner[i].priority == p {
                proof {
                    let q = self@;
                    lemma_first_with(q, p);
                    assert(q[i as int].priority == p);
                    match first_with(q, p) {
                        Some(k) => {
                            if k < i {
                                assert(q[k].priority != p);
                            }
                            if k > i {
                                assert(q[i as int].priority != p);
                            }
                        },
                        None => {
                            assert(q[i as int].priority != p);
                        },
                    }
                }
                return Some(i);
            }
            i = i + 1;
        }
        None
    }

    /// Queues a message. At capacity, the oldest low-priority message is
    /// dropped to make room; when there is none, an incoming low-priority
    /// message is dropped itself, and another incoming message makes room by
    /// dropping the oldest normal message, else the oldest message.
    pub fn push(&mut self, priority: Priority, source: String, content: String)
        ensures
            exists|ts: u64|
                final(self)@ == pushed(
                    old(self)@,
                    MessageModel { priority, source: source@, content: content@, timestamp_ms: ts },
                ),
            final(self)@.len() <= MAX_QUEUE_SIZE,
    {
        proof {
            use_type_invariant(&*self);
        }
        let msg = QueuedMessage { priority, source, content, timestamp_ms: now_millis() };
        let ghost q = self@;
        let ghost m = msg@;
        if self.inner.len() >= MAX_QUEUE_SIZE {
            let low_idx = match self.first_index_with(Priority::Low) {
                Some(i) => Some(i),
                None => {
                    if priority == Priority::Low {
                        assert(self@ == pushed(q, m));
                        return;
                    }
                    self.first_index_with(Priority::Normal)
                },
            };
            let mut v: Vec<QueuedMessage> = Vec::new();
            std::mem::swap(&mut v, &mut self.inner);
            match low_idx {
                Some(idx) => {
                    v.remove(idx);
                    assert(msg_views(v@) =~= q.remove(idx as int));
                },
                None => {
                    v.remove(0);
                    assert(msg_views(v@) =~= q.drop_first());
                },
            }
            let ghost before = v@;
            v.push(msg);
            assert(msg_views(v@) =~= msg_views(before).push(m));
            self.inner = v;
        } else {
            let mut v: Vec<QueuedMessage> = Vec::new();
            std::mem::swap(&mut v, &mut self.inner);
            let ghost before = v@;
            v.push(msg);
            assert(msg_views(v@) =~= msg_views(before).push(m));
            self.inner = v;
        }
        assert(self@ == pushed(q, m));
    }

    /// Removes and returns the messages of priority at most `max_priority`,
    /// highest priority first and, within a priority, in queue order; the
    /// other messages stay queued in their order.
    pub fn drain(&mut self, max_priority: Priority) -> (r: Vec<QueuedMessage>)
        ensures
            msg_views(r@) == drained(old(self)@, max_priority),
            final(self)@ == above(old(self)@, max_priority),
    {
        proof {
            use_type_invariant(&*self);
        }
        let ghost q = self@;
        let maxr = priority_rank(max_priority);
        let mut high: Vec<QueuedMessage> = Vec::new();
        let mut normal: Vec<QueuedMessage> = Vec::new();
        let mut low: Vec<QueuedMessage> = Vec::new();
        let mut remaining: Vec<QueuedMessage> = Vec::new();
        let mut i: usize = 0;
        while i < self.inner.len()
            invariant
                i <= self.inner.len(),
                q == self@,
                maxr == rank(max_priority),
                msg_views(high@) == with_priority(at_most(q.subrange(0, i as int), max_priority), Priority::High),
                msg_views(normal@) == with_priority(at_most(q.subrange(0, i as int), max_priority), Priority::Normal),
                msg_views(low@) == with_priority(at_most(q.subrange(0, i as int), max_priority), Priority::Low),
                msg_views(remaining@) == above(q.subrange(0, i as int), max_priority),
                remaining@.len() <= i,
            decreases self.inner.len() - i,
        {
            let ghost pre = q.subrange(0, i as int);
            let ghost nxt = q.subrange(0, i + 1);
            assert(nxt.drop_last() =~= pre);
            let m = copy_message(&self.inner[i]);
            assert(nxt.last() == m@);
            let ghost hv = msg_views(high@);
            let ghost nv = msg_views(normal@);
            let ghost lv = msg_views(low@);
            let ghost rv = msg_views(remaining@);
            let ghost mv = m@;
            let r = priority_rank(m.priority);
            proof {
                reveal_with_fuel(Seq::<_>::filter, 1);
                let am = at_most(pre, max_priority);
                assert(am.push(mv).drop_last() =~= am);
                assert(am.push(mv).last() == mv);
            }
            if r <= maxr {
                assert(at_most(nxt, max_priority) == at_most(pre, max_priority).push(mv));
                assert(above(nxt, max_priority) == above(pre, max_priority));
                match m.priority {
                    Priority::High => {
                        high.push(m);
                        assert(msg_views(high@) =~= hv.push(mv));
                    },
                    Priority::Normal => {
                        normal.push(m);
                        assert(msg_views(normal@) =~= nv.push(mv));
                    },
                    Priority::Low => {
                        low.push(m);
                        assert(msg_views(low@) =~= lv.push(mv));
                    },
                }
            } else {
                assert(at_most(nxt, max_priority) == at_most(pre, max_priority));
                assert(above(nxt, max_priority) == above(pre, max_priority).push(mv));
                remaining.push(m);
                assert(msg_views(remaining@) =~= rv.push(mv));
            }
            i = i + 1;
        }
        assert(q.subrange(0, q.len() as int) =~= q);
        let ghost hv = msg_views(high@);
        let ghost nv = msg_views(normal@);
        let ghost lv = msg_views(low@);
        high.append(&mut normal);
        high.append(&mut low);
        assert(msg_views(high@) =~= hv + nv + lv);
        self.inner = remaining;
        high
    }

    /// Removes and returns every queued message, highest priority first.
    pub fn drain_all(&mut self) -> (r: Vec<QueuedMessage>)
        ensures
            msg_views(r@) == drained(old(self)@, Priority::High),
            final(self)@ == Seq::<MessageModel>::empty(),
    {
        let ghost q = self@;
        let r = self.drain(Priority::High);
        proof {
            lemma_above_high_empty(q);
        }
        r
    }
}

/// A push never takes the queue beyond `MAX_QUEUE_SIZE`, and a push below
/// capacity only appends.
pub proof fn lemma_push_bounded(q: Seq<MessageModel>, m: MessageModel)
    requires
        q.len() <= MAX_QUEUE_SIZE,
    ensures
        pushed(q, m).len() <= MAX_QUEUE_SIZE,
        q.len() < MAX_QUEUE_SIZE ==> pushed(q, m) == q.push(m),
{
    lemma_first_with(q, Priority::Low);
    lemma_first_with(q, Priority::Normal);
}

/// Draining loses and invents nothing: the messages handed out together
/// with those left queued are exactly the messages that were queued.
pub proof fn lemma_drain_partition(q: Seq<MessageModel>, max: Priority)
    ensures
        (drained(q, max) + above(q, max)).to_multiset() == q.to_multiset(),
{
    lemma_drain_parts(q, max);
    let d = at_most(q, max);
    let h = with_priority(d, Priority::High);
    let n = with_priority(d, Priority::Normal);
    let l = with_priority(d, Priority::Low);
    let a = above(q, max);
    lemma_multiset_commutative(h, n);
    lemma_multiset_commutative(h + n, l);
    lemma_multiset_commutative(h + n + l, a);
}

proof fn lemma_drain_parts(q: Seq<MessageModel>, max: Priority)
    ensures
        ({
            let d = at_most(q, max);
            with_priority(d, Priority::High).to_multiset()
                .add(with_priority(d, Priority::Normal).to_multiset())
                .add(with_priority(d, Priority::Low).to_multiset())
                .add(above(q, max).to_multiset())
        }) == q.to_multiset(),
    decreases q.len(),
{
    broadcast use vstd::multiset::group_multiset_axioms;
    reveal_with_fuel(Seq::<_>::filter, 1);
    if q.len() == 0 {
        vstd::seq_lib::to_multiset_len(q);
        vstd::multiset::lemma_multiset_empty_len(q.to_multiset());
        assert(q.to_multiset() =~= vstd::multiset::Multiset::empty());
        assert(at_most(q, max) =~= Seq::<MessageModel>::empty());
        assert(with_priority(Seq::<MessageModel>::empty(), Priority::High) =~= Seq::<MessageModel>::empty());
        assert(with_priority(Seq::<MessageModel>::empty(), Priority::Normal) =~= Seq::<MessageModel>::empty());
        assert(with_priority(Seq::<MessageModel>::empty(), Priority::Low) =~= Seq::<MessageModel>::empty());
        assert(above(q, max) =~= Seq::<MessageModel>::empty());
        assert(Seq::<MessageModel>::empty() == q);
    } else {
        let q0 = q.drop_last();
        let x = q.last();
        lemma_drain_parts(q0, max);
        assert(q0.push(x) == q);
        to_multiset_build(q0, x);
        let d0 = at_most(q0, max);
        let h0 = with_priority(d0, Priority::High);
        let n0 = with_priority(d0, Priority::Normal);
        let l0 = with_priority(d0, Priority::Low);
        let a0 = above(q0, max);
        if rank(x.priority) <= rank(max) {
            assert(at_most(q, max) == d0.push(x));
            assert(above(q, max) == a0);
            assert(d0.push(x).drop_last() == d0);
            assert(d0.push(x).last() == x);
            match x.priority {
                Priority::High => {
                    assert(with_priority(d0.push(x), Priority::High) == h0.push(x));
                    assert(with_priority(d0.push(x), Priority::Normal) == n0);
                    assert(with_priority(d0.push(x), Priority::Low) == l0);
                    to_multiset_build(h0, x);
                },
                Priority::Normal => {
                    assert(with_priority(d0.push(x), Priority::High) == h0);
                    assert(with_priority(d0.push(x), Priority::Normal) == n0.push(x));
                    assert(with_priority(d0.push(x), Priority::Low) == l0);
                    to_multiset_build(n0, x);
                },
                Priority::Low => {
                    assert(with_priority(d0.push(x), Priority::High) == h0);
                    assert(with_priority(d0.push(x), Priority::Normal) == n0);
                    assert(with_priority(d0.push(x), Priority::Low) == l0.push(x));
                    to_multiset_build(l0, x);
                },
            }
        } else {
            assert(at_most(q, max) == d0);
            assert(above(q, max) == a0.push(x));
            to_multiset_build(a0, x);
        }
        let d = at_most(q, max);
        assert(with_priority(d, Priority::High).to_multiset()
            .add(with_priority(d, Priority::Normal).to_multiset())
            .add(with_priority(d, Priority::Low).to_multiset())
            .add(above(q, max).to_multiset()) =~= q.to_multiset());
    }
}

proof fn lemma_above_high_empty(q: Seq<MessageModel>)
    ensures
        above(q, Priority::High) == Seq::<MessageModel>::empty(),
    decreases q.len(),
{
    reveal_with_fuel(Seq::<_>::filter, 1);
    if q.len() > 0 {
        lemma_above_high_empty(q.drop_last());
    }
}

} // verus!
