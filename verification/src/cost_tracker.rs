//! Token accounting for API calls: per-model usage statistics and the
//! labels under which they are reported. Costs in dollars and the budget
//! checks built on them are computed by the caller.
use vstd::prelude::*;
use crate::text;
use crate::text::{chars_of, is_alphanumeric, string_of};

verus! {

/// Token usage reported for a single API call.
#[derive(Debug, Clone)]
pub struct CallUsage {
    pub model: String,
    pub prompt_tokens: u32,
    pub completion_tokens: u32,
    pub cache_read_tokens: u32,
    pub cache_creation_tokens: u32,
}

/// Cumulative per-model statistics.
#[derive(Debug, Clone, Copy, PartialEq, Eq)]
pub struct ModelStats {
    pub total_calls: u64,
    pub total_prompt_tokens: u64,
    pub total_completion_tokens: u64,
    pub total_cache_read_tokens: u64,
    pub total_cache_creation_tokens: u64,
}

/// Alert level returned by budget checks.
#[derive(Debug, Clone, Copy, PartialEq, Eq)]
pub enum BudgetAlert {
    /// Cost exceeds warning threshold but within limit.
    Warning,
    /// Cost has exceeded the budget limit.
    Exceeded,
}

/// Whether one more call can be counted without overflow.
pub open spec fn can_add(s: ModelStats, u: CallUsage) -> bool {
    &&& s.total_calls < u64::MAX
    &&& s.total_prompt_tokens + u.prompt_tokens <= u64::MAX
    &&& s.total_completion_tokens + u.completion_tokens <= u64::MAX
    &&& s.total_cache_read_tokens + u.cache_read_tokens <= u64::MAX
    &&& s.total_cache_creation_tokens + u.cache_creation_tokens <= u64::MAX
}

impl Default for ModelStats {
    fn default() -> (r: Self)
        ensures
            r == (ModelStats {
                total_calls: 0,
                total_prompt_tokens: 0,
                total_completion_tokens: 0,
                total_cache_read_tokens: 0,
                total_cache_creation_tokens: 0,
            }),
    {
        ModelStats {
            total_calls: 0,
            total_prompt_tokens: 0,
            total_completion_tokens: 0,
            total_cache_read_tokens: 0,
            total_cache_creation_tokens: 0,
        }
    }
}

impl ModelStats {
    /// Prompt and completion tokens together.
    pub fn total_tokens(&self) -> (r: u64)
        requires
            self.total_prompt_tokens + self.total_completion_tokens <= u64::MAX,
        ensures
            r == self.total_prompt_tokens + self.total_completion_tokens,
    {
        self.total_prompt_tokens + self.total_completion_tokens
    }

    /// Count one more call and its tokens.
    pub fn add_usage(&mut self, usage: &CallUsage)
        requires
            can_add(*old(self), *usage),
        ensures
            final(self).total_calls == old(self).total_calls + 1,
            final(self).total_prompt_tokens == old(self).total_prompt_tokens + usage.prompt_tokens,
            final(self).total_completion_tokens == old(self).total_completion_tokens + usage.completion_tokens,
            final(self).total_cache_read_tokens == old(self).total_cache_read_tokens + usage.cache_read_tokens,
            final(self).total_cache_creation_tokens == old(self).total_cache_creation_tokens + usage.cache_creation_tokens,
    {
        self.total_calls = self.total_calls + 1;
        self.total_prompt_tokens = self.total_prompt_tokens + usage.prompt_tokens as u64;
        self.total_completion_tokens = self.total_completion_tokens + usage.completion_tokens as u64;
        self.total_cache_read_tokens = self.total_cache_read_tokens + usage.cache_read_tokens as u64;
        self.total_cache_creation_tokens = self.total_cache_creation_tokens + usage.cache_creation_tokens as u64;
    }
}

/// Characters kept in a metrics label.
pub open spec fn label_char(c: char) -> bool {
    text::alphanumeric(c) || c == '-' || c == '_' || c == '.' || c == '/'
}

/// The label characters of `s`, in order.
pub open spec fn label_chars(s: Seq<char>) -> Seq<char>
    decreases s.len(),
{
    if s.len() == 0 {
        Seq::empty()
    } else {
        let r = label_chars(s.drop_last());
        if label_char(s.last()) { r.push(s.last()) } else { r }
    }
}

/// A model name made safe for a metrics label: its label characters, at
/// most 64 of them.
pub open spec fn model_label(s: Seq<char>) -> Seq<char> {
    let k = label_chars(s);
    if k.len() <= 64 { k } else { k.take(64) }
}

/// A model name made safe for a metrics label.
pub fn sanitize_model_label(model: &str) -> (r: String)
    ensures
        r@ == model_label(model@),
{
    let cs = chars_of(model);
    let mut kept: Vec<char> = Vec::new();
    let mut i: usize = 0;
    while i < cs.len()
        invariant
            i <= cs.len(),
            kept@ == label_chars(cs@.take(i as int)),
        decreases cs.len() - i,
    {
        proof {
            assert(cs@.take(i + 1).drop_last() == cs@.take(i as int));
        }
        let c = cs[i];
        if is_alphanumeric(c) || c == '-' || c == '_' || c == '.' || c == '/' {
            kept.push(c);
        }
        i = i + 1;
    }
    proof {
        assert(cs@.take(cs@.len() as int) == cs@);
    }
    if kept.len() > 64 {
        let head = text::slice_chars(kept.as_slice(), 0, 64);
        string_of(head.as_slice())
    } else {
        string_of(kept.as_slice())
    }
}

// ───────────────────────── per-model ledger ─────────────────────────

/// The statistics of a model in a ledger's entries.
pub open spec fn stats_of(entries: Seq<(Seq<char>, ModelStats)>, model: Seq<char>) -> Option<ModelStats>
    decreases entries.len(),
{
    if entries.len() == 0 {
        None
    } else if entries.last().0 == model {
        Some(entries.last().1)
    } else {
        stats_of(entries.drop_last(), model)
    }
}

/// The statistics a model starts from.
pub open spec fn zero_stats() -> ModelStats {
    ModelStats {
        total_calls: 0,
        total_prompt_tokens: 0,
        total_completion_tokens: 0,
        total_cache_read_tokens: 0,
        total_cache_creation_tokens: 0,
    }
}

/// `s` with one more call of `u` counted.
pub open spec fn added(s: ModelStats, u: CallUsage) -> ModelStats {
    ModelStats {
        total_calls: (s.total_calls + 1) as u64,
        total_prompt_tokens: (s.total_prompt_tokens + u.prompt_tokens) as u64,
        total_completion_tokens: (s.total_completion_tokens + u.completion_tokens) as u64,
        total_cache_read_tokens: (s.total_cache_read_tokens + u.cache_read_tokens) as u64,
        total_cache_creation_tokens: (s.total_cache_creation_tokens + u.cache_creation_tokens) as u64,
    }
}

/// What a ledger states: the calls recorded and each model's statistics.
pub struct LedgerView {
    pub total_calls: u64,
    pub stats: spec_fn(Seq<char>) -> Option<ModelStats>,
}

/// Token statistics per model, and the number of calls over all models.
#[derive(Debug)]
pub struct UsageLedger {
    entries: Vec<(String, ModelStats)>,
    total_calls: u64,
}

impl UsageLedger {
    closed spec fn entries_view(&self) -> Seq<(Seq<char>, ModelStats)> {
        self.entries@.map_values(|e: (String, ModelStats)| (e.0@, e.1))
    }

    /// Each model appears at most once.
    pub closed spec fn wf(&self) -> bool {
        forall|i: int, j: int| 0 <= i < j < self.entries@.len() ==> self.entries@[i].0@ != self.entries@[j].0@
    }

    /// The statistics of `model`, if it was used.
    pub closed spec fn stats(&self, model: Seq<char>) -> Option<ModelStats> {
        stats_of(self.entries_view(), model)
    }

    /// The number of recorded calls.
    pub closed spec fn calls(&self) -> u64 {
        self.total_calls
    }

    /// An empty ledger.
    pub fn new() -> (r: Self)
        ensures
            r.wf(),
            r.calls() == 0,
            forall|m: Seq<char>| r.stats(m) is None,
    {
        let r = UsageLedger { entries: Vec::new(), total_calls: 0 };
        assert(r.entries_view() =~= Seq::empty());
        r
    }

    fn position(&self, model: &str) -> (r: Option<usize>)
        requires
            self.wf(),
        ensures
            r matches Some(i) ==> i < self.entries@.len() && self.entries@[i as int].0@ == model@
                && self.stats(model@) == Some(self.entries@[i as int].1)
                && forall|j: int| i < j < self.entries@.len() ==> self.entries@[j].0@ != model@,
            r is None ==> self.stats(model@) is None
                && forall|j: int| 0 <= j < self.entries@.len() ==> self.entries@[j].0@ != model@,
    {
        let ghost ev = self.entries_view();
        let mut i: usize = self.entries.len();
        proof {
            assert(ev.take(ev.len() as int) == ev);
        }
        while i > 0
            invariant
                i <= self.entries@.len(),
                self.wf(),
                ev == self.entries_view(),
                forall|j: int| i <= j < self.entries@.len() ==> self.entries@[j].0@ != model@,
                stats_of(ev, model@) == stats_of(ev.take(i as int), model@),
            decreases i,
        {
            proof {
                assert(ev.take(i as int).drop_last() == ev.take(i - 1));
                assert(ev.take(i as int).last() == (self.entries@[i - 1].0@, self.entries@[i - 1].1));
            }
            if text::str_eq(self.entries[i - 1].0.as_str(), model) {
                return Some(i - 1);
            }
            i = i - 1;
        }
        proof {
            assert(ev.take(0) == Seq::<(Seq<char>, ModelStats)>::empty());
        }
        None
    }

    /// The statistics of `model`, if it was used.
    pub fn model_stats(&self, model: &str) -> (r: Option<&ModelStats>)
        requires
            self.wf(),
        ensures
            match r {
                Some(s) => self.stats(model@) == Some(*s),
                None => self.stats(model@) is None,
            },
    {
        match self.position(model) {
            Some(i) => Some(&self.entries[i].1),
            None => None,
        }
    }

    /// The models used, each with its statistics, in order of first use.
    pub closed spec fn models(&self) -> Seq<(Seq<char>, ModelStats)> {
        self.entries_view()
    }

    /// Number of models used.
    pub fn model_count(&self) -> (r: usize)
        ensures
            r == self.models().len(),
    {
        self.entries.len()
    }

    /// The model at position `i` and its statistics.
    pub fn entry(&self, i: usize) -> (r: (&String, &ModelStats))
        requires
            i < self.models().len(),
        ensures
            (r.0@, *r.1) == self.models()[i as int],
    {
        (&self.entries[i].0, &self.entries[i].1)
    }

    /// The number of recorded calls.
    pub fn total_calls(&self) -> (r: u64)
        ensures
            r == self.calls(),
    {
        self.total_calls
    }

    /// Whether a call of `usage` can be recorded without overflowing a count.
    pub open spec fn can_record(&self, usage: CallUsage) -> bool {
        &&& self.calls() < u64::MAX
        &&& can_add(match self.stats(usage.model@) { Some(s) => s, None => zero_stats() }, usage)
    }

    /// Record a call: one more call overall, and its tokens counted for its
    /// model (which starts from zero when first seen); other models keep
    /// their statistics.
    pub fn record(&mut self, usage: &CallUsage)
        requires
            old(self).wf(),
            old(self).can_record(*usage),
        ensures
            final(self).wf(),
            final(self).calls() == old(self).calls() + 1,
            final(self).stats(usage.model@) == Some(added(
                match old(self).stats(usage.model@) { Some(s) => s, None => zero_stats() },
                *usage,
            )),
            forall|m: Seq<char>| m != usage.model@ ==> final(self).stats(m) == old(self).stats(m),
    {
        self.total_calls = self.total_calls + 1;
        let ghost ev = self.entries_view();
        match self.position(usage.model.as_str()) {
            Some(i) => {
                let mut st = self.entries[i].1;
                st.add_usage(usage);
                let name = self.entries[i].0.clone();
                self.entries.set(i, (name, st));
                proof {
                    assert(self.entries_view() =~= ev.update(i as int, (usage.model@, st)));
                    assert forall|j: int| i < j < ev.len() implies ev[j].0 != usage.model@ by {
                        assert(ev[j].0 == old(self).entries@[j].0@);
                    }
                    lemma_stats_update(ev, i as int, usage.model@, st);
                }
            },
            None => {
                let mut st = ModelStats::default();
                st.add_usage(usage);
                self.entries.push((usage.model.clone(), st));
                proof {
                    assert(self.entries_view() =~= ev.push((usage.model@, st)));
                    assert(ev.push((usage.model@, st)).drop_last() == ev);
                }
            },
        }
    }
}

proof fn lemma_stats_update(ev: Seq<(Seq<char>, ModelStats)>, i: int, m: Seq<char>, st: ModelStats)
    requires
        0 <= i < ev.len(),
        ev[i].0 == m,
        forall|j: int| i < j < ev.len() ==> ev[j].0 != m,
    ensures
        stats_of(ev.update(i, (m, st)), m) == Some(st),
        forall|x: Seq<char>| x != m ==> stats_of(ev.update(i, (m, st)), x) == stats_of(ev, x),
    decreases ev.len(),
{
    let u = ev.update(i, (m, st));
    if i == ev.len() - 1 {
        assert(u.drop_last() == ev.drop_last());
        assert(u.last() == (m, st));
        assert forall|x: Seq<char>| x != m implies stats_of(u, x) == stats_of(ev, x) by {
            assert(u.last().0 != x && ev.last().0 != x);
        }
    } else {
        assert(u.drop_last() == ev.drop_last().update(i, (m, st)));
        assert(u.last() == ev.last());
        assert(ev.last().0 != m);
        lemma_stats_update(ev.drop_last(), i, m, st);
        assert forall|x: Seq<char>| x != m implies stats_of(u, x) == stats_of(ev, x) by {
            assert(stats_of(ev.drop_last().update(i, (m, st)), x) == stats_of(ev.drop_last(), x));
        }
    }
}

} // verus!
