//! Detection of prompt-cache breaks between consecutive LLM calls.
//!
//! Before a call the inputs that affect caching are summarised in a
//! snapshot; after the call, a drop of the cache-read tokens from a positive
//! count to zero is a cache break, and the snapshots of the two calls are
//! compared to name its cause.  Breaks caused by cache edits or by history
//! compaction are expected and are not counted.
use vstd::prelude::*;
use crate::text;
use crate::text::{chars_of, push_str, push_u64, string_from};
use std::hash::{Hash, Hasher};

verus! {

/// Token counts of a call, including the cache-specific ones.
#[derive(Debug, Clone, Copy)]
pub struct CacheAwareUsage {
    pub prompt_tokens: u32,
    pub completion_tokens: u32,
    pub cache_read_tokens: u32,
    pub cache_creation_tokens: u32,
}

/// The inputs of a call that affect prompt caching.
#[derive(Debug, Clone)]
pub struct PreCallSnapshot {
    pub system_hash: u64,
    pub tools_hash: u64,
    pub model: String,
    pub tool_count: usize,
    pub has_cache_control: bool,
    pub cache_edits_active: bool,
    /// Content hashes of the conversation's messages, in order (empty when
    /// the caller supplied none).
    pub message_prefix_hashes: Vec<u64>,
}

/// Mathematical form of a snapshot.
pub struct SnapModel {
    pub system_hash: u64,
    pub tools_hash: u64,
    pub model: Seq<char>,
    pub tool_count: usize,
    pub has_cache_control: bool,
    pub cache_edits_active: bool,
    pub hashes: Seq<u64>,
}

impl View for PreCallSnapshot {
    type V = SnapModel;

    open spec fn view(&self) -> SnapModel {
        SnapModel {
            system_hash: self.system_hash,
            tools_hash: self.tools_hash,
            model: self.model@,
            tool_count: self.tool_count,
            has_cache_control: self.has_cache_control,
            cache_edits_active: self.cache_edits_active,
            hashes: self.message_prefix_hashes@,
        }
    }
}

/// Why the prompt cache broke.
#[derive(Debug, PartialEq, Eq)]
pub enum BreakCause {
    SystemPromptChanged,
    ToolsChanged { prev_count: usize, curr_count: usize },
    ModelSwitched { from: String, to: String },
    CacheControlChanged,
    /// Cached content removed through cache edits (expected).
    CacheEditsEviction,
    /// The conversation prefix diverged: compaction or editing (expected).
    HistoryChanged { prev_len: usize, curr_len: usize },
    Multiple(Vec<BreakCause>),
    Unknown,
}

/// Mathematical form of a single cause.
pub enum SingleCause {
    SystemPromptChanged,
    ToolsChanged { prev_count: usize, curr_count: usize },
    ModelSwitched { from: Seq<char>, to: Seq<char> },
    CacheControlChanged,
    CacheEditsEviction,
    HistoryChanged { prev_len: usize, curr_len: usize },
    Unknown,
}

/// Mathematical form of a diagnosed cause: one cause, or several.
pub enum CauseModel {
    One(SingleCause),
    Multiple(Seq<SingleCause>),
}

/// The single cause that `c` stands for (a nested `Multiple` reads as
/// `Unknown`; diagnosis never nests them).
pub open spec fn single_of(c: BreakCause) -> SingleCause {
    match c {
        BreakCause::SystemPromptChanged => SingleCause::SystemPromptChanged,
        BreakCause::ToolsChanged { prev_count, curr_count } => SingleCause::ToolsChanged { prev_count, curr_count },
        BreakCause::ModelSwitched { from, to } => SingleCause::ModelSwitched { from: from@, to: to@ },
        BreakCause::CacheControlChanged => SingleCause::CacheControlChanged,
        BreakCause::CacheEditsEviction => SingleCause::CacheEditsEviction,
        BreakCause::HistoryChanged { prev_len, curr_len } => SingleCause::HistoryChanged { prev_len, curr_len },
        BreakCause::Multiple(_) => SingleCause::Unknown,
        BreakCause::Unknown => SingleCause::Unknown,
    }
}

/// The mathematical form of a diagnosed cause.
pub open spec fn cause_model(c: BreakCause) -> CauseModel {
    match c {
        BreakCause::Multiple(v) => CauseModel::Multiple(v@.map_values(|x: BreakCause| single_of(x))),
        _ => CauseModel::One(single_of(c)),
    }
}

/// The name of the hash that `DefaultHasher` (fixed keys) gives a string:
/// a function of the text alone within one build of the program.
pub uninterp spec fn default_hash(s: Seq<char>) -> u64;

/// Hashes a string with `DefaultHasher::new()`; the result is named
/// `default_hash` of the text and nothing more is claimed.
#[verifier::external_body]
fn hash_str(s: &str) -> (r: u64)
    ensures
        r == default_hash(s@),
{
    let mut hasher = std::collections::hash_map::DefaultHasher::new();
    s.hash(&mut hasher);
    hasher.finish()
}

/// The number of non-overlapping occurrences of `n` in `h` from position
/// `i`, found left to right (as `str::matches` finds them).
pub open spec fn count_from(h: Seq<char>, n: Seq<char>, i: int) -> nat
    decreases h.len() - i,
{
    if i < 0 || i >= h.len() || n.len() == 0 {
        0
    } else if text::occurs_at(h, n, i) {
        1 + count_from(h, n, i + n.len())
    } else {
        count_from(h, n, i + 1)
    }
}

/// The text that counts as naming one tool.
pub open spec fn name_key() -> Seq<char> {
    seq!['"', 'n', 'a', 'm', 'e', '"']
}

/// The number of tools in a JSON tool list: none for an empty list, `[]`
/// or `null`, else the number of `"name"` keys.
pub open spec fn tool_count_spec(tools_json: Seq<char>) -> nat {
    let t = text::trim(tools_json);
    if t.len() == 0 || t == seq!['[', ']'] || t == seq!['n', 'u', 'l', 'l'] {
        0
    } else {
        count_from(t, name_key(), 0)
    }
}

/// Counts the tools in a JSON tool list (see `tool_count_spec`).
pub fn count_tools(tools_json: &str) -> (r: usize)
    ensures
        r == tool_count_spec(tools_json@),
{
    let cs = chars_of(tools_json);
    let t = text::trim_chars(cs.as_slice());
    let empty_list = chars_of("[]");
    let null = chars_of("null");
    let key = chars_of("\"name\"");
    proof {
        reveal_strlit("[]");
        reveal_strlit("null");
        reveal_strlit("\"name\"");
        assert("[]"@ =~= seq!['[', ']']);
        assert("null"@ =~= seq!['n', 'u', 'l', 'l']);
        assert("\"name\""@ =~= name_key());
    }
    if t.len() == 0 || text::chars_eq(t.as_slice(), empty_list.as_slice()) || text::chars_eq(t.as_slice(), null.as_slice()) {
        return 0;
    }
    let mut count: usize = 0;
    let mut i: usize = 0;
    while i < t.len()
        invariant
            i <= t.len() + key@.len(),
            key@ == name_key(),
            count + count_from(t@, key@, i as int) == count_from(t@, key@, 0),
            count <= i,
        decreases t.len() + 1 - i,
    {
        if text::matches_at(t.as_slice(), key.as_slice(), i) {
            count = count + 1;
            i = i + key.len();
        } else {
            i = i + 1;
        }
    }
    count
}

/// Whether `prefix` is a prefix of `full`.
pub fn is_prefix(prefix: &[u64], full: &[u64]) -> (r: bool)
    ensures
        r == (prefix@.len() <= full@.len() && full@.subrange(0, prefix@.len() as int) == prefix@),
{
    if prefix.len() > full.len() {
        return false;
    }
    let mut i: usize = 0;
    while i < prefix.len()
        invariant
            i <= prefix.len() <= full.len(),
            forall|j: int| 0 <= j < i ==> prefix@[j] == full@[j],
        decreases prefix.len() - i,
    {
        if prefix[i] != full[i] {
            assert(full@.subrange(0, prefix@.len() as int)[i as int] != prefix@[i as int]);
            return false;
        }
        i = i + 1;
    }
    assert(full@.subrange(0, prefix@.len() as int) =~= prefix@);
    true
}

/// A history change, when both snapshots carry message hashes and the
/// earlier hashes are not a prefix of the later ones.
pub open spec fn history_part(prev: SnapModel, curr: SnapModel) -> Seq<SingleCause> {
    if prev.hashes.len() > 0 && curr.hashes.len() > 0 && !(prev.hashes.len() <= curr.hashes.len()
        && curr.hashes.subrange(0, prev.hashes.len() as int) == prev.hashes) {
        seq![SingleCause::HistoryChanged { prev_len: prev.hashes.len() as usize, curr_len: curr.hashes.len() as usize }]
    } else {
        Seq::empty()
    }
}

/// A system prompt change, when the hashes differ.
pub open spec fn system_part(prev: SnapModel, curr: SnapModel) -> Seq<SingleCause> {
    if prev.system_hash != curr.system_hash { seq![SingleCause::SystemPromptChanged] } else { Seq::empty() }
}

/// A tools change, when the hashes differ.
pub open spec fn tools_part(prev: SnapModel, curr: SnapModel) -> Seq<SingleCause> {
    if prev.tools_hash != curr.tools_hash {
        seq![SingleCause::ToolsChanged { prev_count: prev.tool_count, curr_count: curr.tool_count }]
    } else {
        Seq::empty()
    }
}

/// A model switch, when the models differ.
pub open spec fn model_part(prev: SnapModel, curr: SnapModel) -> Seq<SingleCause> {
    if prev.model != curr.model {
        seq![SingleCause::ModelSwitched { from: prev.model, to: curr.model }]
    } else {
        Seq::empty()
    }
}

/// A `cache_control` change, when the flags differ.
pub open spec fn control_part(prev: SnapModel, curr: SnapModel) -> Seq<SingleCause> {
    if prev.has_cache_control != curr.has_cache_control { seq![SingleCause::CacheControlChanged] } else { Seq::empty() }
}

/// The causes found when comparing the snapshots, in the order they are checked.
pub open spec fn causes_spec(prev: SnapModel, curr: SnapModel) -> Seq<SingleCause> {
    history_part(prev, curr) + system_part(prev, curr) + tools_part(prev, curr) + model_part(prev, curr)
        + control_part(prev, curr)
}

/// The diagnosed cause of a break between snapshots `prev` and `curr`.
pub open spec fn diagnose_spec(prev: SnapModel, curr: SnapModel) -> CauseModel {
    if curr.cache_edits_active {
        CauseModel::One(SingleCause::CacheEditsEviction)
    } else {
        let cs = causes_spec(prev, curr);
        if cs.len() == 0 {
            CauseModel::One(SingleCause::Unknown)
        } else if cs.len() == 1 {
            CauseModel::One(cs[0])
        } else {
            CauseModel::Multiple(cs)
        }
    }
}

/// Whether a diagnosed cause names the single cause `c`.
pub open spec fn names_cause(d: CauseModel, c: SingleCause) -> bool {
    match d {
        CauseModel::One(x) => x == c,
        CauseModel::Multiple(v) => v.contains(c),
    }
}

/// A change of the `cache_control` flag between two calls without cache
/// edits is always among the diagnosed causes; when it is the only
/// difference between the two snapshots, it is the cause.
pub proof fn lemma_cache_control_change_diagnosed(prev: SnapModel, curr: SnapModel)
    requires
        prev.has_cache_control != curr.has_cache_control,
        !curr.cache_edits_active,
    ensures
        names_cause(diagnose_spec(prev, curr), SingleCause::CacheControlChanged),
        (prev.system_hash == curr.system_hash && prev.tools_hash == curr.tools_hash && prev.model == curr.model
            && prev.hashes == curr.hashes) ==> diagnose_spec(prev, curr) == CauseModel::One(SingleCause::CacheControlChanged),
        !is_expected_spec(diagnose_spec(prev, curr)),
{
    let cs = causes_spec(prev, curr);
    assert(cs.last() == SingleCause::CacheControlChanged);
    assert(cs.len() >= 1);
    if cs.len() > 1 {
        assert(cs.contains(SingleCause::CacheControlChanged)) by {
            assert(cs[cs.len() - 1] == SingleCause::CacheControlChanged);
        }
    }
    if prev.system_hash == curr.system_hash && prev.tools_hash == curr.tools_hash && prev.model == curr.model
        && prev.hashes == curr.hashes {
        assert(curr.hashes.subrange(0, prev.hashes.len() as int) =~= prev.hashes);
        assert(history_part(prev, curr) =~= Seq::<SingleCause>::empty());
        assert(cs =~= seq![SingleCause::CacheControlChanged]);
    }
}

/// Whether a diagnosed cause is an expected one (cache edits or history
/// compaction alone).
pub open spec fn is_expected_spec(c: CauseModel) -> bool {
    match c {
        CauseModel::One(SingleCause::CacheEditsEviction) => true,
        CauseModel::One(SingleCause::HistoryChanged { .. }) => true,
        _ => false,
    }
}

/// Report of a detected cache break.
#[derive(Debug)]
pub struct CacheBreakReport {
    pub cause: BreakCause,
    pub prev_cache_read_tokens: u32,
    pub curr_cache_read_tokens: u32,
    pub is_expected: bool,
}

/// Mathematical form of the detector.
pub struct DetectorModel {
    pub prev_snapshot: Option<SnapModel>,
    pub prev_cache_read_tokens: u32,
    pub total_breaks: u32,
    pub total_calls: u32,
}

/// Tracks snapshots across consecutive LLM calls.
#[derive(Debug)]
pub struct CacheBreakDetector {
    prev_snapshot: Option<PreCallSnapshot>,
    prev_cache_read_tokens: u32,
    total_breaks: u32,
    total_calls: u32,
}

impl View for CacheBreakDetector {
    type V = DetectorModel;

    closed spec fn view(&self) -> DetectorModel {
        DetectorModel {
            prev_snapshot: match self.prev_snapshot {
                Some(s) => Some(s@),
                None => None,
            },
            prev_cache_read_tokens: self.prev_cache_read_tokens,
            total_breaks: self.total_breaks,
            total_calls: self.total_calls,
        }
    }
}

fn copy_snapshot(s: &PreCallSnapshot) -> (r: PreCallSnapshot)
    ensures
        r@ == s@,
{
    let mut hashes: Vec<u64> = Vec::new();
    let mut i: usize = 0;
    while i < s.message_prefix_hashes.len()
        invariant
            i <= s.message_prefix_hashes.len(),
            hashes@ == s.message_prefix_hashes@.subrange(0, i as int),
        decreases s.message_prefix_hashes.len() - i,
    {
        hashes.push(s.message_prefix_hashes[i]);
        i = i + 1;
        assert(hashes@ =~= s.message_prefix_hashes@.subrange(0, i as int));
    }
    assert(hashes@ =~= s.message_prefix_hashes@);
    PreCallSnapshot {
        system_hash: s.system_hash,
        tools_hash: s.tools_hash,
        model: s.model.clone(),
        tool_count: s.tool_count,
        has_cache_control: s.has_cache_control,
        cache_edits_active: s.cache_edits_active,
        message_prefix_hashes: hashes,
    }
}

/// The result of a call's analysis: the detector's next state and the report.
pub open spec fn analyze_spec(d: DetectorModel, curr: SnapModel, cache_read: u32) -> (DetectorModel, Option<(CauseModel, u32, u32, bool)>) {
    let prev_cache = d.prev_cache_read_tokens;
    let base = DetectorModel {
        prev_snapshot: Some(curr),
        prev_cache_read_tokens: cache_read,
        total_breaks: d.total_breaks,
        total_calls: (d.total_calls + 1) as u32,
    };
    if prev_cache == 0 || cache_read > 0 {
        (base, None)
    } else {
        match d.prev_snapshot {
            None => (base, Some((CauseModel::One(SingleCause::Unknown), prev_cache, cache_read, false))),
            Some(prev) => {
                let cause = diagnose_spec(prev, curr);
                let expected = is_expected_spec(cause);
                (
                    DetectorModel {
                        total_breaks: if expected { d.total_breaks } else { (d.total_breaks + 1) as u32 },
                        ..base
                    },
                    Some((cause, prev_cache, cache_read, expected)),
                )
            },
        }
    }
}

/// What every detector keeps: a positive previous cache read comes with the
/// snapshot of that call.
pub open spec fn reachable(d: DetectorModel) -> bool {
    d.prev_cache_read_tokens > 0 ==> d.prev_snapshot is Some
}

impl CacheBreakDetector {
    #[verifier::type_invariant]
    spec fn snapshot_kept(&self) -> bool {
        self.prev_cache_read_tokens > 0 ==> self.prev_snapshot is Some
    }

    /// A detector before any call.
    pub fn new() -> (r: Self)
        ensures
            r@ == (DetectorModel { prev_snapshot: None, prev_cache_read_tokens: 0, total_breaks: 0, total_calls: 0 }),
    {
        CacheBreakDetector { prev_snapshot: None, prev_cache_read_tokens: 0, total_breaks: 0, total_calls: 0 }
    }

    /// A snapshot of the inputs of the next call.
    pub fn pre_call_snapshot(
        &self,
        system_prompt: &str,
        tools_json: &str,
        model: &str,
        has_cache_control: bool,
        cache_edits_active: bool,
    ) -> (r: PreCallSnapshot)
        ensures
            r@ == (SnapModel {
                system_hash: default_hash(system_prompt@),
                tools_hash: default_hash(tools_json@),
                model: model@,
                tool_count: tool_count_spec(tools_json@) as usize,
                has_cache_control,
                cache_edits_active,
                hashes: Seq::empty(),
            }),
            r.tool_count == tool_count_spec(tools_json@),
    {
        let tool_count = count_tools(tools_json);
        PreCallSnapshot {
            system_hash: hash_str(system_prompt),
            tools_hash: hash_str(tools_json),
            model: string_from(model),
            tool_count,
            has_cache_control,
            cache_edits_active,
            message_prefix_hashes: Vec::new(),
        }
    }

    /// Analyses a finished call: a drop of the cache-read tokens from a
    /// positive count to zero is reported with its diagnosed cause, and
    /// counted unless it is expected.
    pub fn post_call_analyze(&mut self, current_snapshot: &PreCallSnapshot, usage: &CacheAwareUsage) -> (r: Option<CacheBreakReport>)
        requires
            old(self)@.total_calls < u32::MAX,
            old(self)@.total_breaks < u32::MAX,
        ensures
            final(self)@ == analyze_spec(old(self)@, current_snapshot@, usage.cache_read_tokens).0,
            match analyze_spec(old(self)@, current_snapshot@, usage.cache_read_tokens).1 {
                Some((c, p, q, e)) => r matches Some(rep) && cause_model(rep.cause) == c
                    && rep.prev_cache_read_tokens == p && rep.curr_cache_read_tokens == q && rep.is_expected == e,
                None => r is None,
            },
            reachable(old(self)@),
            reachable(final(self)@),
            r is Some <==> (old(self)@.prev_cache_read_tokens > 0 && usage.cache_read_tokens == 0),
            final(self)@.total_calls == old(self)@.total_calls + 1,
            match r {
                Some(rep) => {
                    &&& rep.prev_cache_read_tokens == old(self)@.prev_cache_read_tokens
                    &&& rep.curr_cache_read_tokens == 0
                    &&& (rep.is_expected <==> (rep.cause is CacheEditsEviction || rep.cause is HistoryChanged))
                    &&& (current_snapshot@.cache_edits_active ==> rep.cause is CacheEditsEviction)
                    &&& (rep.is_expected ==> final(self)@.total_breaks == old(self)@.total_breaks)
                    &&& (!rep.is_expected ==> final(self)@.total_breaks == old(self)@.total_breaks + 1)
                },
                None => final(self)@.total_breaks == old(self)@.total_breaks,
            },
    {
        proof {
            use_type_invariant(&*self);
        }
        self.total_calls = self.total_calls + 1;
        let prev_cache = self.prev_cache_read_tokens;
        let curr_cache = usage.cache_read_tokens;
        let mut prev_snap = Some(copy_snapshot(current_snapshot));
        std::mem::swap(&mut prev_snap, &mut self.prev_snapshot);
        self.prev_cache_read_tokens = curr_cache;
        if prev_cache == 0 || curr_cache > 0 {
            return None;
        }
        let prev = match prev_snap {
            None => {
                return Some(CacheBreakReport {
                    cause: BreakCause::Unknown,
                    prev_cache_read_tokens: prev_cache,
                    curr_cache_read_tokens: curr_cache,
                    is_expected: false,
                });
            },
            Some(p) => p,
        };
        let cause = diagnose_cause(&prev, current_snapshot);
        let is_expected = match &cause {
            BreakCause::CacheEditsEviction => true,
            BreakCause::HistoryChanged { .. } => true,
            _ => false,
        };
        if !is_expected {
            self.total_breaks = self.total_breaks + 1;
        }
        Some(CacheBreakReport {
            cause,
            prev_cache_read_tokens: prev_cache,
            curr_cache_read_tokens: curr_cache,
            is_expected,
        })
    }

    /// Number of unexpected breaks seen.
    pub fn total_breaks(&self) -> (r: u32)
        ensures
            r == self@.total_breaks,
    {
        self.total_breaks
    }

    /// Number of calls analysed.
    pub fn total_calls(&self) -> (r: u32)
        ensures
            r == self@.total_calls,
    {
        self.total_calls
    }

    /// Number of analysed calls that did not break the cache unexpectedly.
    pub fn cache_hits(&self) -> (r: u32)
        ensures
            r == if self@.total_calls >= self@.total_breaks { (self@.total_calls - self@.total_breaks) as u32 } else { 0 },
    {
        self.total_calls.saturating_sub(self.total_breaks)
    }
}

/// The causes found when comparing the snapshots (see `causes_spec`).
fn collect_causes(prev: &PreCallSnapshot, curr: &PreCallSnapshot) -> (r: Vec<BreakCause>)
    ensures
        r@.map_values(|x: BreakCause| single_of(x)) == causes_spec(prev@, curr@),
        forall|i: int| 0 <= i < r@.len() ==> !(#[trigger] r@[i] is Multiple),
{
    let ghost p = prev@;
    let ghost c = curr@;
    let mut causes: Vec<BreakCause> = Vec::new();
    if prev.message_prefix_hashes.len() > 0 && curr.message_prefix_hashes.len() > 0
        && !is_prefix(prev.message_prefix_hashes.as_slice(), curr.message_prefix_hashes.as_slice()) {
        causes.push(BreakCause::HistoryChanged {
            prev_len: prev.message_prefix_hashes.len(),
            curr_len: curr.message_prefix_hashes.len(),
        });
    }
    assert(causes@.map_values(|x: BreakCause| single_of(x)) =~= history_part(p, c));
    let ghost c1 = causes@;
    if prev.system_hash != curr.system_hash {
        causes.push(BreakCause::SystemPromptChanged);
    }
    assert(causes@.map_values(|x: BreakCause| single_of(x)) =~= c1.map_values(|x: BreakCause| single_of(x)) + system_part(p, c));
    let ghost c2 = causes@;
    if prev.tools_hash != curr.tools_hash {
        causes.push(BreakCause::ToolsChanged { prev_count: prev.tool_count, curr_count: curr.tool_count });
    }
    assert(causes@.map_values(|x: BreakCause| single_of(x)) =~= c2.map_values(|x: BreakCause| single_of(x)) + tools_part(p, c));
    let ghost c3 = causes@;
    let pm = chars_of(prev.model.as_str());
    let cm = chars_of(curr.model.as_str());
    if !text::chars_eq(pm.as_slice(), cm.as_slice()) {
        causes.push(BreakCause::ModelSwitched { from: prev.model.clone(), to: curr.model.clone() });
    }
    assert(causes@.map_values(|x: BreakCause| single_of(x)) =~= c3.map_values(|x: BreakCause| single_of(x)) + model_part(p, c));
    let ghost c4 = causes@;
    if prev.has_cache_control != curr.has_cache_control {
        causes.push(BreakCause::CacheControlChanged);
    }
    assert(causes@.map_values(|x: BreakCause| single_of(x)) =~= c4.map_values(|x: BreakCause| single_of(x)) + control_part(p, c));
    causes
}

/// Diagnoses the cause of a break by comparing the snapshots.
fn diagnose_cause(prev: &PreCallSnapshot, curr: &PreCallSnapshot) -> (r: BreakCause)
    ensures
        cause_model(r) == diagnose_spec(prev@, curr@),
{
    if curr.cache_edits_active {
        return BreakCause::CacheEditsEviction;
    }
    let mut causes = collect_causes(prev, curr);
    if causes.len() == 0 {
        BreakCause::Unknown
    } else if causes.len() == 1 {
        let ghost v = causes@;
        let c = causes.pop().unwrap();
        assert(v.map_values(|x: BreakCause| single_of(x))[0] == single_of(c));
        assert(!(v[0] is Multiple));
        c
    } else {
        BreakCause::Multiple(causes)
    }
}


// ───────────────────────── report summaries ─────────────────────────

/// The one-line summary of a report with cause `c` and cache-read counts
/// `p` (before) and `q` (after).
pub open spec fn summary_text(c: BreakCause, p: u32, q: u32) -> Seq<char>
    decreases c, 2int,
{
    "cache break: "@ + desc_text(c) + " (cache_read: "@ + text::decimal(p as nat) + " → "@
        + text::decimal(q as nat) + ")"@
}

/// How a summary describes a cause; the causes of a `Multiple` are each
/// described by the summary of a report with counts 0 and 0.
pub open spec fn desc_text(c: BreakCause) -> Seq<char>
    decreases c, 1int,
{
    match c {
        BreakCause::SystemPromptChanged => "system prompt changed"@,
        BreakCause::ToolsChanged { prev_count, curr_count } => "tools changed ("@ + text::decimal(prev_count as nat)
            + " → "@ + text::decimal(curr_count as nat) + ")"@,
        BreakCause::ModelSwitched { from, to } => "model switched ("@ + from@ + " → "@ + to@ + ")"@,
        BreakCause::CacheControlChanged => "cache_control annotations changed"@,
        BreakCause::CacheEditsEviction => "cache_edits eviction (expected)"@,
        BreakCause::HistoryChanged { prev_len, curr_len } => "history compacted/edited ("@ + text::decimal(prev_len as nat)
            + " → "@ + text::decimal(curr_len as nat) + " msgs, expected)"@,
        BreakCause::Multiple(causes) => "multiple: "@ + list_text(causes, causes@.len() as int),
        BreakCause::Unknown => "unknown cause"@,
    }
}

/// The summaries of the first `n` causes of `v`, joined with ", ".
pub open spec fn list_text(v: Vec<BreakCause>, n: int) -> Seq<char>
    decreases v, n,
{
    if n <= 0 || n > v@.len() {
        Seq::empty()
    } else if n == 1 {
        proof {
            assert(decreases_to!(v => v@));
            assert(decreases_to!(v@ => v@[0]));
        }
        summary_text(v@[0], 0, 0)
    } else {
        proof {
            assert(decreases_to!(v => v@));
            assert(decreases_to!(v@ => v@[n - 1]));
        }
        list_text(v, n - 1) + ", "@ + summary_text(v@[n - 1], 0, 0)
    }
}


fn summary_of(c: &BreakCause, p: u32, q: u32) -> (r: String)
    ensures
        r@ == summary_text(*c, p, q),
    decreases c, 2int,
{
    let mut s = String::new();
    push_str(&mut s, "cache break: ");
    let d = desc_of(c);
    push_str(&mut s, d.as_str());
    push_str(&mut s, " (cache_read: ");
    push_u64(&mut s, p as u64);
    push_str(&mut s, " → ");
    push_u64(&mut s, q as u64);
    push_str(&mut s, ")");
    s
}

fn desc_of(c: &BreakCause) -> (r: String)
    ensures
        r@ == desc_text(*c),
    decreases c, 1int,
{
    let mut s = String::new();
    match c {
        BreakCause::SystemPromptChanged => push_str(&mut s, "system prompt changed"),
        BreakCause::ToolsChanged { prev_count, curr_count } => {
            push_str(&mut s, "tools changed (");
            push_u64(&mut s, *prev_count as u64);
            push_str(&mut s, " → ");
            push_u64(&mut s, *curr_count as u64);
            push_str(&mut s, ")");
        },
        BreakCause::ModelSwitched { from, to } => {
            push_str(&mut s, "model switched (");
            push_str(&mut s, from.as_str());
            push_str(&mut s, " → ");
            push_str(&mut s, to.as_str());
            push_str(&mut s, ")");
        },
        BreakCause::CacheControlChanged => push_str(&mut s, "cache_control annotations changed"),
        BreakCause::CacheEditsEviction => push_str(&mut s, "cache_edits eviction (expected)"),
        BreakCause::HistoryChanged { prev_len, curr_len } => {
            push_str(&mut s, "history compacted/edited (");
            push_u64(&mut s, *prev_len as u64);
            push_str(&mut s, " → ");
            push_u64(&mut s, *curr_len as u64);
            push_str(&mut s, " msgs, expected)");
        },
        BreakCause::Multiple(causes) => {
            push_str(&mut s, "multiple: ");
            let ghost s0 = s@;
            let mut i: usize = 0;
            while i < causes.len()
                invariant
                    i <= causes@.len(),
                    *c == BreakCause::Multiple(*causes),
                    s@ == s0 + list_text(*causes, i as int),
                decreases causes@.len() - i,
            {
                if i > 0 {
                    push_str(&mut s, ", ");
                }
                proof {
                    assert((*c)->Multiple_0 == *causes);
                    assert(decreases_to!(*c => (*c)->Multiple_0));
                    assert(decreases_to!(*causes => causes@));
                    assert(decreases_to!(causes@ => causes@[i as int]));
                    assert(decreases_to!(*c => causes@[i as int]));
                }
                let one = summary_of(&causes[i], 0, 0);
                push_str(&mut s, one.as_str());
                i = i + 1;
            }
        },
        BreakCause::Unknown => push_str(&mut s, "unknown cause"),
    }
    s
}

impl CacheBreakReport {
    /// A one-line description of the report.
    pub fn summary(&self) -> (r: String)
        ensures
            r@ == summary_text(self.cause, self.prev_cache_read_tokens, self.curr_cache_read_tokens),
    {
        summary_of(&self.cause, self.prev_cache_read_tokens, self.curr_cache_read_tokens)
    }
}


// ───────────────────────── laws ─────────────────────────

/// Unexpected breaks are counted among the calls: an analysis keeps the
/// number of breaks at most the number of calls.
pub proof fn lemma_breaks_within_calls(d: DetectorModel, curr: SnapModel, cache_read: u32)
    requires
        d.total_breaks <= d.total_calls < u32::MAX,
    ensures
        analyze_spec(d, curr, cache_read).0.total_breaks <= analyze_spec(d, curr, cache_read).0.total_calls,
        analyze_spec(d, curr, cache_read).0.total_calls == d.total_calls + 1,
{
}

/// Only a drop of the cache-read tokens from a positive count to zero is
/// reported; every other call reports nothing and counts no break.
pub proof fn lemma_break_only_on_drop(d: DetectorModel, curr: SnapModel, cache_read: u32)
    ensures
        analyze_spec(d, curr, cache_read).1 is Some <==> (d.prev_cache_read_tokens > 0 && cache_read == 0),
        analyze_spec(d, curr, cache_read).1 is None ==> analyze_spec(d, curr, cache_read).0.total_breaks == d.total_breaks,
{
}

/// A clean append (the earlier message hashes are a prefix of the later
/// ones) is never diagnosed as a history change.
pub proof fn lemma_clean_append_is_not_history_change(prev: SnapModel, curr: SnapModel, appended: Seq<u64>)
    requires
        curr.hashes == prev.hashes + appended,
    ensures
        history_part(prev, curr) == Seq::<SingleCause>::empty(),
{
    assert(curr.hashes.subrange(0, prev.hashes.len() as int) =~= prev.hashes);
}

/// Expected breaks (cache edits, or a history change alone) are never
/// counted; every other reported break is.
pub proof fn lemma_expected_not_counted(d: DetectorModel, curr: SnapModel, cache_read: u32)
    requires
        d.total_breaks < u32::MAX,
    ensures
        analyze_spec(d, curr, cache_read).1 matches Some((c, p, q, e)) ==> (
            analyze_spec(d, curr, cache_read).0.total_breaks == if e { d.total_breaks } else { (d.total_breaks + 1) as u32 }
            || (d.prev_snapshot is None && analyze_spec(d, curr, cache_read).0.total_breaks == d.total_breaks)),
        curr.cache_edits_active && d.prev_snapshot is Some && d.prev_cache_read_tokens > 0 && cache_read == 0
            ==> analyze_spec(d, curr, cache_read).0.total_breaks == d.total_breaks,
{
}

} // verus!
