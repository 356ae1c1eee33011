//! Session-scoped cache of approvals granted for the rest of the session.
//!
//! Only `ApprovedForSession` decisions are remembered.  Storing one for a key
//! such as `shell:ls:/tmp` also remembers the tool-level key
//! `tool_session:shell`, so every later call of the same tool type is covered.
use vstd::prelude::*;
use crate::text::{chars_of, push_chars, slice_chars, str_eq, string_from};

verus! {

/// A user's answer to an approval request.
#[derive(Debug, Clone, Copy, PartialEq, Eq, Structural)]
pub enum ApprovalDecision {
    Approved,
    ApprovedForSession,
    Denied,
    Abort,
    TimedOut,
}

/// Prefix of the tool-level key that covers a whole tool type.
pub const TOOL_SESSION_PREFIX: &'static str = "tool_session:";

/// The tool type of an approval key: everything before its first `:`
/// (the whole key when it has none).
pub open spec fn tool_type(key: Seq<char>) -> Seq<char> {
    key.take(crate::text::leading_count(key, |c: char| c != ':') as int)
}

/// The tool type of a key is exactly the text before its first `:`: a
/// prefix of the key without any `:`, which is the whole key or is followed
/// in the key by a `:`.  So keys whose names differ before the colon (such
/// as `web_fetch:...` and `web_search:...`) have different tool types.
pub proof fn lemma_tool_type_is_text_before_colon(key: Seq<char>)
    ensures
        tool_type(key).len() <= key.len(),
        tool_type(key) =~= key.subrange(0, tool_type(key).len() as int),
        forall|j: int| 0 <= j < tool_type(key).len() ==> #[trigger] tool_type(key)[j] != ':',
        tool_type(key).len() == key.len() || key[tool_type(key).len() as int] == ':',
{
    let p = |c: char| c != ':';
    crate::text::lemma_leading_count_props(key, p);
    let n = crate::text::leading_count(key, p);
    assert forall|j: int| 0 <= j < tool_type(key).len() implies #[trigger] tool_type(key)[j] != ':' by {
        assert(tool_type(key)[j] == key[j]);
        assert(p(key[j]));
    }
    if n < key.len() {
        assert(!p(key[n as int]));
    }
}

/// Two keys share a tool-level key exactly when the texts before their
/// first `:` agree.
pub proof fn lemma_tool_session_keys_differ(k1: Seq<char>, k2: Seq<char>, c1: int, c2: int)
    requires
        0 <= c1 <= k1.len(),
        forall|j: int| 0 <= j < c1 ==> #[trigger] k1[j] != ':',
        c1 == k1.len() || k1[c1] == ':',
        0 <= c2 <= k2.len(),
        forall|j: int| 0 <= j < c2 ==> #[trigger] k2[j] != ':',
        c2 == k2.len() || k2[c2] == ':',
    ensures
        tool_session_key(k1) == tool_session_key(k2) <==> k1.subrange(0, c1) == k2.subrange(0, c2),
{
    lemma_tool_type_is_text_before_colon(k1);
    lemma_tool_type_is_text_before_colon(k2);
    let t1 = tool_type(k1);
    let t2 = tool_type(k2);
    if t1.len() < c1 {
        assert(k1[t1.len() as int] == ':');
    }
    if t1.len() > c1 {
        assert(t1[c1] == k1[c1]);
    }
    if t2.len() < c2 {
        assert(k2[t2.len() as int] == ':');
    }
    if t2.len() > c2 {
        assert(t2[c2] == k2[c2]);
    }
    assert(t1.len() == c1 && t2.len() == c2);
    let pre = TOOL_SESSION_PREFIX@;
    if tool_session_key(k1) == tool_session_key(k2) {
        assert(t1 =~= tool_session_key(k1).subrange(pre.len() as int, tool_session_key(k1).len() as int));
        assert(t2 =~= tool_session_key(k2).subrange(pre.len() as int, tool_session_key(k2).len() as int));
    }
}

/// The tool-level key that covers every key of the same tool type.
pub open spec fn tool_session_key(key: Seq<char>) -> Seq<char> {
    TOOL_SESSION_PREFIX@ + tool_type(key)
}

/// The views of a list of keys.
pub open spec fn key_views(keys: Seq<String>) -> Seq<Seq<char>> {
    keys.map_values(|k: String| k@)
}

/// Whether the remembered keys cover a request for `keys`: the list is not
/// empty, and either some key's tool type was approved for the session or
/// every key itself was.
pub open spec fn covers(approved: Set<Seq<char>>, keys: Seq<Seq<char>>) -> bool {
    &&& keys.len() > 0
    &&& {
        ||| exists|i: int| 0 <= i < keys.len() && approved.contains(#[trigger] tool_session_key(keys[i]))
        ||| forall|i: int| 0 <= i < keys.len() ==> approved.contains(#[trigger] keys[i])
    }
}

/// What a lookup of `keys` answers.
pub open spec fn lookup(approved: Set<Seq<char>>, keys: Seq<Seq<char>>) -> Option<ApprovalDecision> {
    if covers(approved, keys) {
        Some(ApprovalDecision::ApprovedForSession)
    } else {
        None
    }
}

/// The entries that storing a session approval of `keys` remembers: each key
/// and its tool-level key.
pub open spec fn session_entries(keys: Seq<Seq<char>>) -> Set<Seq<char>> {
    entries_upto(keys, keys.len() as int)
}

/// The entries remembered for the first `n` of `keys`.
pub open spec fn entries_upto(keys: Seq<Seq<char>>, n: int) -> Set<Seq<char>> {
    Set::new(|s: Seq<char>| exists|i: int| 0 <= i < n && #[trigger] entry_of(keys[i], s))
}

/// Whether `s` is `key` or its tool-level key.
pub open spec fn entry_of(key: Seq<char>, s: Seq<char>) -> bool {
    s == key || s == tool_session_key(key)
}

/// Once a non-empty list of keys has been approved for the session, asking
/// for the same keys is answered `ApprovedForSession`.
pub proof fn lemma_stored_keys_are_approved(approved: Set<Seq<char>>, keys: Seq<Seq<char>>)
    requires
        keys.len() > 0,
    ensures
        lookup(approved.union(session_entries(keys)), keys) == Some(ApprovalDecision::ApprovedForSession),
{
    let all = approved.union(session_entries(keys));
    assert forall|i: int| 0 <= i < keys.len() implies all.contains(#[trigger] keys[i]) by {
        assert(entry_of(keys[i], keys[i]));
    }
}

/// Approving one key for the session covers every later request that holds
/// a key of the same tool type.
pub proof fn lemma_tool_type_covers(
    approved: Set<Seq<char>>,
    stored: Seq<Seq<char>>,
    i: int,
    keys: Seq<Seq<char>>,
    j: int,
)
    requires
        0 <= i < stored.len(),
        0 <= j < keys.len(),
        tool_type(stored[i]) == tool_type(keys[j]),
    ensures
        lookup(approved.union(session_entries(stored)), keys) == Some(ApprovalDecision::ApprovedForSession),
{
    let all = approved.union(session_entries(stored));
    assert(entry_of(stored[i], tool_session_key(stored[i])));
    assert(all.contains(tool_session_key(keys[j])));
}

/// Session-scoped approval cache.
#[derive(Debug)]
pub struct ApprovalCache {
    keys: Vec<String>,
}

impl ApprovalCache {
    /// The remembered keys, in the order they were first stored.
    pub closed spec fn entries(&self) -> Seq<Seq<char>> {
        key_views(self.keys@)
    }

    /// No key is remembered twice.
    pub closed spec fn wf(&self) -> bool {
        self.entries().no_duplicates()
    }
}

impl View for ApprovalCache {
    type V = Set<Seq<char>>;

    /// The set of keys approved for the session.
    closed spec fn view(&self) -> Set<Seq<char>> {
        self.entries().to_set()
    }
}

/// The tool-level key for `key`.
fn tool_session_key_of(key: &str) -> (r: String)
    ensures
        r@ == tool_session_key(key@),
{
    let cs = chars_of(key);
    let mut n: usize = 0;
    while n < cs.len() && cs[n] != ':'
        invariant
            n <= cs.len(),
            cs@ == key@,
            forall|j: int| 0 <= j < n ==> cs@[j] != ':',
        decreases cs.len() - n,
    {
        n = n + 1;
    }
    proof {
        let p = |c: char| c != ':';
        assert forall|j: int| 0 <= j < n implies p(#[trigger] key@[j]) by {}
        crate::text::lemma_leading_count(key@, p, n as int);
    }
    let head = slice_chars(cs.as_slice(), 0, n);
    let mut r = string_from(TOOL_SESSION_PREFIX);
    push_chars(&mut r, head.as_slice());
    proof {
        assert(head@ =~= tool_type(key@));
    }
    r
}

impl ApprovalCache {
    /// An empty cache.
    pub fn new() -> (c: Self)
        ensures
            c.wf(),
            c@ == Set::<Seq<char>>::empty(),
    {
        let c = ApprovalCache { keys: Vec::new() };
        proof {
            assert(c.entries() =~= Seq::<Seq<char>>::empty());
            assert(c@ =~= Set::<Seq<char>>::empty());
        }
        c
    }

    /// Whether `key` is remembered.
    fn contains_key(&self, key: &str) -> (r: bool)
        ensures
            r == self@.contains(key@),
    {
        let mut i: usize = 0;
        while i < self.keys.len()
            invariant
                i <= self.keys.len(),
                forall|j: int| 0 <= j < i ==> self.entries()[j] != key@,
            decreases self.keys.len() - i,
        {
            if str_eq(self.keys[i].as_str(), key) {
                proof {
                    assert(self.entries()[i as int] == key@);
                    assert(self@.contains(key@));
                }
                return true;
            }
            i = i + 1;
        }
        proof {
            if self@.contains(key@) {
                let j = choose|j: int| 0 <= j < self.entries().len() && self.entries()[j] == key@;
                assert(self.entries()[j] == key@);
            }
        }
        false
    }

    /// Remembers `key` unless it already is.
    fn insert_key(&mut self, key: String)
        requires
            old(self).wf(),
        ensures
            final(self).wf(),
            final(self)@ == old(self)@.insert(key@),
    {
        if !self.contains_key(key.as_str()) {
            let ghost before = self.entries();
            let ghost k = key@;
            self.keys.push(key);
            proof {
                assert(self.entries() =~= before.push(k));
                before.lemma_push_to_set_commute(k);
                assert forall|a: int, b: int| 0 <= a < b < self.entries().len()
                    implies self.entries()[a] != self.entries()[b] by {
                    if b == before.len() {
                        assert(before.to_set().contains(before[a]));
                    }
                }
            }
        } else {
            proof {
                assert(self@.insert(key@) =~= self@);
            }
        }
    }

    /// Answers `ApprovedForSession` when every key, or the tool type of some
    /// key, was approved for the session; otherwise nothing.
    pub fn check(&self, keys: &[String]) -> (r: Option<ApprovalDecision>)
        ensures
            r == lookup(self@, key_views(keys@)),
    {
        let ghost kv = key_views(keys@);
        if keys.len() == 0 {
            return None;
        }
        let mut i: usize = 0;
        while i < keys.len()
            invariant
                i <= keys.len(),
                kv == key_views(keys@),
                forall|j: int| 0 <= j < i ==> !self@.contains(#[trigger] tool_session_key(kv[j])),
            decreases keys.len() - i,
        {
            let tk = tool_session_key_of(keys[i].as_str());
            if self.contains_key(tk.as_str()) {
                proof {
                    assert(self@.contains(tool_session_key(kv[i as int])));
                }
                return Some(ApprovalDecision::ApprovedForSession);
            }
            i = i + 1;
        }
        let mut k: usize = 0;
        while k < keys.len()
            invariant
                k <= keys.len(),
                kv == key_views(keys@),
                forall|j: int| 0 <= j < keys.len() ==> !self@.contains(#[trigger] tool_session_key(kv[j])),
                forall|j: int| 0 <= j < k ==> self@.contains(#[trigger] kv[j]),
            decreases keys.len() - k,
        {
            if !self.contains_key(keys[k].as_str()) {
                proof {
                    assert(!self@.contains(kv[k as int]));
                }
                return None;
            }
            k = k + 1;
        }
        Some(ApprovalDecision::ApprovedForSession)
    }

    /// Remembers `keys` and their tool-level keys when `decision` is
    /// `ApprovedForSession`; any other decision is one-shot and leaves the
    /// cache as it is.
    pub fn store(&mut self, keys: &[String], decision: ApprovalDecision)
        requires
            old(self).wf(),
        ensures
            final(self).wf(),
            decision == ApprovalDecision::ApprovedForSession
                ==> final(self)@ == old(self)@.union(session_entries(key_views(keys@))),
            decision != ApprovalDecision::ApprovedForSession ==> final(self)@ == old(self)@,
    {
        if decision == ApprovalDecision::ApprovedForSession {
            let ghost kv = key_views(keys@);
            let mut i: usize = 0;
            while i < keys.len()
                invariant
                    i <= keys.len(),
                    kv == key_views(keys@),
                    self.wf(),
                    self@ == old(self)@.union(entries_upto(kv, i as int)),
                decreases keys.len() - i,
            {
                self.insert_key(keys[i].clone());
                let tk = tool_session_key_of(keys[i].as_str());
                self.insert_key(tk);
                proof {
                    let prev = entries_upto(kv, i as int);
                    let next = entries_upto(kv, i as int + 1);
                    let grown = prev.insert(kv[i as int]).insert(tool_session_key(kv[i as int]));
                    assert forall|s: Seq<char>| next.contains(s) implies grown.contains(s) by {
                        let j = choose|j: int| 0 <= j < i + 1 && #[trigger] entry_of(kv[j], s);
                        if j < i {
                            assert(prev.contains(s));
                        }
                    }
                    assert forall|s: Seq<char>| grown.contains(s) implies next.contains(s) by {
                        if prev.contains(s) {
                            let j = choose|j: int| 0 <= j < i && #[trigger] entry_of(kv[j], s);
                            assert(entry_of(kv[j], s));
                        } else {
                            assert(entry_of(kv[i as int], s));
                        }
                    }
                    assert(next =~= grown);
                    assert(self@ =~= old(self)@.union(next));
                }
                i = i + 1;
            }
        }
    }

    /// Forgets every remembered approval.
    pub fn clear(&mut self)
        ensures
            final(self).wf(),
            final(self)@ == Set::<Seq<char>>::empty(),
    {
        self.keys.clear();
        proof {
            assert(self.entries() =~= Seq::<Seq<char>>::empty());
            assert(self@ =~= Set::<Seq<char>>::empty());
        }
    }

    /// Number of remembered entries, tool-level keys included.
    pub fn len(&self) -> (n: usize)
        requires
            self.wf(),
        ensures
            n == self@.len(),
    {
        proof {
            self.entries().unique_seq_to_set();
        }
        self.keys.len()
    }

    /// Whether nothing is remembered.
    pub fn is_empty(&self) -> (b: bool)
        requires
            self.wf(),
        ensures
            b == (self@.len() == 0),
    {
        proof {
            self.entries().unique_seq_to_set();
        }
        self.keys.len() == 0
    }
}

impl Default for ApprovalCache {
    fn default() -> (c: Self)
        ensures
            c.wf(),
            c@ == Set::<Seq<char>>::empty(),
    {
        ApprovalCache::new()
    }
}

} // verus!
