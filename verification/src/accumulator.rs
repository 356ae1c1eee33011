//! Assembling tool calls from streamed fragments.
//!
//! A model streams each tool call as deltas: an id, a name, and pieces of
//! the JSON arguments.  Once a call is complete its arguments are checked:
//! several JSON objects written back to back are merged into one call when
//! their keys are distinct and split into separate calls otherwise, and
//! arguments that are not valid JSON are repaired.
use vstd::prelude::*;
use crate::dispatcher::ToolCall;
use crate::json_args::opt_view;
use crate::text::{chars_of, is_whitespace, is_ws, push_char, push_str, slice_chars, string_from, string_of, trim, trim_chars};

verus! {

// ───────────────────────── JSON, through serde_json ─────────────────────────

#[verifier::external_type_specification]
#[verifier::external_body]
pub struct ExJsonValue(serde_json::Value);

#[verifier::external_type_specification]
#[verifier::external_body]
#[verifier::reject_recursive_types(K)]
#[verifier::reject_recursive_types(V)]
pub struct ExJsonMap<K, V>(serde_json::Map<K, V>);

/// A JSON object's members, as serde_json holds them.
pub type JsonObject = serde_json::Map<String, serde_json::Value>;

/// Whether serde_json parses `s` as a JSON value.
pub uninterp spec fn json_valid(s: Seq<char>) -> bool;

/// The members of the JSON object that serde_json parses from `s` (each key
/// with the JSON text of its value), or nothing when `s` is not a JSON
/// object.
pub uninterp spec fn json_object_entries(s: Seq<char>) -> Option<Map<Seq<char>, Seq<char>>>;

/// What a serde_json map holds: each key with the JSON text of its value.
pub uninterp spec fn map_entries(m: JsonObject) -> Map<Seq<char>, Seq<char>>;

/// The JSON text that serde_json writes for an object with these members.
pub uninterp spec fn json_object_text(entries: Map<Seq<char>, Seq<char>>) -> Option<Seq<char>>;

/// The JSON string literal that serde_json writes for the text `s`.
pub uninterp spec fn json_quoted(s: Seq<char>) -> Option<Seq<char>>;

/// Whether `serde_json::from_str::<serde_json::Value>` accepts `s`.  The
/// contract names the result and claims only that it depends on `s` alone.
#[verifier::external_body]
pub(crate) fn is_valid_json(s: &str) -> (r: bool)
    ensures
        r == json_valid(s@),
{
    serde_json::from_str::<serde_json::Value>(s).is_ok()
}

/// Parses `s` with `serde_json::from_str` and keeps the result when it is a
/// JSON object.  The contract ties the map's contents to the text.
#[verifier::external_body]
fn parse_object(s: &str) -> (r: Option<JsonObject>)
    ensures
        match r {
            Some(m) => json_object_entries(s@) == Some(map_entries(m)),
            None => json_object_entries(s@) is None,
        },
{
    match serde_json::from_str::<serde_json::Value>(s) {
        Ok(serde_json::Value::Object(m)) => Some(m),
        _ => None,
    }
}

/// The members of an empty object.
pub open spec fn no_members() -> Map<Seq<char>, Seq<char>> {
    Map::empty()
}

/// `serde_json::Map::new`: an empty map.
#[verifier::external_body]
fn new_json_map() -> (r: JsonObject)
    ensures
        map_entries(r) == no_members(),
{
    serde_json::Map::new()
}

/// The keys of `m`, through `serde_json::Map::keys`.
#[verifier::external_body]
fn json_map_keys(m: &JsonObject) -> (r: Vec<String>)
    ensures
        r@.map_values(|k: String| k@).to_set() == map_entries(*m).dom(),
{
    m.keys().cloned().collect()
}

/// `serde_json::Map::append`: moves every member of `other` into `m`, a
/// member of `other` replacing one of `m` with the same key.
#[verifier::external_body]
fn json_map_append(
    m: &mut JsonObject,
    other: &mut JsonObject,
)
    ensures
        map_entries(*final(m)) == map_entries(*old(m)).union_prefer_right(map_entries(*old(other))),
{
    m.append(other)
}

/// Writes the object with the members of `m` with `serde_json::to_string`.
#[verifier::external_body]
fn json_object_to_string(m: JsonObject) -> (r: Option<String>)
    ensures
        opt_view(r) == json_object_text(map_entries(m)),
{
    serde_json::to_string(&serde_json::Value::Object(m)).ok()
}

/// Writes `s` as a JSON string literal with `serde_json::to_string`.
#[verifier::external_body]
fn json_string_literal(s: &str) -> (r: Option<String>)
    ensures
        opt_view(r) == json_quoted(s@),
{
    serde_json::to_string(s).ok()
}

// ───────────────────────── splitting concatenated objects ─────────────────────────

/// The state of a scan through one JSON object: brace depth, whether inside
/// a string, and whether the previous character was an escaping backslash.
pub struct ScanState {
    pub depth: int,
    pub in_str: bool,
    pub escape: bool,
}

/// The scan state after character `c`.
pub open spec fn scan_step(st: ScanState, c: char) -> ScanState {
    if st.escape {
        ScanState { escape: false, ..st }
    } else if c == '\\' && st.in_str {
        ScanState { escape: true, ..st }
    } else if c == '"' {
        ScanState { in_str: !st.in_str, ..st }
    } else if st.in_str {
        st
    } else if c == '{' {
        ScanState { depth: st.depth + 1, ..st }
    } else if c == '}' {
        ScanState { depth: st.depth - 1, ..st }
    } else {
        st
    }
}

/// Whether character `c` closes the object being scanned.
pub open spec fn scan_closes(st: ScanState, c: char) -> bool {
    !st.escape && !st.in_str && c == '}' && st.depth == 1
}

/// Where a scan through `s` stands: between objects, or inside the object
/// that starts at `start`.
pub enum SplitPhase {
    Between,
    Inside { st: ScanState, start: int },
}

/// The objects found by scanning `s` from position `k` on, after `found`:
/// whitespace between objects is skipped, anything else that does not open
/// an object ends the scan, and an object that is not closed, or not valid
/// JSON, fails it.
pub open spec fn split_scan(s: Seq<char>, k: int, phase: SplitPhase, found: Seq<Seq<char>>) -> Option<Seq<Seq<char>>>
    decreases s.len() - k,
{
    if k >= s.len() || k < 0 {
        match phase {
            SplitPhase::Between => Some(found),
            SplitPhase::Inside { .. } => None,
        }
    } else {
        let c = s[k];
        match phase {
            SplitPhase::Between => if is_ws(c) {
                split_scan(s, k + 1, SplitPhase::Between, found)
            } else if c != '{' {
                Some(found)
            } else {
                split_scan(s, k + 1, SplitPhase::Inside {
                    st: scan_step(ScanState { depth: 0, in_str: false, escape: false }, c),
                    start: k,
                }, found)
            },
            SplitPhase::Inside { st, start } => if scan_closes(st, c) {
                let obj = s.subrange(start, k + 1);
                if json_valid(obj) {
                    split_scan(s, k + 1, SplitPhase::Between, found.push(obj))
                } else {
                    None
                }
            } else {
                split_scan(s, k + 1, SplitPhase::Inside { st: scan_step(st, c), start }, found)
            },
        }
    }
}

/// The JSON objects written back to back in `s`, when `s` starts with `{`,
/// is not itself valid JSON, and holds at least two of them.
pub open spec fn concatenated_objects(s: Seq<char>) -> Option<Seq<Seq<char>>> {
    if s.len() == 0 || s[0] != '{' || json_valid(s) {
        None
    } else {
        match split_scan(s, 0, SplitPhase::Between, Seq::empty()) {
            Some(objs) => if objs.len() >= 2 {
                Some(objs)
            } else {
                None
            },
            None => None,
        }
    }
}

/// The views of a list of strings.
pub open spec fn views(v: Seq<String>) -> Seq<Seq<char>> {
    v.map_values(|s: String| s@)
}

/// Splits JSON objects written back to back, such as `{"cmd":"a"}{"cmd":"b"}`.
/// Gives nothing when `s` is a single valid JSON text or cannot be split.
pub fn try_split_concatenated_json(s: &str) -> (r: Option<Vec<String>>)
    ensures
        match r {
            Some(v) => concatenated_objects(s@) == Some(views(v@)),
            None => concatenated_objects(s@) is None,
        },
{
    let cs = chars_of(s);
    if cs.len() == 0 || cs[0] != '{' {
        return None;
    }
    if is_valid_json(s) {
        return None;
    }
    let ghost goal = split_scan(s@, 0, SplitPhase::Between, Seq::empty());
    let mut objects: Vec<String> = Vec::new();
    let mut k: usize = 0;
    let mut inside = false;
    let mut done = false;
    let mut start: usize = 0;
    let mut depth: usize = 0;
    let mut in_str = false;
    let mut escape = false;
    let ghost mut phase = SplitPhase::Between;
    proof {
        assert(views(objects@) =~= Seq::<Seq<char>>::empty());
    }
    while k < cs.len() && !done
        invariant
            cs@ == s@,
            s@.len() > 0,
            s@[0] == '{',
            !json_valid(s@),
            goal == split_scan(s@, 0, SplitPhase::Between, Seq::empty()),
            k <= cs.len(),
            start <= k,
            depth <= k,
            inside ==> depth >= 1,
            done ==> !inside && goal == Some(views(objects@)),
            !done ==> goal == split_scan(s@, k as int, phase, views(objects@)),
            phase == (if inside {
                SplitPhase::Inside {
                    st: ScanState { depth: depth as int, in_str, escape },
                    start: start as int,
                }
            } else {
                SplitPhase::Between
            }),
        decreases cs.len() - k,
    {
        let c = cs[k];
        if !inside {
            if is_whitespace(c) {
                k = k + 1;
            } else if c != '{' {
                done = true;
                k = k + 1;
            } else {
                inside = true;
                start = k;
                depth = 1;
                in_str = false;
                escape = false;
                proof {
                    phase = SplitPhase::Inside { st: ScanState { depth: 1, in_str: false, escape: false }, start: k as int };
                }
                k = k + 1;
            }
        } else {
            let closes = !escape && !in_str && c == '}' && depth == 1;
            if closes {
                let piece = slice_chars(cs.as_slice(), start, k + 1);
                let obj = string_of(piece.as_slice());
                if !is_valid_json(obj.as_str()) {
                    proof {
                        assert(obj@ == s@.subrange(start as int, k + 1));
                        assert(goal is None);
                    }
                    return None;
                }
                let ghost before = objects@;
                objects.push(obj);
                proof {
                    assert(views(objects@) =~= views(before).push(s@.subrange(start as int, k + 1)));
                }
                inside = false;
                proof {
                    phase = SplitPhase::Between;
                }
                k = k + 1;
            } else {
                if escape {
                    escape = false;
                } else if c == '\\' && in_str {
                    escape = true;
                } else if c == '"' {
                    in_str = !in_str;
                } else if in_str {
                } else if c == '{' {
                    depth = depth + 1;
                } else if c == '}' {
                    depth = depth - 1;
                }
                proof {
                    phase = SplitPhase::Inside { st: ScanState { depth: depth as int, in_str, escape }, start: start as int };
                }
                k = k + 1;
            }
        }
    }
    if !done && inside {
        return None;
    }
    if objects.len() >= 2 {
        Some(objects)
    } else {
        None
    }
}

// ───────────────────────── repairing truncated JSON ─────────────────────────

/// The state of a scan for repair: inside a string or not, after an
/// escaping backslash or not, and the closers still owed, innermost last.
pub struct RepairState {
    pub in_string: bool,
    pub escape: bool,
    pub stack: Seq<char>,
}

/// The repair state after character `c`.
pub open spec fn repair_step(st: RepairState, c: char) -> RepairState {
    if st.escape {
        RepairState { escape: false, ..st }
    } else if c == '\\' && st.in_string {
        RepairState { escape: true, ..st }
    } else if c == '"' {
        RepairState { in_string: !st.in_string, ..st }
    } else if st.in_string {
        st
    } else if c == '{' {
        RepairState { stack: st.stack.push('}'), ..st }
    } else if c == '[' {
        RepairState { stack: st.stack.push(']'), ..st }
    } else if c == '}' || c == ']' {
        RepairState { stack: if st.stack.len() > 0 { st.stack.drop_last() } else { st.stack }, ..st }
    } else {
        st
    }
}

/// The repair state after all of `s`.
pub open spec fn repair_scan(s: Seq<char>) -> RepairState
    decreases s.len(),
{
    if s.len() == 0 {
        RepairState { in_string: false, escape: false, stack: Seq::empty() }
    } else {
        repair_step(repair_scan(s.drop_last()), s.last())
    }
}

/// The closers of `stack`, innermost first.
pub open spec fn closers(stack: Seq<char>) -> Seq<char>
    decreases stack.len(),
{
    if stack.len() == 0 {
        Seq::empty()
    } else {
        seq![stack.last()] + closers(stack.drop_last())
    }
}

/// `s` with its open string and open brackets closed.
pub open spec fn closed_up(s: Seq<char>) -> Seq<char> {
    let st = repair_scan(s);
    s + (if st.in_string { seq!['"'] } else { Seq::empty() }) + closers(st.stack)
}

/// What `s` is replaced by when closing it up does not give valid JSON: an
/// object whose member `_raw` holds `s` as a string.
pub open spec fn raw_wrapped(s: Seq<char>) -> Seq<char> {
    "{\"_raw\":"@ + (match json_quoted(s) {
        Some(q) => q,
        None => "\"\""@,
    }) + "}"@
}

/// Best-effort repair of truncated JSON.
pub open spec fn repaired(s: Seq<char>) -> Seq<char> {
    if json_valid(closed_up(s)) {
        closed_up(s)
    } else {
        raw_wrapped(s)
    }
}

/// Best-effort repair of truncated JSON: closes an open string and the open
/// braces and brackets; when that is still not valid JSON, wraps the text as
/// the string member `_raw` of an object.
pub fn repair_json(s: &str) -> (r: String)
    ensures
        r@ == repaired(s@),
{
    let cs = chars_of(s);
    let mut in_string = false;
    let mut escape = false;
    let mut stack: Vec<char> = Vec::new();
    let mut i: usize = 0;
    while i < cs.len()
        invariant
            cs@ == s@,
            i <= cs.len(),
            repair_scan(cs@.take(i as int)) == (RepairState { in_string, escape, stack: stack@ }),
        decreases cs.len() - i,
    {
        let c = cs[i];
        proof {
            assert(cs@.take(i + 1).drop_last() =~= cs@.take(i as int));
            assert(cs@.take(i + 1).last() == c);
        }
        if escape {
            escape = false;
        } else if c == '\\' && in_string {
            escape = true;
        } else if c == '"' {
            in_string = !in_string;
        } else if in_string {
        } else if c == '{' {
            stack.push('}');
        } else if c == '[' {
            stack.push(']');
        } else if c == '}' || c == ']' {
            if stack.len() > 0 {
                stack.pop();
            }
        }
        i = i + 1;
        proof {
            assert(stack@ == repair_scan(cs@.take(i as int)).stack);
        }
    }
    proof {
        assert(cs@.take(cs.len() as int) =~= s@);
    }
    let ghost st = repair_scan(s@);
    let mut result = string_from(s);
    if in_string {
        push_char(&mut result, '"');
    }
    let ghost base = result@;
    proof {
        assert(base == s@ + (if st.in_string { seq!['"'] } else { Seq::empty() }));
    }
    while stack.len() > 0
        invariant
            result@ + closers(stack@) == base + closers(st.stack),
        decreases stack.len(),
    {
        let ghost before = stack@;
        let c = stack.pop().unwrap();
        proof {
            assert(before.drop_last() == stack@);
            assert(before.last() == c);
        }
        push_char(&mut result, c);
        proof {
            assert(result@ + closers(stack@) =~= (result@.drop_last() + seq![c]) + closers(stack@));
            assert(result@.drop_last() + closers(before) =~= result@.drop_last() + (seq![c] + closers(stack@)));
        }
    }
    proof {
        assert(closers(stack@) =~= Seq::<char>::empty());
        assert(result@ =~= closed_up(s@));
    }
    if is_valid_json(result.as_str()) {
        result
    } else {
        let mut out = string_from("{\"_raw\":");
        match json_string_literal(s) {
            Some(q) => push_str(&mut out, q.as_str()),
            None => push_str(&mut out, "\"\""),
        }
        push_str(&mut out, "}");
        out
    }
}

/// The arguments a call is sent with: `{}` for blank arguments, the
/// trimmed arguments when they are valid JSON, and their repair otherwise.
pub open spec fn ensured_json(raw: Seq<char>) -> Seq<char> {
    let t = trim(raw);
    if t.len() == 0 {
        "{}"@
    } else if json_valid(t) {
        t
    } else {
        repaired(t)
    }
}

/// Makes sure the arguments are valid JSON, since some model APIs refuse a
/// call whose arguments are not.
pub fn ensure_json_arguments(raw: &str) -> (r: String)
    ensures
        r@ == ensured_json(raw@),
{
    let t = trim_chars(chars_of(raw).as_slice());
    let trimmed = string_of(t.as_slice());
    if t.len() == 0 {
        return string_from("{}");
    }
    if is_valid_json(trimmed.as_str()) {
        return trimmed;
    }
    repair_json(trimmed.as_str())
}

// ───────────────────────── merging fragments ─────────────────────────

/// The members of object text `s` (none when it is not an object).
pub open spec fn members_of(s: Seq<char>) -> Map<Seq<char>, Seq<char>> {
    match json_object_entries(s) {
        Some(m) => m,
        None => Map::empty(),
    }
}

/// Whether each of `objs` is a JSON object.
pub open spec fn all_objects(objs: Seq<Seq<char>>) -> bool {
    forall|i: int| 0 <= i < objs.len() ==> (#[trigger] json_object_entries(objs[i])) is Some
}

/// Whether no key occurs in two of `objs`.
pub open spec fn keys_disjoint(objs: Seq<Seq<char>>) -> bool {
    forall|i: int, j: int, k: Seq<char>|
        0 <= i < j < objs.len() && #[trigger] members_of(objs[i]).dom().contains(k) ==> !#[trigger] members_of(
            objs[j],
        ).dom().contains(k)
}

/// The members of all of `objs` together.
pub open spec fn merged_members(objs: Seq<Seq<char>>) -> Map<Seq<char>, Seq<char>>
    decreases objs.len(),
{
    if objs.len() == 0 {
        Map::empty()
    } else {
        merged_members(objs.drop_last()).union_prefer_right(members_of(objs.last()))
    }
}

/// The text of the single object that `objs` merge into, when they are all
/// objects with distinct keys (and serde_json writes the result); nothing
/// when they must stay separate.
pub open spec fn merge_outcome(objs: Seq<Seq<char>>) -> Option<Seq<char>> {
    if all_objects(objs) && keys_disjoint(objs) {
        json_object_text(merged_members(objs))
    } else {
        None
    }
}

/// Whether fragments were merged into one object, or kept apart.
#[derive(Debug)]
pub enum MergeResult {
    /// All fragments had distinct keys and were merged into one JSON object.
    Merged(String),
    /// A key conflict, or a fragment that is no object: keep them apart.
    Split(Vec<String>),
}

proof fn lemma_merged_keys(objs: Seq<Seq<char>>, k: Seq<char>)
    ensures
        merged_members(objs).dom().contains(k) <==> exists|i: int| 0 <= i < objs.len() && #[trigger] members_of(
            objs[i],
        ).dom().contains(k),
    decreases objs.len(),
{
    if objs.len() > 0 {
        let rest = objs.drop_last();
        lemma_merged_keys(rest, k);
        if merged_members(objs).dom().contains(k) {
            if !members_of(objs.last()).dom().contains(k) {
                let i = choose|i: int| 0 <= i < rest.len() && #[trigger] members_of(rest[i]).dom().contains(k);
                assert(objs[i] == rest[i]);
            } else {
                assert(members_of(objs[objs.len() - 1]).dom().contains(k));
            }
        }
        if exists|i: int| 0 <= i < objs.len() && #[trigger] members_of(objs[i]).dom().contains(k) {
            let i = choose|i: int| 0 <= i < objs.len() && #[trigger] members_of(objs[i]).dom().contains(k);
            if i < objs.len() - 1 {
                assert(rest[i] == objs[i]);
            }
        }
    }
}

/// A copy of a list of strings.
fn copy_strings(v: &[String]) -> (r: Vec<String>)
    ensures
        views(r@) == views(v@),
{
    let mut out: Vec<String> = Vec::new();
    let mut i: usize = 0;
    while i < v.len()
        invariant
            i <= v.len(),
            views(out@) =~= views(v@).take(i as int),
        decreases v.len() - i,
    {
        let ghost before = out@;
        out.push(v[i].clone());
        i = i + 1;
        proof {
            assert(views(out@) =~= views(before).push(v@[i - 1]@));
        }
    }
    proof {
        assert(views(v@).take(v.len() as int) =~= views(v@));
    }
    out
}

/// Whether `k` is one of `keys`.
fn holds_key(keys: &Vec<String>, k: &str) -> (r: bool)
    ensures
        r == views(keys@).contains(k@),
{
    let mut i: usize = 0;
    while i < keys.len()
        invariant
            i <= keys.len(),
            forall|j: int| 0 <= j < i ==> views(keys@)[j] != k@,
        decreases keys.len() - i,
    {
        if crate::text::str_eq(keys[i].as_str(), k) {
            proof {
                assert(views(keys@)[i as int] == k@);
            }
            return true;
        }
        i = i + 1;
    }
    false
}

/// Merges JSON objects into one when all their keys are distinct; keeps
/// them apart when a key repeats or a fragment is not an object.
pub fn try_merge_json_objects(objects: &[String]) -> (r: MergeResult)
    ensures
        match r {
            MergeResult::Merged(t) => merge_outcome(views(objects@)) == Some(t@),
            MergeResult::Split(v) => merge_outcome(views(objects@)) is None && views(v@) == views(objects@),
        },
{
    let ghost objs = views(objects@);
    let mut merged = new_json_map();
    let mut seen: Vec<String> = Vec::new();
    let mut i: usize = 0;
    while i < objects.len()
        invariant
            i <= objects.len(),
            objs == views(objects@),
            all_objects(objs.take(i as int)),
            keys_disjoint(objs.take(i as int)),
            map_entries(merged) == merged_members(objs.take(i as int)),
            forall|k: Seq<char>| views(seen@).contains(k) <==> merged_members(objs.take(i as int)).dom().contains(k),
        decreases objects.len() - i,
    {
        let ghost prefix = objs.take(i as int);
        let ghost next = objs.take(i + 1);
        proof {
            assert(objs[i as int] == objects@[i as int]@);
            assert(next.drop_last() =~= prefix);
            assert(next.last() == objs[i as int]);
        }
        match parse_object(objects[i].as_str()) {
            None => {
                proof {
                    assert(json_object_entries(objs[i as int]) is None);
                    assert(!all_objects(objs));
                }
                return MergeResult::Split(copy_strings(objects));
            },
            Some(mut m) => {
                let keys = json_map_keys(&m);
                let mut j: usize = 0;
                while j < keys.len()
                    invariant
                        j <= keys.len(),
                        objs == views(objects@),
                        i < objects.len(),
                        prefix == objs.take(i as int),
                        views(keys@).to_set() == map_entries(m).dom(),
                        json_object_entries(objs[i as int]) == Some(map_entries(m)),
                        forall|k: Seq<char>| views(seen@).contains(k) <==> merged_members(prefix).dom().contains(k),
                        forall|q: int| 0 <= q < j ==> !views(seen@).contains(#[trigger] views(keys@)[q]),
                    decreases keys.len() - j,
                {
                    if holds_key(&seen, keys[j].as_str()) {
                        proof {
                            let k = keys@[j as int]@;
                            assert(views(keys@)[j as int] == k);
                            assert(views(keys@).to_set().contains(k));
                            assert(members_of(objs[i as int]).dom().contains(k));
                            lemma_merged_keys(prefix, k);
                            let a = choose|a: int| 0 <= a < prefix.len() && #[trigger] members_of(prefix[a]).dom().contains(k);
                            assert(prefix[a] == objs[a]);
                            assert(members_of(objs[a]).dom().contains(k));
                            assert(!keys_disjoint(objs));
                        }
                        return MergeResult::Split(copy_strings(objects));
                    }
                    j = j + 1;
                }
                proof {
                    assert forall|k: Seq<char>| map_entries(m).dom().contains(k) implies !merged_members(
                        prefix,
                    ).dom().contains(k) by {
                        assert(views(keys@).to_set().contains(k));
                        let w = choose|w: int| 0 <= w < views(keys@).len() && views(keys@)[w] == k;
                        assert(!views(seen@).contains(views(keys@)[w]));
                    }
                }
                let mut q: usize = 0;
                while q < keys.len()
                    invariant
                        q <= keys.len(),
                        forall|k: Seq<char>| views(seen@).contains(k) <==> (merged_members(prefix).dom().contains(k)
                            || views(keys@).take(q as int).contains(k)),
                    decreases keys.len() - q,
                {
                    let ghost before = seen@;
                    seen.push(keys[q].clone());
                    q = q + 1;
                    proof {
                        let nk = views(keys@)[q - 1];
                        assert(views(seen@) =~= views(before).push(nk));
                        assert(views(keys@).take(q as int) =~= views(keys@).take(q - 1).push(nk));
                        assert forall|k: Seq<char>| views(seen@).contains(k) <==> (merged_members(prefix).dom().contains(k)
                            || views(keys@).take(q as int).contains(k)) by {
                            if views(seen@).contains(k) && k != nk {
                                let w = choose|w: int| 0 <= w < views(seen@).len() && #[trigger] views(seen@)[w] == k;
                                assert(views(before)[w] == k);
                            }
                            if views(keys@).take(q as int).contains(k) && k != nk {
                                let w = choose|w: int| 0 <= w < q && #[trigger] views(keys@).take(q as int)[w] == k;
                                assert(views(keys@).take(q - 1)[w] == k);
                            }
                            if views(before).contains(k) {
                                let w = choose|w: int| 0 <= w < views(before).len() && #[trigger] views(before)[w] == k;
                                assert(views(seen@)[w] == k);
                            }
                            if views(keys@).take(q - 1).contains(k) {
                                let w = choose|w: int| 0 <= w < q - 1 && #[trigger] views(keys@).take(q - 1)[w] == k;
                                assert(views(keys@).take(q as int)[w] == k);
                            }
                            if k == nk {
                                assert(views(seen@)[views(seen@).len() - 1] == k);
                                assert(views(keys@).take(q as int)[q - 1] == k);
                            }
                        }
                    }
                }
                proof {
                    assert(views(keys@).take(keys.len() as int) =~= views(keys@));
                    assert forall|k: Seq<char>| views(keys@).contains(k) <==> map_entries(m).dom().contains(k) by {
                        if views(keys@).contains(k) {
                            assert(views(keys@).to_set().contains(k));
                        }
                        if map_entries(m).dom().contains(k) {
                            assert(views(keys@).to_set().contains(k));
                        }
                    }
                    assert(members_of(objs[i as int]) == map_entries(m));
                    assert(merged_members(next) == merged_members(prefix).union_prefer_right(map_entries(m)));
                    assert forall|a: int| 0 <= a < next.len() implies (#[trigger] json_object_entries(next[a])) is Some by {
                        if a < i {
                            assert(next[a] == prefix[a]);
                        }
                    }
                    assert forall|a: int, b: int, k: Seq<char>|
                        0 <= a < b < next.len() && #[trigger] members_of(next[a]).dom().contains(k) implies !#[trigger] members_of(
                            next[b],
                        ).dom().contains(k) by {
                        assert(next[a] == prefix[a]);
                        if b < i {
                            assert(next[b] == prefix[b]);
                        } else {
                            assert(next[b] == objs[i as int]);
                            lemma_merged_keys(prefix, k);
                        }
                    }
                }
                json_map_append(&mut merged, &mut m);
                i = i + 1;
            },
        }
    }
    proof {
        assert(objs.take(objects.len() as int) =~= objs);
    }
    match json_object_to_string(merged) {
        Some(t) => MergeResult::Merged(t),
        None => MergeResult::Split(copy_strings(objects)),
    }
}

// ───────────────────────── assembling calls ─────────────────────────

/// A tool call being assembled from streamed deltas.
#[derive(Debug)]
pub struct ToolCallAccumulator {
    pub id: String,
    pub name: String,
    pub arguments: String,
}

/// The id of the `i`-th call that split arguments become.
pub open spec fn split_id(id: Seq<char>, i: int) -> Seq<char> {
    if i == 0 {
        id
    } else {
        id + "_split_"@ + crate::text::decimal(i as nat)
    }
}

/// A call as (id, name, arguments).
pub open spec fn call_view(c: ToolCall) -> (Seq<char>, Seq<char>, Seq<char>) {
    (c.id@, c.name@, c.arguments@)
}

/// The calls that an assembled call of `id` and `name` with `args` becomes:
/// back-to-back objects are merged into one call when their keys are
/// distinct, and split into one call each otherwise; any other arguments
/// give one call with arguments made valid JSON.
pub open spec fn assembled_calls(id: Seq<char>, name: Seq<char>, args: Seq<char>) -> Seq<(Seq<char>, Seq<char>, Seq<char>)> {
    let t = trim(args);
    match concatenated_objects(t) {
        Some(objs) => match merge_outcome(objs) {
            Some(m) => seq![(id, name, m)],
            None => Seq::new(objs.len(), |i: int| (split_id(id, i), name, objs[i])),
        },
        None => seq![(id, name, ensured_json(t))],
    }
}

impl ToolCallAccumulator {
    /// The calls that this assembled call becomes.
    pub fn to_tool_calls(&self) -> (r: Vec<ToolCall>)
        ensures
            r@.map_values(|c: ToolCall| call_view(c)) == assembled_calls(self.id@, self.name@, self.arguments@),
    {
        let t = trim_chars(chars_of(self.arguments.as_str()).as_slice());
        let trimmed = string_of(t.as_slice());
        let ghost want = assembled_calls(self.id@, self.name@, self.arguments@);
        let mut calls: Vec<ToolCall> = Vec::new();
        match try_split_concatenated_json(trimmed.as_str()) {
            Some(objects) => {
                match try_merge_json_objects(objects.as_slice()) {
                    MergeResult::Merged(merged) => {
                        calls.push(ToolCall { id: self.id.clone(), name: self.name.clone(), arguments: merged });
                        proof {
                            assert(calls@.map_values(|c: ToolCall| call_view(c)) =~= want);
                        }
                    },
                    MergeResult::Split(split) => {
                        let ghost objs = views(split@);
                        let mut i: usize = 0;
                        while i < split.len()
                            invariant
                                i <= split.len(),
                                objs == views(split@),
                                calls@.map_values(|c: ToolCall| call_view(c)) =~= Seq::new(
                                    i as nat,
                                    |k: int| (split_id(self.id@, k), self.name@, objs[k]),
                                ),
                            decreases split.len() - i,
                        {
                            let id = if i == 0 {
                                self.id.clone()
                            } else {
                                let mut s = string_from(self.id.as_str());
                                push_str(&mut s, "_split_");
                                crate::text::push_u64(&mut s, i as u64);
                                s
                            };
                            let ghost before = calls@;
                            calls.push(ToolCall { id, name: self.name.clone(), arguments: split[i].clone() });
                            proof {
                                assert(objs[i as int] == split@[i as int]@);
                                assert(calls@.map_values(|c: ToolCall| call_view(c)) =~= before.map_values(
                                    |c: ToolCall| call_view(c),
                                ).push((split_id(self.id@, i as int), self.name@, objs[i as int])));
                            }
                            i = i + 1;
                        }
                        proof {
                            assert(calls@.map_values(|c: ToolCall| call_view(c)) =~= want);
                        }
                    },
                }
            },
            None => {
                let arguments = ensure_json_arguments(trimmed.as_str());
                calls.push(ToolCall { id: self.id.clone(), name: self.name.clone(), arguments });
                proof {
                    assert(calls@.map_values(|c: ToolCall| call_view(c)) =~= want);
                }
            },
        }
        calls
    }
}

/// The function part of a streamed tool-call delta.
#[derive(Debug, Clone)]
pub struct FunctionCallDelta {
    pub name: Option<String>,
    pub arguments: Option<String>,
}

/// One streamed delta of the tool call at position `index`.
#[derive(Debug, Clone)]
pub struct StreamToolCallDelta {
    pub index: u32,
    pub id: Option<String>,
    pub call_type: Option<String>,
    pub function: Option<FunctionCallDelta>,
}

/// An accumulator as (id, name, arguments).
pub open spec fn acc_view(a: ToolCallAccumulator) -> (Seq<char>, Seq<char>, Seq<char>) {
    (a.id@, a.name@, a.arguments@)
}

/// The accumulators as (id, name, arguments).
pub open spec fn accs_view(v: Seq<ToolCallAccumulator>) -> Seq<(Seq<char>, Seq<char>, Seq<char>)> {
    v.map_values(|a: ToolCallAccumulator| acc_view(a))
}

/// `new` when it is given and not empty, else `cur`.
pub open spec fn replaced_if_given(new: Option<Seq<char>>, cur: Seq<char>) -> Seq<char> {
    match new {
        Some(s) => if s.len() > 0 {
            s
        } else {
            cur
        },
        None => cur,
    }
}

/// The accumulators after `d`: they are extended with empty ones up to
/// position `d.index`; there, a non-empty id or name replaces the current
/// one and an argument piece is appended.
pub open spec fn accumulated(accs: Seq<(Seq<char>, Seq<char>, Seq<char>)>, d: StreamToolCallDelta) -> Seq<(Seq<char>, Seq<char>, Seq<char>)> {
    let idx = d.index as int;
    let grown = if accs.len() > idx {
        accs
    } else {
        accs + Seq::new((idx + 1 - accs.len()) as nat, |i: int| (Seq::<char>::empty(), Seq::<char>::empty(), Seq::<char>::empty()))
    };
    let e = grown[idx];
    let (name, piece) = match d.function {
        Some(f) => (opt_view(f.name), opt_view(f.arguments)),
        None => (None, None),
    };
    grown.update(idx, (
        replaced_if_given(opt_view(d.id), e.0),
        replaced_if_given(name, e.1),
        e.2 + match piece {
            Some(p) => p,
            None => Seq::empty(),
        },
    ))
}

/// Folds one streamed delta into the accumulators.
pub fn accumulate_tool_call(accum: &mut Vec<ToolCallAccumulator>, delta: &StreamToolCallDelta)
    ensures
        accs_view(final(accum)@) == accumulated(accs_view(old(accum)@), *delta),
{
    let idx = delta.index as usize;
    let ghost start = accs_view(accum@);
    let ghost grown = if start.len() > idx {
        start
    } else {
        start + Seq::new((idx + 1 - start.len()) as nat, |i: int| (Seq::<char>::empty(), Seq::<char>::empty(), Seq::<char>::empty()))
    };
    while accum.len() <= idx
        invariant
            start.len() <= accum.len(),
            accum.len() <= idx + 1 || accum.len() == start.len(),
            forall|i: int| 0 <= i < accum.len() ==> #[trigger] accs_view(accum@)[i] == grown[i],
            grown == (if start.len() > idx {
                start
            } else {
                start + Seq::new((idx + 1 - start.len()) as nat, |i: int| (Seq::<char>::empty(), Seq::<char>::empty(), Seq::<char>::empty()))
            }),
            grown.len() >= accum.len(),
        decreases idx + 1 - accum.len(),
    {
        let ghost before = accum@;
        accum.push(ToolCallAccumulator { id: String::new(), name: String::new(), arguments: String::new() });
        proof {
            assert forall|i: int| 0 <= i < accum.len() implies #[trigger] accs_view(accum@)[i] == grown[i] by {
                if i < before.len() {
                    assert(accum@[i] == before[i]);
                    assert(accs_view(before)[i] == grown[i]);
                } else {
                    assert(start.len() <= idx);
                    assert(grown[i] == (Seq::<char>::empty(), Seq::<char>::empty(), Seq::<char>::empty()));
                    assert(accum@[i].id@ == Seq::<char>::empty());
                }
            }
        }
    }
    proof {
        assert(accs_view(accum@) =~= grown);
    }
    let e = &accum[idx];
    let id = match &delta.id {
        Some(s) => if chars_of(s.as_str()).len() > 0 {
            s.clone()
        } else {
            string_from(e.id.as_str())
        },
        None => string_from(e.id.as_str()),
    };
    let mut name = string_from(e.name.as_str());
    let mut arguments = string_from(e.arguments.as_str());
    match &delta.function {
        Some(f) => {
            match &f.name {
                Some(n) => if chars_of(n.as_str()).len() > 0 {
                    name = n.clone();
                },
                None => {},
            }
            match &f.arguments {
                Some(a) => push_str(&mut arguments, a.as_str()),
                None => {},
            }
        },
        None => {},
    }
    accum.set(idx, ToolCallAccumulator { id, name, arguments });
    proof {
        assert(accs_view(accum@) =~= accumulated(start, *delta));
    }
}

/// The accumulators after a run of deltas, in order.
pub open spec fn accumulated_all(accs: Seq<(Seq<char>, Seq<char>, Seq<char>)>, ds: Seq<StreamToolCallDelta>) -> Seq<(Seq<char>, Seq<char>, Seq<char>)>
    decreases ds.len(),
{
    if ds.len() == 0 {
        accs
    } else {
        accumulated(accumulated_all(accs, ds.drop_last()), ds.last())
    }
}

/// The argument piece a delta carries (empty when none).
pub open spec fn piece_of(d: StreamToolCallDelta) -> Seq<char> {
    match d.function {
        Some(f) => match opt_view(f.arguments) {
            Some(p) => p,
            None => Seq::empty(),
        },
        None => Seq::empty(),
    }
}

/// The argument pieces of a run of deltas, joined.
pub open spec fn pieces_of(ds: Seq<StreamToolCallDelta>) -> Seq<char>
    decreases ds.len(),
{
    if ds.len() == 0 {
        Seq::empty()
    } else {
        pieces_of(ds.drop_last()) + piece_of(ds.last())
    }
}

/// Streaming the deltas of one call assembles its arguments as the pieces
/// joined in order, and leaves every other call as it was.
pub proof fn lemma_streamed_arguments_concatenate(
    accs: Seq<(Seq<char>, Seq<char>, Seq<char>)>,
    ds: Seq<StreamToolCallDelta>,
    idx: int,
)
    requires
        0 <= idx < accs.len(),
        forall|k: int| 0 <= k < ds.len() ==> #[trigger] ds[k].index == idx,
    ensures
        accumulated_all(accs, ds).len() == accs.len(),
        accumulated_all(accs, ds)[idx].2 == accs[idx].2 + pieces_of(ds),
        forall|j: int| 0 <= j < accs.len() && j != idx ==> #[trigger] accumulated_all(accs, ds)[j] == accs[j],
    decreases ds.len(),
{
    if ds.len() == 0 {
        assert(accs[idx].2 + Seq::<char>::empty() =~= accs[idx].2);
    } else {
        let rest = ds.drop_last();
        assert forall|k: int| 0 <= k < rest.len() implies #[trigger] rest[k].index == idx by {
            assert(rest[k] == ds[k]);
        }
        lemma_streamed_arguments_concatenate(accs, rest, idx);
        let before = accumulated_all(accs, rest);
        let d = ds.last();
        assert(d.index == idx);
        assert(accumulated_all(accs, ds) == accumulated(before, d));
        assert(accumulated(before, d)[idx].2 =~= before[idx].2 + piece_of(d));
        assert(accs[idx].2 + pieces_of(rest) + piece_of(d) =~= accs[idx].2 + pieces_of(ds));
    }
}

/// Valid JSON arguments are sent as they are, trimmed.
pub proof fn lemma_valid_arguments_kept(raw: Seq<char>)
    requires
        trim(raw).len() > 0,
        json_valid(trim(raw)),
    ensures
        ensured_json(raw) == trim(raw),
{
}

} // verus!
