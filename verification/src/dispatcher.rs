//! Planning a batch of tool calls before they run.
//!
//! A batch is deduplicated first: a `read_file` call whose path was already
//! read earlier in the same batch does not run again, it reuses the earlier
//! result.  The remaining calls are split in two: calls of tools that declare
//! themselves safe for parallel execution and are not guarded run
//! concurrently; guarded tools and every other tool run one by one.
use vstd::prelude::*;
use crate::json_args::{has_member, json_has_member, json_string_member, opt_view, string_member};
use crate::text::{push_str, str_eq, string_from};

verus! {

/// One tool call of a batch, as the planner reads it.
#[derive(Debug, Clone)]
pub struct ToolCall {
    pub id: String,
    pub name: String,
    /// The call's arguments, as JSON text.
    pub arguments: String,
}

/// The tool whose calls are deduplicated within a batch.
pub const READ_FILE_TOOL: &'static str = "read_file";

/// The `command` argument of a call, when its arguments are a JSON object
/// with a string member `command`.
pub fn extract_command_from_args(arguments: &str) -> (r: Option<String>)
    ensures
        opt_view(r) == json_string_member(arguments@, "command"@),
{
    string_member(arguments, "command")
}

/// The key by which a call is deduplicated: the `path` argument of a
/// `read_file` call; other tools have none.
pub open spec fn target_key(tool_name: Seq<char>, arguments: Seq<char>) -> Option<Seq<char>> {
    if tool_name == READ_FILE_TOOL@ {
        json_string_member(arguments, "path"@)
    } else {
        None
    }
}

/// The deduplication key of the call of `tool_name` with `arguments`.
pub fn extract_target_key(tool_name: &str, arguments: &str) -> (r: Option<String>)
    ensures
        opt_view(r) == target_key(tool_name@, arguments@),
{
    if str_eq(tool_name, READ_FILE_TOOL) {
        string_member(arguments, "path")
    } else {
        None
    }
}

/// The first of the first `n` targets that equals `Some(p)`.
pub open spec fn first_with_target(targets: Seq<Option<Seq<char>>>, p: Seq<char>, n: int) -> Option<int>
    decreases n,
{
    if n <= 0 {
        None
    } else {
        match first_with_target(targets, p, n - 1) {
            Some(j) => Some(j),
            None => if targets[n - 1] == Some(p) {
                Some(n - 1)
            } else {
                None
            },
        }
    }
}

/// The earlier call whose result call `i` reuses: the first call with the
/// same target, when that call comes before `i`.
pub open spec fn dedup_source(targets: Seq<Option<Seq<char>>>, i: int) -> Option<int> {
    match targets[i] {
        Some(p) => first_with_target(targets, p, i),
        None => None,
    }
}

proof fn lemma_first_with_target(targets: Seq<Option<Seq<char>>>, p: Seq<char>, n: int)
    ensures
        match first_with_target(targets, p, n) {
            Some(j) => 0 <= j < n && targets[j] == Some(p) && forall|k: int|
                0 <= k < j ==> #[trigger] targets[k] != Some(p),
            None => forall|k: int| 0 <= k < n ==> #[trigger] targets[k] != Some(p),
        },
    decreases n,
{
    if n > 0 {
        lemma_first_with_target(targets, p, n - 1);
    }
}

proof fn lemma_first_with_target_found(targets: Seq<Option<Seq<char>>>, p: Seq<char>, j: int, n: int)
    requires
        0 <= j < n,
        targets[j] == Some(p),
        forall|k: int| 0 <= k < j ==> #[trigger] targets[k] != Some(p),
    ensures
        first_with_target(targets, p, n) == Some(j),
    decreases n,
{
    if n > j + 1 {
        lemma_first_with_target_found(targets, p, j, n - 1);
    } else {
        lemma_first_with_target(targets, p, j);
    }
}

/// For each call, given by its deduplication target, the earlier call whose
/// result it reuses, if any.
pub fn dedup_sources(targets: &[Option<String>]) -> (r: Vec<Option<usize>>)
    ensures
        r.len() == targets.len(),
        forall|i: int| 0 <= i < targets.len() ==> match #[trigger] r@[i] {
            Some(j) => dedup_source(targets@.map_values(|t: Option<String>| opt_view(t)), i) == Some(j as int),
            None => dedup_source(targets@.map_values(|t: Option<String>| opt_view(t)), i) == None::<int>,
        },
{
    let ghost ts = targets@.map_values(|t: Option<String>| opt_view(t));
    let mut out: Vec<Option<usize>> = Vec::new();
    let mut i: usize = 0;
    while i < targets.len()
        invariant
            i <= targets.len(),
            out.len() == i,
            ts == targets@.map_values(|t: Option<String>| opt_view(t)),
            forall|a: int| 0 <= a < i ==> match #[trigger] out@[a] {
                Some(j) => dedup_source(ts, a) == Some(j as int),
                None => dedup_source(ts, a) == None::<int>,
            },
        decreases targets.len() - i,
    {
        let mut found: Option<usize> = None;
        proof {
            assert(ts[i as int] == opt_view(targets@[i as int]));
        }
        match &targets[i] {
            None => {},
            Some(p) => {
                let ghost pv = p@;
                let mut j: usize = 0;
                while j < i && found.is_none()
                    invariant
                        j <= i < targets.len(),
                        ts == targets@.map_values(|t: Option<String>| opt_view(t)),
                        ts[i as int] == Some(pv),
                        pv == p@,
                        found is None ==> forall|k: int| 0 <= k < j ==> #[trigger] ts[k] != Some(pv),
                        match found {
                            Some(w) => first_with_target(ts, pv, i as int) == Some(w as int),
                            None => true,
                        },
                    decreases i - j,
                {
                    proof {
                        assert(ts[j as int] == opt_view(targets@[j as int]));
                    }
                    let hit = match &targets[j] {
                        Some(q) => str_eq(q.as_str(), p.as_str()),
                        None => false,
                    };
                    if hit {
                        found = Some(j);
                        proof {
                            assert(ts[j as int] == Some(pv));
                            lemma_first_with_target_found(ts, pv, j as int, i as int);
                        }
                    }
                    j = j + 1;
                }
                proof {
                    if found is None {
                        lemma_first_with_target(ts, pv, i as int);
                        if first_with_target(ts, pv, i as int) is Some {
                            let w = first_with_target(ts, pv, i as int)->0;
                            assert(ts[w] == Some(pv));
                        }
                    }
                }
            },
        }
        out.push(found);
        proof {
            assert(out@[i as int] == found);
        }
        i = i + 1;
    }
    out
}

/// For each call of the batch, the earlier call whose result it reuses: a
/// `read_file` call of a path already read earlier in the batch.
pub fn build_dedup_map(calls: &[ToolCall]) -> (r: Vec<Option<usize>>)
    ensures
        r.len() == calls.len(),
        forall|i: int| 0 <= i < calls.len() ==> match #[trigger] r@[i] {
            Some(j) => dedup_source(call_targets(calls@), i) == Some(j as int),
            None => dedup_source(call_targets(calls@), i) == None::<int>,
        },
{
    let mut targets: Vec<Option<String>> = Vec::new();
    let mut i: usize = 0;
    while i < calls.len()
        invariant
            i <= calls.len(),
            targets.len() == i,
            targets@.map_values(|t: Option<String>| opt_view(t)) =~= call_targets(calls@).take(i as int),
        decreases calls.len() - i,
    {
        let ghost before = targets@;
        let t = extract_target_key(calls[i].name.as_str(), calls[i].arguments.as_str());
        targets.push(t);
        proof {
            let now = targets@.map_values(|t: Option<String>| opt_view(t));
            let want = call_targets(calls@).take(i + 1);
            assert forall|k: int| 0 <= k < i + 1 implies now[k] == want[k] by {
                if k < i {
                    assert(targets@[k] == before[k]);
                    assert(before.map_values(|t: Option<String>| opt_view(t))[k] == call_targets(
                        calls@,
                    ).take(i as int)[k]);
                } else {
                    assert(targets@[k] == t);
                }
            }
            assert(now =~= want);
        }
        i = i + 1;
    }
    proof {
        assert(call_targets(calls@).take(calls.len() as int) =~= call_targets(calls@));
    }
    dedup_sources(targets.as_slice())
}

/// A duplicate call reuses an earlier call with the same target, and that
/// call is itself no duplicate, so its result is produced by running it.
pub proof fn lemma_dedup_source_runs(targets: Seq<Option<Seq<char>>>, i: int)
    requires
        0 <= i < targets.len(),
        dedup_source(targets, i) is Some,
    ensures
        ({
            let j = dedup_source(targets, i)->0;
            &&& 0 <= j < i
            &&& targets[j] == targets[i]
            &&& dedup_source(targets, j) is None
        }),
{
    let p = targets[i]->0;
    lemma_first_with_target(targets, p, i);
    let j = dedup_source(targets, i)->0;
    lemma_first_with_target(targets, p, j);
}

/// The deduplication targets of a batch of calls.
pub open spec fn call_targets(calls: Seq<ToolCall>) -> Seq<Option<Seq<char>>> {
    calls.map_values(|c: ToolCall| target_key(c.name@, c.arguments@))
}

/// The indices below `n` that satisfy `p`, in increasing order.
pub open spec fn indices_where(n: int, p: spec_fn(int) -> bool) -> Seq<usize>
    decreases n,
{
    if n <= 0 {
        Seq::empty()
    } else if p(n - 1) {
        indices_where(n - 1, p).push((n - 1) as usize)
    } else {
        indices_where(n - 1, p)
    }
}

/// Whether call `i` runs concurrently: it is not a duplicate, its tool is
/// not guarded, and the tool declares itself safe for parallel execution.
pub open spec fn runs_concurrently(dedup: Seq<Option<usize>>, guarded: Seq<bool>, parallel: Seq<bool>, i: int) -> bool {
    dedup[i] is None && !guarded[i] && parallel[i]
}

/// Whether call `i` runs on its own, after the concurrent ones: it is not a
/// duplicate, and its tool is guarded or not safe for parallel execution.
pub open spec fn runs_sequentially(dedup: Seq<Option<usize>>, guarded: Seq<bool>, parallel: Seq<bool>, i: int) -> bool {
    dedup[i] is None && (guarded[i] || !parallel[i])
}

/// Splits the non-duplicate calls of a batch into those that run
/// concurrently and those that run one by one, each in batch order.
/// `guarded[i]` says whether call `i`'s tool is guarded, `parallel[i]`
/// whether it declares itself safe for parallel execution.
pub fn partition_by_concurrency(dedup: &[Option<usize>], guarded: &[bool], parallel: &[bool]) -> (r: (
    Vec<usize>,
    Vec<usize>,
))
    requires
        guarded.len() == dedup.len(),
        parallel.len() == dedup.len(),
    ensures
        r.0@ == indices_where(dedup.len() as int, |i: int| runs_concurrently(dedup@, guarded@, parallel@, i)),
        r.1@ == indices_where(dedup.len() as int, |i: int| runs_sequentially(dedup@, guarded@, parallel@, i)),
{
    let ghost pc = |i: int| runs_concurrently(dedup@, guarded@, parallel@, i);
    let ghost ps = |i: int| runs_sequentially(dedup@, guarded@, parallel@, i);
    let mut concurrent: Vec<usize> = Vec::new();
    let mut sequential: Vec<usize> = Vec::new();
    let mut i: usize = 0;
    while i < dedup.len()
        invariant
            i <= dedup.len(),
            guarded.len() == dedup.len(),
            parallel.len() == dedup.len(),
            pc == (|k: int| runs_concurrently(dedup@, guarded@, parallel@, k)),
            ps == (|k: int| runs_sequentially(dedup@, guarded@, parallel@, k)),
            concurrent@ == indices_where(i as int, pc),
            sequential@ == indices_where(i as int, ps),
        decreases dedup.len() - i,
    {
        proof {
            assert(pc(i as int) == runs_concurrently(dedup@, guarded@, parallel@, i as int));
            assert(ps(i as int) == runs_sequentially(dedup@, guarded@, parallel@, i as int));
            assert(indices_where(i + 1, pc) == if pc(i as int) {
                indices_where(i as int, pc).push(i)
            } else {
                indices_where(i as int, pc)
            });
            assert(indices_where(i + 1, ps) == if ps(i as int) {
                indices_where(i as int, ps).push(i)
            } else {
                indices_where(i as int, ps)
            });
        }
        if dedup[i].is_none() {
            if guarded[i] {
                sequential.push(i);
            } else if parallel[i] {
                concurrent.push(i);
            } else {
                sequential.push(i);
            }
        }
        i = i + 1;
    }
    (concurrent, sequential)
}

pub(crate) proof fn lemma_indices_where(n: int, p: spec_fn(int) -> bool)
    requires
        n <= usize::MAX,
    ensures
        forall|k: int| 0 <= k < indices_where(n, p).len() ==> {
            let x = #[trigger] indices_where(n, p)[k];
            0 <= x < n && p(x as int)
        },
        forall|i: int| 0 <= i < n && #[trigger] p(i) ==> indices_where(n, p).contains(i as usize),
        forall|a: int, b: int| 0 <= a < b < indices_where(n, p).len() ==> indices_where(n, p)[a]
            < indices_where(n, p)[b],
    decreases n,
{
    if n > 0 {
        lemma_indices_where(n - 1, p);
        let prev = indices_where(n - 1, p);
        if p(n - 1) {
            let last = (n - 1) as usize;
            assert(last as int == n - 1);
            let cur = prev.push(last);
            assert(indices_where(n, p) == cur);
            assert forall|k: int| 0 <= k < cur.len() implies {
                let x = #[trigger] cur[k];
                0 <= x < n && p(x as int)
            } by {
                if k < prev.len() {
                    assert(cur[k] == prev[k]);
                }
            }
            assert forall|a: int, b: int| 0 <= a < b < cur.len() implies cur[a] < cur[b] by {
                assert(cur[a] == prev[a]);
                if b < prev.len() {
                    assert(cur[b] == prev[b]);
                }
            }
            assert forall|i: int| 0 <= i < n && #[trigger] p(i) implies cur.contains(i as usize) by {
                if i < n - 1 {
                    assert(prev.contains(i as usize));
                    let k = choose|k: int| 0 <= k < prev.len() && prev[k] == i as usize;
                    assert(cur[k] == i as usize);
                } else {
                    assert(cur[prev.len() as int] == i as usize);
                }
            }
        } else {
            assert(indices_where(n, p) == prev);
            assert forall|i: int| 0 <= i < n && #[trigger] p(i) implies prev.contains(i as usize) by {
                assert(i != n - 1);
            }
        }
    }
}

/// Every call of a batch that is not a duplicate is planned exactly once:
/// it runs either concurrently or on its own, never both; a duplicate does
/// not run at all; and a guarded tool never runs concurrently.
pub proof fn lemma_partition_plans_each_call_once(
    dedup: Seq<Option<usize>>,
    guarded: Seq<bool>,
    parallel: Seq<bool>,
    i: int,
)
    requires
        dedup.len() <= usize::MAX,
        guarded.len() == dedup.len(),
        parallel.len() == dedup.len(),
        0 <= i < dedup.len(),
    ensures
        ({
            let conc = indices_where(dedup.len() as int, |k: int| runs_concurrently(dedup, guarded, parallel, k));
            let seqn = indices_where(dedup.len() as int, |k: int| runs_sequentially(dedup, guarded, parallel, k));
            &&& dedup[i] is None ==> (conc.contains(i as usize) != seqn.contains(i as usize))
            &&& dedup[i] is Some ==> !conc.contains(i as usize) && !seqn.contains(i as usize)
            &&& guarded[i] ==> !conc.contains(i as usize)
        }),
{
    let pc = |k: int| runs_concurrently(dedup, guarded, parallel, k);
    let ps = |k: int| runs_sequentially(dedup, guarded, parallel, k);
    let n = dedup.len() as int;
    lemma_indices_where(n, pc);
    lemma_indices_where(n, ps);
    let conc = indices_where(n, pc);
    let seqn = indices_where(n, ps);
    let iu = i as usize;
    assert(iu as int == i);
    assert(pc(i) == runs_concurrently(dedup, guarded, parallel, i));
    assert(ps(i) == runs_sequentially(dedup, guarded, parallel, i));
    if pc(i) {
        assert(conc.contains(iu));
    }
    if ps(i) {
        assert(seqn.contains(iu));
    }
    if conc.contains(iu) {
        let k = choose|k: int| 0 <= k < conc.len() && conc[k] == iu;
        assert(pc(conc[k] as int));
        assert(pc(i));
    }
    if seqn.contains(iu) {
        let k = choose|k: int| 0 <= k < seqn.len() && seqn[k] == iu;
        assert(ps(seqn[k] as int));
        assert(ps(i));
    }
}

/// Opens the output that a duplicate `read_file` call reports.
pub const DUPLICATE_READ_OPEN: &'static str = "[duplicate read_file in same batch — identical to call_id ";

/// The output reported for a duplicate `read_file` call, naming the call
/// whose result it reuses.
pub fn duplicate_read_notice(original_call_id: &str) -> (r: String)
    ensures
        r@ == DUPLICATE_READ_OPEN@ + original_call_id@ + "]"@,
{
    let mut s = string_from(DUPLICATE_READ_OPEN);
    push_str(&mut s, original_call_id);
    push_str(&mut s, "]");
    s
}

/// The path an edit or write call names: its `file_path` member when it has
/// one, else its `path` member.
pub open spec fn path_from_args(arguments: Seq<char>) -> Option<Seq<char>> {
    if json_has_member(arguments, "file_path"@) {
        json_string_member(arguments, "file_path"@)
    } else {
        json_string_member(arguments, "path"@)
    }
}

/// The path that a call's JSON arguments name.
pub fn extract_path_from_args(arguments: &str) -> (r: Option<String>)
    ensures
        opt_view(r) == path_from_args(arguments@),
{
    if has_member(arguments, "file_path") {
        string_member(arguments, "file_path")
    } else {
        string_member(arguments, "path")
    }
}

/// The file that a call of `tool_name` would write, for the check that
/// lets plan mode write its own plan file: the path named by a
/// `write_file` or `edit_file` call.
pub open spec fn plan_write_target(tool_name: Seq<char>, arguments: Seq<char>) -> Option<Seq<char>> {
    if tool_name == "write_file"@ || tool_name == "edit_file"@ {
        path_from_args(arguments)
    } else {
        None
    }
}

/// The file that a call of `tool_name` would write, when it is a file
/// write; whether that file is the plan file is decided by comparing the
/// two paths once the file system has made them canonical.
pub fn plan_write_target_of(tool_name: &str, arguments: &str) -> (r: Option<String>)
    ensures
        opt_view(r) == plan_write_target(tool_name@, arguments@),
{
    if str_eq(tool_name, "write_file") || str_eq(tool_name, "edit_file") {
        extract_path_from_args(arguments)
    } else {
        None
    }
}

// ───────────────────────── checks before a call runs ─────────────────────────

/// What serde_json makes of a call's arguments, as argument validation
/// reads it.
pub enum ArgumentsModel {
    /// Not JSON; the parser's error message.
    Invalid(Seq<char>),
    /// JSON but not an object; the value written back as JSON.
    NotObject(Seq<char>),
    /// A JSON object with these member names.
    Object(Set<Seq<char>>),
}

/// What serde_json makes of `text` when it is parsed as a JSON value: its
/// error message, the value written back when it is no object, or the
/// object's member names.
pub uninterp spec fn json_arguments_model(text: Seq<char>) -> ArgumentsModel;

/// The parse of a call's arguments.
pub enum ParsedArguments {
    Invalid(String),
    NotObject(String),
    Object(Vec<String>),
}

/// Parses `text` with `serde_json::from_str` into a `serde_json::Value`: the
/// error's message, the value written back with `Display` when it is not an
/// object, or the object's keys.  The contract names the result and claims
/// only that it depends on `text` alone.
#[verifier::external_body]
fn parse_arguments(text: &str) -> (r: ParsedArguments)
    ensures
        match (r, json_arguments_model(text@)) {
            (ParsedArguments::Invalid(e), ArgumentsModel::Invalid(m)) => e@ == m,
            (ParsedArguments::NotObject(v), ArgumentsModel::NotObject(m)) => v@ == m,
            (ParsedArguments::Object(keys), ArgumentsModel::Object(m)) => crate::accumulator::views(keys@).to_set() == m,
            _ => false,
        },
{
    match serde_json::from_str::<serde_json::Value>(text) {
        Err(e) => ParsedArguments::Invalid(e.to_string()),
        Ok(serde_json::Value::Object(map)) => ParsedArguments::Object(map.keys().cloned().collect()),
        Ok(other) => ParsedArguments::NotObject(other.to_string()),
    }
}

/// The required parameters missing from `present`, in order.
pub open spec fn missing_params(required: Seq<Seq<char>>, present: Set<Seq<char>>) -> Seq<Seq<char>>
    decreases required.len(),
{
    if required.len() == 0 {
        Seq::empty()
    } else {
        let rest = missing_params(required.drop_last(), present);
        if present.contains(required.last()) {
            rest
        } else {
            rest.push(required.last())
        }
    }
}

/// The complaint about a call's arguments, given the parameters its tool
/// requires: none when it requires none; otherwise the arguments must be a
/// JSON object holding each required parameter.
pub open spec fn argument_complaint(tool: Seq<char>, required: Seq<Seq<char>>, arguments: Seq<char>) -> Option<Seq<char>> {
    if required.len() == 0 {
        None
    } else {
        match json_arguments_model(arguments) {
            ArgumentsModel::Invalid(e) => Some(
                "Invalid JSON arguments for tool '"@ + tool + "': "@ + e + ". Please provide valid JSON."@,
            ),
            ArgumentsModel::NotObject(v) => Some(
                "Arguments for tool '"@ + tool + "' must be a JSON object, got: "@ + v,
            ),
            ArgumentsModel::Object(present) => {
                let missing = missing_params(required, present);
                if missing.len() == 0 {
                    None
                } else {
                    Some(
                        "Missing required parameter(s) for tool '"@ + tool + "': "@ + crate::text::join(
                            missing,
                            ", "@,
                        ),
                    )
                }
            },
        }
    }
}

/// Checks a call's arguments against the parameters its tool requires.
pub fn validate_tool_arguments(tool_name: &str, required: &[String], arguments: &str) -> (r: Option<String>)
    ensures
        opt_view(r) == argument_complaint(tool_name@, crate::accumulator::views(required@), arguments@),
{
    let ghost req = crate::accumulator::views(required@);
    if required.len() == 0 {
        return None;
    }
    match parse_arguments(arguments) {
        ParsedArguments::Invalid(e) => {
            let mut m = string_from("Invalid JSON arguments for tool '");
            push_str(&mut m, tool_name);
            push_str(&mut m, "': ");
            push_str(&mut m, e.as_str());
            push_str(&mut m, ". Please provide valid JSON.");
            Some(m)
        },
        ParsedArguments::NotObject(v) => {
            let mut m = string_from("Arguments for tool '");
            push_str(&mut m, tool_name);
            push_str(&mut m, "' must be a JSON object, got: ");
            push_str(&mut m, v.as_str());
            Some(m)
        },
        ParsedArguments::Object(keys) => {
            let ghost present = crate::accumulator::views(keys@).to_set();
            let mut list = String::new();
            let mut count: usize = 0;
            let mut i: usize = 0;
            proof {
                assert(req.take(0) =~= Seq::<Seq<char>>::empty());
            }
            while i < required.len()
                invariant
                    i <= required.len(),
                    req == crate::accumulator::views(required@),
                    present == crate::accumulator::views(keys@).to_set(),
                    count <= i,
                    count == missing_params(req.take(i as int), present).len(),
                    list@ == crate::text::join(missing_params(req.take(i as int), present), ", "@),
                decreases required.len() - i,
            {
                let ghost before = missing_params(req.take(i as int), present);
                proof {
                    assert(req.take(i + 1).drop_last() =~= req.take(i as int));
                    assert(req.take(i + 1).last() == required@[i as int]@);
                }
                let mut found = false;
                let mut k: usize = 0;
                while k < keys.len()
                    invariant
                        k <= keys.len(),
                        i < required.len(),
                        found == exists|q: int| 0 <= q < k && #[trigger] keys@[q]@ == required@[i as int]@,
                    decreases keys.len() - k,
                {
                    if str_eq(keys[k].as_str(), required[i].as_str()) {
                        found = true;
                    }
                    k = k + 1;
                }
                proof {
                    let name = required@[i as int]@;
                    if found {
                        let q = choose|q: int| 0 <= q < keys.len() && #[trigger] keys@[q]@ == name;
                        assert(crate::accumulator::views(keys@)[q] == name);
                        assert(present.contains(name));
                    } else {
                        if present.contains(name) {
                            let q = choose|q: int| 0 <= q < keys@.len() && #[trigger] crate::accumulator::views(keys@)[q] == name;
                            assert(keys@[q]@ == name);
                        }
                    }
                }
                if !found {
                    if count > 0 {
                        push_str(&mut list, ", ");
                    }
                    push_str(&mut list, required[i].as_str());
                    count = count + 1;
                    proof {
                        let after = before.push(required@[i as int]@);
                        if before.len() == 0 {
                            assert(crate::text::join(after, ", "@) == after[0]);
                        } else {
                            assert(after.drop_last() =~= before);
                        }
                    }
                }
                i = i + 1;
            }
            proof {
                assert(req.take(required.len() as int) =~= req);
            }
            if count == 0 {
                None
            } else {
                let mut m = string_from("Missing required parameter(s) for tool '");
                push_str(&mut m, tool_name);
                push_str(&mut m, "': ");
                push_str(&mut m, list.as_str());
                Some(m)
            }
        },
    }
}

/// What the session's execution mode says of a call, as found out before
/// the checks run.
#[derive(Debug, Clone)]
pub struct ModeFacts {
    /// The mode blocks calls of this tool's kind.
    pub blocks_tool: bool,
    /// The mode's message for a blocked call.
    pub blocked_message: String,
    /// Whether the call writes the plan file; none when no plan file is known.
    pub writes_plan_file: Option<bool>,
    /// The session is in plan mode.
    pub plan_mode: bool,
    /// For a `shell_exec` call: why its command is not read-only, if it is not.
    pub readonly_violation: Option<String>,
}

/// Why a call is refused before it runs.
#[derive(Debug, Clone)]
pub struct PreCheckRejection {
    pub message: String,
    /// Refused by the execution mode, rather than by policy or arguments.
    pub execution_denied: bool,
}

/// Opens the refusal of a command that is not read-only in plan mode.
pub const READONLY_REFUSAL_OPEN: &'static str = "Plan mode (read-only) blocks this command: ";
/// Closes that refusal.
pub const READONLY_REFUSAL_CLOSE: &'static str = ". Only read-only commands (ls, cat, grep, git status, cargo check, etc.) are allowed. Use exit_plan_mode to switch back to Agent mode for writes.";

/// The refusal, if any, of a call before it runs: a tool outside the
/// allowed list; a tool that the execution mode blocks, unless the call
/// writes the plan file; a shell command that is not read-only in plan
/// mode; or arguments that do not hold what the tool requires.
pub open spec fn pre_check(
    tool: Seq<char>,
    arguments: Seq<char>,
    allowed: bool,
    mode: Option<ModeFacts>,
    required: Option<Seq<Seq<char>>>,
) -> Option<(Seq<char>, bool)> {
    if !allowed {
        Some(("Tool '"@ + tool + "' is not in the allowed tool list."@, false))
    } else if mode is Some && mode->0.blocks_tool && mode->0.writes_plan_file != Some(true) {
        Some((mode->0.blocked_message@, true))
    } else if mode is Some && tool == "shell_exec"@ && mode->0.plan_mode && mode->0.readonly_violation is Some {
        Some((READONLY_REFUSAL_OPEN@ + mode->0.readonly_violation->0@ + READONLY_REFUSAL_CLOSE@, true))
    } else {
        match required {
            Some(req) => match argument_complaint(tool, req, arguments) {
                Some(m) => Some((m, false)),
                None => None,
            },
            None => None,
        }
    }
}

/// The checks before a call runs.  `allowed` tells whether the tool is on
/// the allowed list, `mode` what the execution mode says of the call, and
/// `required` the parameters the tool requires when it is registered.
pub fn pre_execution_checks(
    tool_name: &str,
    arguments: &str,
    allowed: bool,
    mode: Option<&ModeFacts>,
    required: Option<&[String]>,
) -> (r: Option<PreCheckRejection>)
    ensures
        match r {
            Some(p) => pre_check(tool_name@, arguments@, allowed, match mode { Some(m) => Some(*m), None => None },
                match required { Some(q) => Some(crate::accumulator::views(q@)), None => None }) == Some((p.message@, p.execution_denied)),
            None => pre_check(tool_name@, arguments@, allowed, match mode { Some(m) => Some(*m), None => None },
                match required { Some(q) => Some(crate::accumulator::views(q@)), None => None }) is None,
        },
{
    if !allowed {
        let mut m = string_from("Tool '");
        push_str(&mut m, tool_name);
        push_str(&mut m, "' is not in the allowed tool list.");
        return Some(PreCheckRejection { message: m, execution_denied: false });
    }
    match mode {
        Some(ms) => {
            let plan_write = match ms.writes_plan_file {
                Some(w) => w,
                None => false,
            };
            if ms.blocks_tool && !plan_write {
                return Some(PreCheckRejection { message: ms.blocked_message.clone(), execution_denied: true });
            }
            if str_eq(tool_name, "shell_exec") && ms.plan_mode {
                match &ms.readonly_violation {
                    Some(reason) => {
                        let mut m = string_from(READONLY_REFUSAL_OPEN);
                        push_str(&mut m, reason.as_str());
                        push_str(&mut m, READONLY_REFUSAL_CLOSE);
                        return Some(PreCheckRejection { message: m, execution_denied: true });
                    },
                    None => {},
                }
            }
        },
        None => {},
    }
    match required {
        Some(req) => match validate_tool_arguments(tool_name, req, arguments) {
            Some(m) => Some(PreCheckRejection { message: m, execution_denied: false }),
            None => None,
        },
        None => None,
    }
}

} // verus!
