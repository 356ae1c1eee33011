//! The event stream of the messages protocol, read line by line: the
//! server-sent events of a streamed reply become chat-completion chunks.
//!
//! The reader keeps the partial line that a network chunk leaves, the name
//! of the current event, the reply's id and model, its stop reason, the tool
//! calls whose arguments are still arriving, and the token counts.  Reading
//! the network is left to the caller, which hands each chunk of text to
//! [`anthropic_sse_feed`].
use vstd::prelude::*;
use crate::accumulator::{is_valid_json, json_valid, FunctionCallDelta, StreamToolCallDelta};
use crate::json_args::{
    json_member_text, json_string_member, json_u64_member, member_text, opt_view, string_member, u64_member,
};
use crate::llm_plugin::{
    count_of, string_or, text_or, token_count, DeltaContent, StreamChoice, StreamDelta, Usage, CHUNK_OBJECT,
};
use crate::text::{chars_of, has_prefix, push_str, slice_chars, str_eq, string_from, string_of, trim, trim_chars};

verus! {

/// A tool call whose arguments are still arriving: its content-block index,
/// id, name and the arguments so far.
#[derive(Debug, Clone)]
pub struct ToolStream {
    pub index: u32,
    pub id: String,
    pub name: String,
    pub args: String,
}

/// What the reader knows of the reply so far (besides the partial line).
#[derive(Debug, Clone)]
pub struct SseCore {
    pub current_event: String,
    pub msg_id: String,
    pub model_name: String,
    pub stop_reason: Option<String>,
    pub tool_streams: Vec<ToolStream>,
    pub input_tokens: u32,
    pub output_tokens: u32,
}

/// The reader's state: the partial line and what it knows of the reply.
#[derive(Debug, Clone)]
pub struct SseState {
    pub line_buf: String,
    pub core: SseCore,
}

/// The view of a [`ToolStream`]: index, id, name, arguments.
pub type ToolStreamModel = (u32, Seq<char>, Seq<char>, Seq<char>);

/// The view of an [`SseCore`].
pub struct CoreModel {
    pub event: Seq<char>,
    pub msg_id: Seq<char>,
    pub model: Seq<char>,
    pub stop_reason: Option<Seq<char>>,
    pub tools: Seq<ToolStreamModel>,
    pub input: u32,
    pub output: u32,
}

/// The view of an [`SseState`].
pub struct SseModel {
    pub buf: Seq<char>,
    pub core: CoreModel,
}

/// The views of a list of tool streams.
pub open spec fn tool_views(v: Seq<ToolStream>) -> Seq<ToolStreamModel> {
    v.map_values(|t: ToolStream| (t.index, t.id@, t.name@, t.args@))
}

impl View for SseCore {
    type V = CoreModel;

    open spec fn view(&self) -> CoreModel {
        CoreModel {
            event: self.current_event@,
            msg_id: self.msg_id@,
            model: self.model_name@,
            stop_reason: opt_view(self.stop_reason),
            tools: tool_views(self.tool_streams@),
            input: self.input_tokens,
            output: self.output_tokens,
        }
    }
}

impl View for SseState {
    type V = SseModel;

    open spec fn view(&self) -> SseModel {
        SseModel { buf: self.line_buf@, core: self.core@ }
    }
}

/// What one emitted chunk carries.
pub enum SseOut {
    /// Text of the reply.
    Text(Seq<char>),
    /// A complete tool call: its block index, id, name and arguments.
    Tool(u32, Seq<char>, Seq<char>, Seq<char>),
    /// The end of the reply: finish reason and usage.
    Finish(Seq<char>, Option<Usage>),
}

/// One emitted chunk: the reply's id and model, the time, and what it
/// carries.
pub struct SseDelta {
    pub id: Seq<char>,
    pub model: Seq<char>,
    pub created: u64,
    pub out: SseOut,
}

/// Whether `tcs` holds exactly one tool call: of block `i`, with this id,
/// name and arguments, of type `function`.
pub open spec fn single_call_is(tcs: Option<Vec<StreamToolCallDelta>>, i: u32, id: Seq<char>, name: Seq<char>, args: Seq<char>) -> bool {
    match tcs {
        Some(v) => v.len() == 1 && v@[0].index == i && opt_view(v@[0].id) == Some(id)
            && opt_view(v@[0].call_type) == Some("function"@) && match v@[0].function {
            Some(f) => opt_view(f.name) == Some(name) && opt_view(f.arguments) == Some(args),
            None => false,
        },
        None => false,
    }
}

/// Whether the chunk `d` is the one described by `e`.
pub open spec fn sse_delta_is(d: StreamDelta, e: SseDelta) -> bool {
    &&& d.id@ == e.id
    &&& d.object@ == CHUNK_OBJECT@
    &&& d.created == e.created
    &&& d.model@ == e.model
    &&& d.choices.len() == 1
    &&& d.choices@[0].index == 0
    &&& !d.choices@[0].delta.assistant_role
    &&& d.choices@[0].delta.reasoning_content is None
    &&& match e.out {
        SseOut::Text(t) => {
            &&& opt_view(d.choices@[0].delta.content) == Some(t)
            &&& d.choices@[0].delta.tool_calls is None
            &&& d.choices@[0].finish_reason is None
            &&& d.usage is None
        },
        SseOut::Tool(i, id, name, args) => {
            &&& d.choices@[0].delta.content is None
            &&& d.choices@[0].finish_reason is None
            &&& d.usage is None
            &&& single_call_is(d.choices@[0].delta.tool_calls, i, id, name, args)
        },
        SseOut::Finish(f, u) => {
            &&& d.choices@[0].delta.content is None
            &&& d.choices@[0].delta.tool_calls is None
            &&& opt_view(d.choices@[0].finish_reason) == Some(f)
            &&& d.usage == u
        },
    }
}

/// Whether the chunks `ds` are those described by `es`, in order.
pub open spec fn sse_deltas_are(ds: Seq<StreamDelta>, es: Seq<SseDelta>) -> bool {
    ds.len() == es.len() && forall|i: int| 0 <= i < ds.len() ==> sse_delta_is(#[trigger] ds[i], es[i])
}

// ───────────────────────── tool streams ─────────────────────────

/// The position of the tool stream of block `idx`, if any.
pub open spec fn slot_of(tools: Seq<ToolStreamModel>, idx: u32) -> Option<int>
    decreases tools.len(),
{
    if tools.len() == 0 {
        None
    } else if tools[0].0 == idx {
        Some(0)
    } else {
        match slot_of(tools.drop_first(), idx) {
            Some(i) => Some(i + 1),
            None => None,
        }
    }
}

/// `slot_of` finds the first tool stream of the block, when there is one.
pub proof fn lemma_slot_of(tools: Seq<ToolStreamModel>, idx: u32)
    ensures
        match slot_of(tools, idx) {
            Some(i) => 0 <= i < tools.len() && tools[i].0 == idx && forall|j: int| 0 <= j < i ==> tools[j].0 != idx,
            None => forall|j: int| 0 <= j < tools.len() ==> tools[j].0 != idx,
        },
    decreases tools.len(),
{
    if tools.len() > 0 && tools[0].0 != idx {
        lemma_slot_of(tools.drop_first(), idx);
        assert forall|j: int| 1 <= j < tools.len() implies tools[j] == tools.drop_first()[j - 1] by {}
    }
}

/// The tool streams after a block starts a tool call (replacing a stream
/// of the same block).
pub open spec fn tools_start(tools: Seq<ToolStreamModel>, idx: u32, id: Seq<char>, name: Seq<char>) -> Seq<ToolStreamModel> {
    match slot_of(tools, idx) {
        Some(i) => tools.update(i, (idx, id, name, Seq::empty())),
        None => tools.push((idx, id, name, Seq::empty())),
    }
}

/// The tool streams after arguments arrive for block `idx`.
pub open spec fn tools_append(tools: Seq<ToolStreamModel>, idx: u32, part: Seq<char>) -> Seq<ToolStreamModel> {
    match slot_of(tools, idx) {
        Some(i) => tools.update(i, (idx, tools[i].1, tools[i].2, tools[i].3 + part)),
        None => tools,
    }
}

// ───────────────────────── one line ─────────────────────────

/// An emitted chunk of the reply known as `c`.
pub open spec fn out_of(c: CoreModel, now: u64, out: SseOut) -> SseDelta {
    SseDelta { id: c.msg_id, model: c.model, created: now, out }
}

/// The finish reason for a stop reason: `tool_use` means tool calls, a
/// missing or empty one means `stop`.
pub open spec fn sse_finish(stop: Option<Seq<char>>) -> Seq<char> {
    match stop {
        Some(s) => if s == "tool_use"@ {
            "tool_calls"@
        } else if s.len() > 0 {
            s
        } else {
            "stop"@
        },
        None => "stop"@,
    }
}

/// The usage reported at the end of the reply: none when no tokens were
/// counted.
pub open spec fn sse_usage(input: u32, output: u32) -> Option<Usage> {
    if input + output > 0 {
        Some(Usage { prompt_tokens: input, completion_tokens: output, total_tokens: (input + output) as u32 })
    } else {
        None
    }
}

/// The data of an event, under the current event's name.
pub open spec fn data_step(c: CoreModel, data: Seq<char>, now: u64) -> (CoreModel, Seq<SseDelta>) {
    let e = c.event;
    if e == "message_start"@ {
        match json_member_text(data, "message"@) {
            Some(m) => (
                CoreModel {
                    msg_id: text_or(json_string_member(m, "id"@), ""@),
                    model: text_or(json_string_member(m, "model"@), ""@),
                    input: match json_member_text(m, "usage"@) {
                        Some(u) => token_count(json_u64_member(u, "input_tokens"@)),
                        None => c.input,
                    },
                    ..c
                },
                Seq::empty(),
            ),
            None => (c, Seq::empty()),
        }
    } else if e == "message_delta"@ {
        let c1 = match json_member_text(data, "delta"@) {
            Some(d) => match json_string_member(d, "stop_reason"@) {
                Some(sr) => CoreModel { stop_reason: Some(sr), ..c },
                None => c,
            },
            None => c,
        };
        match json_member_text(data, "usage"@) {
            Some(u) => (CoreModel { output: token_count(json_u64_member(u, "output_tokens"@)), ..c1 }, Seq::empty()),
            None => (c1, Seq::empty()),
        }
    } else if e == "content_block_start"@ {
        match (json_u64_member(data, "index"@), json_member_text(data, "content_block"@)) {
            (Some(i), Some(b)) => {
                let typ = text_or(json_string_member(b, "type"@), ""@);
                if (typ == "tool_use"@ || typ == "server_tool_use"@) && json_string_member(b, "id"@) is Some
                    && json_string_member(b, "name"@) is Some {
                    (
                        CoreModel {
                            tools: tools_start(
                                c.tools,
                                i as u32,
                                json_string_member(b, "id"@)->0,
                                json_string_member(b, "name"@)->0,
                            ),
                            ..c
                        },
                        Seq::empty(),
                    )
                } else {
                    (c, Seq::empty())
                }
            },
            _ => (c, Seq::empty()),
        }
    } else if e == "content_block_delta"@ {
        match json_member_text(data, "delta"@) {
            Some(d) => {
                let idx = token_count(json_u64_member(data, "index"@));
                let dt = text_or(json_string_member(d, "type"@), ""@);
                if dt == "text_delta"@ {
                    let t = text_or(json_string_member(d, "text"@), ""@);
                    if t.len() > 0 {
                        (c, seq![out_of(c, now, SseOut::Text(t))])
                    } else {
                        (c, Seq::empty())
                    }
                } else if dt == "input_json_delta"@ {
                    (
                        CoreModel {
                            tools: tools_append(c.tools, idx, text_or(json_string_member(d, "partial_json"@), ""@)),
                            ..c
                        },
                        Seq::empty(),
                    )
                } else {
                    (c, Seq::empty())
                }
            },
            None => (c, Seq::empty()),
        }
    } else if e == "content_block_stop"@ {
        if !json_valid(data) {
            (c, Seq::empty())
        } else {
            let idx = token_count(json_u64_member(data, "index"@));
            match slot_of(c.tools, idx) {
                Some(k) => {
                    let t = c.tools[k];
                    let c1 = CoreModel { tools: c.tools.remove(k), ..c };
                    if t.2.len() > 0 {
                        (c1, seq![out_of(c, now, SseOut::Tool(idx, t.1, t.2, t.3))])
                    } else {
                        (c1, Seq::empty())
                    }
                },
                None => (c, Seq::empty()),
            }
        }
    } else if e == "message_stop"@ {
        (
            CoreModel { stop_reason: None, ..c },
            seq![out_of(c, now, SseOut::Finish(sse_finish(c.stop_reason), sse_usage(c.input, c.output)))],
        )
    } else {
        (c, Seq::empty())
    }
}

/// One trimmed line: `event: ` names the current event; `data: ` carries
/// the event's data, after which the event name is cleared; other lines
/// are ignored.
pub open spec fn line_step(c: CoreModel, line: Seq<char>, now: u64) -> (CoreModel, Seq<SseDelta>) {
    if has_prefix(line, "event: "@) {
        (CoreModel { event: line.skip(7), ..c }, Seq::empty())
    } else if !has_prefix(line, "data: "@) {
        (c, Seq::empty())
    } else {
        let (c1, ds) = data_step(c, line.skip(6), now);
        (CoreModel { event: Seq::empty(), ..c1 }, ds)
    }
}

/// Whether a line can be read without the token counts overflowing: the
/// end of a reply needs its two counts to sum to a `u32`.
pub open spec fn line_ok(c: CoreModel, line: Seq<char>) -> bool {
    (!has_prefix(line, "event: "@) && has_prefix(line, "data: "@) && c.event == "message_stop"@)
        ==> c.input + c.output <= u32::MAX
}

// ───────────────────────── chunks of text ─────────────────────────

/// The position of the first newline of `t`, if any.
pub open spec fn first_newline(t: Seq<char>) -> Option<int>
    decreases t.len(),
{
    if t.len() == 0 {
        None
    } else if t[0] == '\n' {
        Some(0)
    } else {
        match first_newline(t.drop_first()) {
            Some(i) => Some(i + 1),
            None => None,
        }
    }
}

/// Reading the buffered text `t`: each complete line (through its newline)
/// is trimmed and read; what follows the last newline is kept.  The final
/// state, the text kept, and the chunks.
pub open spec fn drain(c: CoreModel, t: Seq<char>, now: u64) -> (CoreModel, Seq<char>, Seq<SseDelta>)
    decreases t.len(),
{
    match first_newline(t) {
        Some(k) => if 0 <= k < t.len() {
            let (c1, d1) = line_step(c, trim(t.take(k + 1)), now);
            let (c2, rest, d2) = drain(c1, t.skip(k + 1), now);
            (c2, rest, d1 + d2)
        } else {
            (c, t, Seq::empty())
        },
        None => (c, t, Seq::empty()),
    }
}

/// Feeding a chunk of text to the reader: the new state and the chunks.
pub open spec fn feed_spec(s: SseModel, chunk: Seq<char>, now: u64) -> (SseModel, Seq<SseDelta>) {
    let (c, rest, ds) = drain(s.core, s.buf + chunk, now);
    (SseModel { buf: rest, core: c }, ds)
}

/// Whether every line that `t` completes can be read (see `line_ok`).
pub open spec fn drain_ok(c: CoreModel, t: Seq<char>, now: u64) -> bool
    decreases t.len(),
{
    match first_newline(t) {
        Some(k) => if 0 <= k < t.len() {
            let line = trim(t.take(k + 1));
            line_ok(c, line) && drain_ok(line_step(c, line, now).0, t.skip(k + 1), now)
        } else {
            true
        },
        None => true,
    }
}

/// `first_newline` finds the first newline, when there is one.
pub proof fn lemma_first_newline(t: Seq<char>)
    ensures
        match first_newline(t) {
            Some(k) => 0 <= k < t.len() && t[k] == '\n' && forall|j: int| 0 <= j < k ==> t[j] != '\n',
            None => forall|j: int| 0 <= j < t.len() ==> t[j] != '\n',
        },
    decreases t.len(),
{
    if t.len() > 0 && t[0] != '\n' {
        lemma_first_newline(t.drop_first());
        assert forall|j: int| 1 <= j < t.len() implies t[j] == t.drop_first()[j - 1] by {}
    }
}

proof fn lemma_first_newline_append(t: Seq<char>, b: Seq<char>)
    ensures
        first_newline(t) is Some ==> first_newline(t + b) == first_newline(t),
{
    lemma_first_newline(t);
    lemma_first_newline(t + b);
    if first_newline(t) is Some {
        let k = first_newline(t)->0;
        assert((t + b)[k] == '\n');
        assert forall|j: int| 0 <= j < k implies (t + b)[j] != '\n' by {
            assert((t + b)[j] == t[j]);
        }
        match first_newline(t + b) {
            Some(k2) => {
                if k2 < k {
                    assert((t + b)[k2] == t[k2]);
                }
            },
            None => {},
        }
    }
}

/// Reading `t` and then `b` after what `t` left gives what reading `t + b`
/// at once gives.
pub proof fn lemma_drain_append(c: CoreModel, t: Seq<char>, b: Seq<char>, now: u64)
    ensures
        ({
            let (c1, r1, d1) = drain(c, t, now);
            let (c2, r2, d2) = drain(c1, r1 + b, now);
            drain(c, t + b, now) == (c2, r2, d1 + d2)
        }),
    decreases t.len(),
{
    lemma_first_newline(t);
    lemma_first_newline_append(t, b);
    match first_newline(t) {
        Some(k) => {
            assert((t + b).take(k + 1) =~= t.take(k + 1));
            assert((t + b).skip(k + 1) =~= t.skip(k + 1) + b);
            let (c1, d1) = line_step(c, trim(t.take(k + 1)), now);
            lemma_drain_append(c1, t.skip(k + 1), b, now);
            let (c2, r2, d2) = drain(c1, t.skip(k + 1), now);
            let (c3, r3, d3) = drain(c2, r2 + b, now);
            assert(d1 + d2 + d3 =~= d1 + (d2 + d3));
        },
        None => {
            let (c2, r2, d2) = drain(c, t + b, now);
            assert(Seq::<SseDelta>::empty() + d2 =~= d2);
        },
    }
}

/// Splitting the stream's text into chunks anywhere changes nothing: feeding
/// `a` and then `b` leaves the reader as feeding `a + b` does, and emits
/// the same chunks.
pub proof fn lemma_feed_split(s: SseModel, a: Seq<char>, b: Seq<char>, now: u64)
    ensures
        feed_spec(feed_spec(s, a, now).0, b, now).0 == feed_spec(s, a + b, now).0,
        feed_spec(s, a, now).1 + feed_spec(feed_spec(s, a, now).0, b, now).1 == feed_spec(s, a + b, now).1,
{
    lemma_drain_append(s.core, s.buf + a, b, now);
    assert(s.buf + a + b =~= s.buf + (a + b));
}

/// Whether two runs of chunks are the same but for the times they carry.
pub open spec fn same_but_time(a: Seq<SseDelta>, b: Seq<SseDelta>) -> bool {
    &&& a.len() == b.len()
    &&& forall|i: int| 0 <= i < a.len() ==> (#[trigger] a[i]).id == b[i].id && a[i].model == b[i].model && a[i].out == b[i].out
}

proof fn lemma_same_but_time_concat(a1: Seq<SseDelta>, b1: Seq<SseDelta>, a2: Seq<SseDelta>, b2: Seq<SseDelta>)
    requires
        same_but_time(a1, b1),
        same_but_time(a2, b2),
    ensures
        same_but_time(a1 + a2, b1 + b2),
{
    assert forall|i: int| 0 <= i < (a1 + a2).len() implies (#[trigger] (a1 + a2)[i]).id == (b1 + b2)[i].id
        && (a1 + a2)[i].model == (b1 + b2)[i].model && (a1 + a2)[i].out == (b1 + b2)[i].out by {
        if i < a1.len() {
            assert((a1 + a2)[i] == a1[i] && (b1 + b2)[i] == b1[i]);
        } else {
            assert((a1 + a2)[i] == a2[i - a1.len()] && (b1 + b2)[i] == b2[i - a1.len()]);
        }
    }
}

/// The time a line is read at changes only the times of its chunks.
pub proof fn lemma_line_clock(c: CoreModel, line: Seq<char>, n1: u64, n2: u64)
    ensures
        line_step(c, line, n1).0 == line_step(c, line, n2).0,
        same_but_time(line_step(c, line, n1).1, line_step(c, line, n2).1),
{
}

/// The time text is read at changes only the times of its chunks.
pub proof fn lemma_drain_clock(c: CoreModel, t: Seq<char>, n1: u64, n2: u64)
    ensures
        drain(c, t, n1).0 == drain(c, t, n2).0,
        drain(c, t, n1).1 == drain(c, t, n2).1,
        same_but_time(drain(c, t, n1).2, drain(c, t, n2).2),
    decreases t.len(),
{
    lemma_first_newline(t);
    match first_newline(t) {
        Some(k) => {
            let line = trim(t.take(k + 1));
            lemma_line_clock(c, line, n1, n2);
            let c1 = line_step(c, line, n1).0;
            lemma_drain_clock(c1, t.skip(k + 1), n1, n2);
            lemma_same_but_time_concat(
                line_step(c, line, n1).1,
                line_step(c, line, n2).1,
                drain(c1, t.skip(k + 1), n1).2,
                drain(c1, t.skip(k + 1), n2).2,
            );
        },
        None => {},
    }
}

/// However the stream's text is split into two chunks, and whatever the
/// clock reads at each, the reader ends in the same state and emits the same
/// chunks but for their times.
pub proof fn lemma_feed_split_any_clock(s: SseModel, a: Seq<char>, b: Seq<char>, n1: u64, n2: u64, n3: u64)
    ensures
        feed_spec(feed_spec(s, a, n1).0, b, n2).0 == feed_spec(s, a + b, n3).0,
        same_but_time(feed_spec(s, a, n1).1 + feed_spec(feed_spec(s, a, n1).0, b, n2).1, feed_spec(s, a + b, n3).1),
{
    lemma_feed_split(s, a, b, n1);
    let s1 = feed_spec(s, a, n1).0;
    lemma_drain_clock(s1.core, s1.buf + b, n2, n1);
    lemma_drain_clock(s.core, s.buf + (a + b), n1, n3);
    let d1 = feed_spec(s, a, n1).1;
    let d2 = feed_spec(s1, b, n2).1;
    let d2b = feed_spec(s1, b, n1).1;
    let whole1 = feed_spec(s, a + b, n1).1;
    let whole3 = feed_spec(s, a + b, n3).1;
    assert(same_but_time(d1, d1));
    lemma_same_but_time_concat(d1, d1, d2, d2b);
    assert(d1 + d2b == whole1);
    assert forall|i: int| 0 <= i < (d1 + d2).len() implies (#[trigger] (d1 + d2)[i]).id == whole3[i].id
        && (d1 + d2)[i].model == whole3[i].model && (d1 + d2)[i].out == whole3[i].out by {
        assert((d1 + d2b)[i] == whole1[i]);
    }
}

// ───────────────────────── reading ─────────────────────────

fn find_slot(tools: &Vec<ToolStream>, idx: u32) -> (r: Option<usize>)
    ensures
        match r {
            Some(i) => slot_of(tool_views(tools@), idx) == Some(i as int) && i < tools@.len() && tools@[i as int].index == idx,
            None => slot_of(tool_views(tools@), idx) is None,
        },
{
    let ghost tv = tool_views(tools@);
    proof {
        lemma_slot_of(tv, idx);
    }
    let mut i: usize = 0;
    while i < tools.len()
        invariant
            i <= tools.len(),
            tv == tool_views(tools@),
            forall|j: int| 0 <= j < i ==> tv[j].0 != idx,
        decreases tools.len() - i,
    {
        if tools[i].index == idx {
            proof {
                lemma_slot_of(tv, idx);
                assert(tv[i as int].0 == idx);
                match slot_of(tv, idx) {
                    Some(k) => {
                        if k > i {
                            assert(tv[i as int].0 != idx);
                        }
                    },
                    None => {
                        assert(tv[i as int].0 != idx);
                    },
                }
            }
            return Some(i);
        }
        i = i + 1;
    }
    proof {
        lemma_slot_of(tv, idx);
        if slot_of(tv, idx) is Some {
            let k = slot_of(tv, idx)->0;
            assert(tv[k].0 != idx);
        }
    }
    None
}

fn chunk_with(c: &SseCore, now: u64, content: Option<String>, tool_calls: Option<Vec<StreamToolCallDelta>>, finish_reason: Option<String>, usage: Option<Usage>) -> (d: StreamDelta)
    ensures
        d.id@ == c@.msg_id,
        d.object@ == CHUNK_OBJECT@,
        d.created == now,
        d.model@ == c@.model,
        d.choices.len() == 1,
        d.choices@[0].index == 0,
        !d.choices@[0].delta.assistant_role,
        d.choices@[0].delta.reasoning_content is None,
        d.choices@[0].delta.content == content,
        d.choices@[0].delta.tool_calls == tool_calls,
        d.choices@[0].finish_reason == finish_reason,
        d.usage == usage,
{
    let mut choices: Vec<StreamChoice> = Vec::new();
    choices.push(StreamChoice {
        index: 0,
        delta: DeltaContent { assistant_role: false, content, reasoning_content: None, tool_calls },
        finish_reason,
    });
    StreamDelta {
        id: c.msg_id.clone(),
        object: string_from(CHUNK_OBJECT),
        created: now,
        model: c.model_name.clone(),
        choices,
        usage,
    }
}

fn skip_chars(s: &str, n: usize) -> (r: String)
    requires
        n <= s@.len(),
    ensures
        r@ == s@.skip(n as int),
{
    let cs = chars_of(s);
    let t = slice_chars(cs.as_slice(), n, cs.len());
    proof {
        assert(cs@.subrange(n as int, cs@.len() as int) =~= s@.skip(n as int));
    }
    string_of(t.as_slice())
}

/// The members of a `message` object (`message_start`): its id and model,
/// and `usage.input_tokens` when it has a `usage` object.
#[derive(Debug, Clone)]
pub struct MessageFields {
    pub id: Option<String>,
    pub model: Option<String>,
    /// `None` without a `usage` object; otherwise its `input_tokens`.
    pub input_tokens: Option<Option<u64>>,
}

/// The members of a `delta` object.
#[derive(Debug, Clone)]
pub struct DeltaFields {
    pub kind: Option<String>,
    pub text: Option<String>,
    pub partial_json: Option<String>,
    pub stop_reason: Option<String>,
}

/// The members of a `content_block` object.
#[derive(Debug, Clone)]
pub struct BlockFields {
    pub kind: Option<String>,
    pub id: Option<String>,
    pub name: Option<String>,
}

/// What the data of an event holds, as far as the reader looks.
#[derive(Debug, Clone)]
pub struct SseFields {
    /// Whether the data is JSON at all.
    pub valid: bool,
    pub index: Option<u64>,
    pub message: Option<MessageFields>,
    pub delta: Option<DeltaFields>,
    /// `None` without a `usage` object; otherwise its `output_tokens`.
    pub output_tokens: Option<Option<u64>>,
    pub block: Option<BlockFields>,
}

/// The counts of a `usage` object (JSON text `u`), if there is one.
pub open spec fn usage_count(u: Option<Seq<char>>, key: Seq<char>) -> Option<Option<u64>> {
    match u {
        Some(t) => Some(json_u64_member(t, key)),
        None => None,
    }
}

/// Whether `f` holds what the data `data` holds.
pub open spec fn fields_of(f: SseFields, data: Seq<char>) -> bool {
    &&& f.valid == json_valid(data)
    &&& f.index == json_u64_member(data, "index"@)
    &&& match json_member_text(data, "message"@) {
        Some(m) => f.message matches Some(mf) && opt_view(mf.id) == json_string_member(m, "id"@)
            && opt_view(mf.model) == json_string_member(m, "model"@)
            && mf.input_tokens == usage_count(json_member_text(m, "usage"@), "input_tokens"@),
        None => f.message is None,
    }
    &&& match json_member_text(data, "delta"@) {
        Some(d) => f.delta matches Some(df) && opt_view(df.kind) == json_string_member(d, "type"@)
            && opt_view(df.text) == json_string_member(d, "text"@)
            && opt_view(df.partial_json) == json_string_member(d, "partial_json"@)
            && opt_view(df.stop_reason) == json_string_member(d, "stop_reason"@),
        None => f.delta is None,
    }
    &&& f.output_tokens == usage_count(json_member_text(data, "usage"@), "output_tokens"@)
    &&& match json_member_text(data, "content_block"@) {
        Some(b) => f.block matches Some(bf) && opt_view(bf.kind) == json_string_member(b, "type"@)
            && opt_view(bf.id) == json_string_member(b, "id"@)
            && opt_view(bf.name) == json_string_member(b, "name"@),
        None => f.block is None,
    }
}

/// The data of an event, read as `f`, under the current event's name (see
/// `data_step`).
pub open spec fn data_apply(c: CoreModel, f: SseFields, now: u64) -> (CoreModel, Seq<SseDelta>) {
    let e = c.event;
    if e == "message_start"@ {
        match f.message {
            Some(m) => (
                CoreModel {
                    msg_id: text_or(opt_view(m.id), ""@),
                    model: text_or(opt_view(m.model), ""@),
                    input: match m.input_tokens {
                        Some(t) => token_count(t),
                        None => c.input,
                    },
                    ..c
                },
                Seq::empty(),
            ),
            None => (c, Seq::empty()),
        }
    } else if e == "message_delta"@ {
        let c1 = match f.delta {
            Some(d) => match d.stop_reason {
                Some(sr) => CoreModel { stop_reason: Some(sr@), ..c },
                None => c,
            },
            None => c,
        };
        match f.output_tokens {
            Some(t) => (CoreModel { output: token_count(t), ..c1 }, Seq::empty()),
            None => (c1, Seq::empty()),
        }
    } else if e == "content_block_start"@ {
        match (f.index, f.block) {
            (Some(i), Some(b)) => {
                let typ = text_or(opt_view(b.kind), ""@);
                if (typ == "tool_use"@ || typ == "server_tool_use"@) && b.id is Some && b.name is Some {
                    (CoreModel { tools: tools_start(c.tools, i as u32, b.id->0@, b.name->0@), ..c }, Seq::empty())
                } else {
                    (c, Seq::empty())
                }
            },
            _ => (c, Seq::empty()),
        }
    } else if e == "content_block_delta"@ {
        match f.delta {
            Some(d) => {
                let idx = token_count(f.index);
                let dt = text_or(opt_view(d.kind), ""@);
                if dt == "text_delta"@ {
                    let t = text_or(opt_view(d.text), ""@);
                    if t.len() > 0 {
                        (c, seq![out_of(c, now, SseOut::Text(t))])
                    } else {
                        (c, Seq::empty())
                    }
                } else if dt == "input_json_delta"@ {
                    (CoreModel { tools: tools_append(c.tools, idx, text_or(opt_view(d.partial_json), ""@)), ..c }, Seq::empty())
                } else {
                    (c, Seq::empty())
                }
            },
            None => (c, Seq::empty()),
        }
    } else if e == "content_block_stop"@ {
        if !f.valid {
            (c, Seq::empty())
        } else {
            let idx = token_count(f.index);
            match slot_of(c.tools, idx) {
                Some(k) => {
                    let t = c.tools[k];
                    let c1 = CoreModel { tools: c.tools.remove(k), ..c };
                    if t.2.len() > 0 {
                        (c1, seq![out_of(c, now, SseOut::Tool(idx, t.1, t.2, t.3))])
                    } else {
                        (c1, Seq::empty())
                    }
                },
                None => (c, Seq::empty()),
            }
        }
    } else if e == "message_stop"@ {
        (
            CoreModel { stop_reason: None, ..c },
            seq![out_of(c, now, SseOut::Finish(sse_finish(c.stop_reason), sse_usage(c.input, c.output)))],
        )
    } else {
        (c, Seq::empty())
    }
}

/// Applying what the data holds is reading the data.
pub proof fn lemma_data_apply(c: CoreModel, f: SseFields, data: Seq<char>, now: u64)
    requires
        fields_of(f, data),
    ensures
        data_apply(c, f, now) == data_step(c, data, now),
{
}

/// Reads the members of an event's data that the reader looks at.
pub fn read_sse_fields(data: &str) -> (f: SseFields)
    ensures
        fields_of(f, data@),
{
    let message = match member_text(data, "message") {
        Some(m) => Some(MessageFields {
            id: string_member(m.as_str(), "id"),
            model: string_member(m.as_str(), "model"),
            input_tokens: match member_text(m.as_str(), "usage") {
                Some(u) => Some(u64_member(u.as_str(), "input_tokens")),
                None => None,
            },
        }),
        None => None,
    };
    let delta = match member_text(data, "delta") {
        Some(d) => Some(DeltaFields {
            kind: string_member(d.as_str(), "type"),
            text: string_member(d.as_str(), "text"),
            partial_json: string_member(d.as_str(), "partial_json"),
            stop_reason: string_member(d.as_str(), "stop_reason"),
        }),
        None => None,
    };
    let block = match member_text(data, "content_block") {
        Some(b) => Some(BlockFields {
            kind: string_member(b.as_str(), "type"),
            id: string_member(b.as_str(), "id"),
            name: string_member(b.as_str(), "name"),
        }),
        None => None,
    };
    SseFields {
        valid: is_valid_json(data),
        index: u64_member(data, "index"),
        message,
        delta,
        output_tokens: match member_text(data, "usage") {
            Some(u) => Some(u64_member(u.as_str(), "output_tokens")),
            None => None,
        },
        block,
    }
}

fn opt_copy(o: &Option<String>) -> (r: Option<String>)
    ensures
        opt_view(r) == opt_view(*o),
{
    match o {
        Some(t) => Some(t.clone()),
        None => None,
    }
}

/// Applies the data of an event, read as `f`, under the current event's
/// name (see `data_apply`); the chunks it emits.
pub fn anthropic_sse_data(c: &mut SseCore, f: &SseFields, now: u64) -> (r: Vec<StreamDelta>)
    requires
        old(c)@.event == "message_stop"@ ==> old(c)@.input + old(c)@.output <= u32::MAX,
    ensures
        final(c)@ == data_apply(old(c)@, *f, now).0,
        sse_deltas_are(r@, data_apply(old(c)@, *f, now).1),
{
    let ghost c0 = c@;
    let mut out: Vec<StreamDelta> = Vec::new();
    if str_eq(c.current_event.as_str(), "message_start") {
        match &f.message {
            Some(m) => {
                c.msg_id = string_or(&m.id, "");
                c.model_name = string_or(&m.model, "");
                match m.input_tokens {
                    Some(t) => {
                        c.input_tokens = count_of(t);
                    },
                    None => {},
                }
            },
            None => {},
        }
    } else if str_eq(c.current_event.as_str(), "message_delta") {
        match &f.delta {
            Some(d) => match &d.stop_reason {
                Some(sr) => {
                    c.stop_reason = Some(sr.clone());
                },
                None => {},
            },
            None => {},
        }
        match f.output_tokens {
            Some(t) => {
                c.output_tokens = count_of(t);
            },
            None => {},
        }
    } else if str_eq(c.current_event.as_str(), "content_block_start") {
        match (f.index, &f.block) {
            (Some(i), Some(b)) => {
                let typ = string_or(&b.kind, "");
                let id = opt_copy(&b.id);
                let name = opt_copy(&b.name);
                if (str_eq(typ.as_str(), "tool_use") || str_eq(typ.as_str(), "server_tool_use")) && id.is_some()
                    && name.is_some() {
                    #[verifier::truncate]
                    let idx = i as u32;
                    let ts = ToolStream { index: idx, id: id.unwrap(), name: name.unwrap(), args: String::new() };
                    let ghost before = tool_views(c.tool_streams@);
                    let ghost tsv = (ts.index, ts.id@, ts.name@, ts.args@);
                    assert(ts.args@ == Seq::<char>::empty());
                    match find_slot(&c.tool_streams, idx) {
                        Some(k) => {
                            c.tool_streams.set(k, ts);
                            assert(tool_views(c.tool_streams@) =~= before.update(k as int, tsv));
                        },
                        None => {
                            c.tool_streams.push(ts);
                            assert(tool_views(c.tool_streams@) =~= before.push(tsv));
                        },
                    }
                }
            },
            _ => {},
        }
    } else if str_eq(c.current_event.as_str(), "content_block_delta") {
        match &f.delta {
            Some(d) => {
                let idx = count_of(f.index);
                let dt = string_or(&d.kind, "");
                if str_eq(dt.as_str(), "text_delta") {
                    let t = string_or(&d.text, "");
                    if t.unicode_len() > 0 {
                        let ch = chunk_with(c, now, Some(t), None, None, None);
                        out.push(ch);
                    }
                } else if str_eq(dt.as_str(), "input_json_delta") {
                    let part = string_or(&d.partial_json, "");
                    match find_slot(&c.tool_streams, idx) {
                        Some(k) => {
                            let ghost before = tool_views(c.tool_streams@);
                            let old_ts = &c.tool_streams[k];
                            let mut args = old_ts.args.clone();
                            push_str(&mut args, part.as_str());
                            let ts = ToolStream { index: old_ts.index, id: old_ts.id.clone(), name: old_ts.name.clone(), args };
                            let ghost tsv = (ts.index, ts.id@, ts.name@, ts.args@);
                            assert(tsv == (idx, before[k as int].1, before[k as int].2, before[k as int].3 + part@));
                            c.tool_streams.set(k, ts);
                            assert(tool_views(c.tool_streams@) =~= before.update(k as int, tsv));
                        },
                        None => {},
                    }
                }
            },
            None => {},
        }
    } else if str_eq(c.current_event.as_str(), "content_block_stop") {
        if f.valid {
            let idx = count_of(f.index);
            match find_slot(&c.tool_streams, idx) {
                Some(k) => {
                    let ghost before = tool_views(c.tool_streams@);
                    let t = c.tool_streams.remove(k);
                    assert(tool_views(c.tool_streams@) =~= before.remove(k as int));
                    assert((t.index, t.id@, t.name@, t.args@) == before[k as int]);
                    if t.name.unicode_len() > 0 {
                        let mut calls: Vec<StreamToolCallDelta> = Vec::new();
                        calls.push(StreamToolCallDelta {
                            index: idx,
                            id: Some(t.id),
                            call_type: Some(string_from("function")),
                            function: Some(FunctionCallDelta { name: Some(t.name), arguments: Some(t.args) }),
                        });
                        let ch = chunk_with(c, now, None, Some(calls), None, None);
                        out.push(ch);
                    }
                },
                None => {},
            }
        }
    } else if str_eq(c.current_event.as_str(), "message_stop") {
        let finish = match &c.stop_reason {
            Some(sr) => if str_eq(sr.as_str(), "tool_use") {
                string_from("tool_calls")
            } else if sr.unicode_len() > 0 {
                sr.clone()
            } else {
                string_from("stop")
            },
            None => string_from("stop"),
        };
        let total = c.input_tokens + c.output_tokens;
        let usage = if total > 0 {
            Some(Usage { prompt_tokens: c.input_tokens, completion_tokens: c.output_tokens, total_tokens: total })
        } else {
            None
        };
        let ch = chunk_with(c, now, None, None, Some(finish), usage);
        out.push(ch);
        c.stop_reason = None;
    }
    proof {
        let (c1, es) = data_apply(c0, *f, now);
        assert(c@ == c1);
        assert(sse_deltas_are(out@, es));
    }
    out
}

fn data_step_exec(c: &mut SseCore, data: &str, now: u64) -> (r: Vec<StreamDelta>)
    requires
        old(c)@.event == "message_stop"@ ==> old(c)@.input + old(c)@.output <= u32::MAX,
    ensures
        final(c)@ == data_step(old(c)@, data@, now).0,
        sse_deltas_are(r@, data_step(old(c)@, data@, now).1),
{
    let f = read_sse_fields(data);
    proof {
        lemma_data_apply(c@, f, data@, now);
    }
    anthropic_sse_data(c, &f, now)
}

/// Reads one trimmed line of the event stream (see `line_step`).
pub fn anthropic_sse_line(c: &mut SseCore, line: &str, now: u64) -> (r: Vec<StreamDelta>)
    requires
        line_ok(old(c)@, line@),
    ensures
        final(c)@ == line_step(old(c)@, line@, now).0,
        sse_deltas_are(r@, line_step(old(c)@, line@, now).1),
{
    if crate::text::str_starts_with(line, "event: ") {
        proof {
            reveal_strlit("event: ");
        }
        c.current_event = skip_chars(line, 7);
        return Vec::new();
    }
    if !crate::text::str_starts_with(line, "data: ") {
        return Vec::new();
    }
    proof {
        reveal_strlit("data: ");
    }
    let data = skip_chars(line, 6);
    let r = data_step_exec(c, data.as_str(), now);
    c.current_event = String::new();
    r
}

fn find_newline(cs: &[char]) -> (r: Option<usize>)
    ensures
        match r {
            Some(k) => first_newline(cs@) == Some(k as int) && k < cs@.len(),
            None => first_newline(cs@) is None,
        },
{
    proof {
        lemma_first_newline(cs@);
    }
    let mut i: usize = 0;
    while i < cs.len()
        invariant
            i <= cs.len(),
            forall|j: int| 0 <= j < i ==> cs@[j] != '\n',
        decreases cs.len() - i,
    {
        if cs[i] == '\n' {
            proof {
                lemma_first_newline(cs@);
                match first_newline(cs@) {
                    Some(k) => {
                        if k > i {
                            assert(cs@[i as int] != '\n');
                        }
                    },
                    None => {
                        assert(cs@[i as int] != '\n');
                    },
                }
            }
            return Some(i);
        }
        i = i + 1;
    }
    proof {
        lemma_first_newline(cs@);
        if first_newline(cs@) is Some {
            let k = first_newline(cs@)->0;
            assert(cs@[k] == '\n');
        }
    }
    None
}

/// Feeds a chunk of the event stream's text to the reader: every line the
/// chunk completes is read (see `feed_spec`); the chunks, in order.
pub fn anthropic_sse_feed(st: &mut SseState, chunk: &str, now: u64) -> (r: Vec<StreamDelta>)
    requires
        drain_ok(old(st)@.core, old(st)@.buf + chunk@, now),
    ensures
        final(st)@ == feed_spec(old(st)@, chunk@, now).0,
        sse_deltas_are(r@, feed_spec(old(st)@, chunk@, now).1),
{
    let ghost t0 = st.line_buf@ + chunk@;
    let ghost c0 = st.core@;
    push_str(&mut st.line_buf, chunk);
    let mut out: Vec<StreamDelta> = Vec::new();
    let ghost mut es: Seq<SseDelta> = Seq::empty();
    proof {
        assert(es + drain(c0, t0, now).2 =~= drain(c0, t0, now).2);
    }
    loop
        invariant
            drain(c0, t0, now) == ({
                let d = drain(st.core@, st.line_buf@, now);
                (d.0, d.1, es + d.2)
            }),
            sse_deltas_are(out@, es),
            drain_ok(st.core@, st.line_buf@, now),
        ensures
            drain(c0, t0, now) == ({
                let d = drain(st.core@, st.line_buf@, now);
                (d.0, d.1, es + d.2)
            }),
            sse_deltas_are(out@, es),
            first_newline(st.line_buf@) is None,
        decreases st.line_buf@.len(),
    {
        let cs = chars_of(st.line_buf.as_str());
        match find_newline(cs.as_slice()) {
            None => {
                break;
            },
            Some(k) => {
                let ghost t = st.line_buf@;
                let ghost c = st.core@;
                assert(cs@.len() == cs.len());
                let head = slice_chars(cs.as_slice(), 0, k + 1);
                let line = string_of(trim_chars(head.as_slice()).as_slice());
                let rest = string_of(slice_chars(cs.as_slice(), k + 1, cs.len()).as_slice());
                proof {
                    assert(head@ =~= t.take(k + 1));
                    assert(rest@ =~= t.skip(k + 1));
                }
                let ghost step = line_step(c, line@, now);
                let ghost tail = drain(step.0, t.skip(k + 1), now);
                proof {
                    assert(drain(c, t, now) == (tail.0, tail.1, step.1 + tail.2));
                }
                st.line_buf = rest;
                let mut ds = anthropic_sse_line(&mut st.core, line.as_str(), now);
                let ghost before = out@;
                let ghost dsv = ds@;
                out.append(&mut ds);
                proof {
                    assert(out@ =~= before + dsv);
                    assert forall|i: int| 0 <= i < out@.len() implies sse_delta_is(#[trigger] out@[i], (es + step.1)[i]) by {
                        if i < before.len() {
                            assert(out@[i] == before[i]);
                        } else {
                            assert(out@[i] == dsv[i - before.len()]);
                        }
                    }
                    assert(es + step.1 + tail.2 =~= es + (step.1 + tail.2));
                    es = es + step.1;
                }
            },
        }
    }
    proof {
        assert(es + Seq::<SseDelta>::empty() =~= es);
    }
    out
}

impl SseState {
    /// A reader at the start of a stream.
    pub fn new() -> (r: Self)
        ensures
            r@ == (SseModel {
                buf: Seq::empty(),
                core: CoreModel {
                    event: Seq::empty(),
                    msg_id: Seq::empty(),
                    model: Seq::empty(),
                    stop_reason: None,
                    tools: Seq::empty(),
                    input: 0,
                    output: 0,
                },
            }),
    {
        let r = SseState {
            line_buf: String::new(),
            core: SseCore {
                current_event: String::new(),
                msg_id: String::new(),
                model_name: String::new(),
                stop_reason: None,
                tool_streams: Vec::new(),
                input_tokens: 0,
                output_tokens: 0,
            },
        };
        assert(tool_views(r.core.tool_streams@) =~= Seq::empty());
        r
    }
}

} // verus!
