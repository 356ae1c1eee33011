//! Interception of streamed tool-call arguments that write the plan file.
//!
//! While the model streams a `write_file` / `create_file` / `edit_file`
//! call, the JSON arguments are parsed incrementally; once the `file_path`
//! key names the plan file, the unescaped characters of the `content`
//! string are handed out as deltas.  Content that streams before the path
//! is buffered (up to a small cap) and released or dropped once the path is
//! known.
//!
//! The incremental parser is modelled by a transition function `step` on
//! `ParserModel`; feeding a chunk is the left fold of `step` over its
//! characters (`run`), which is what makes the result independent of how
//! the argument text is split into chunks.
use vstd::prelude::*;
use crate::text;
use crate::text::{chars_of, chars_eq, is_whitespace, push_char, push_chars, string_of};

verus! {

// ───────────────────────── parser model ─────────────────────────

/// Where the incremental parser stands in the JSON text.
#[derive(Debug, Clone, Copy, PartialEq, Eq, Structural)]
pub enum ParseState {
    /// Outside any significant context.
    Root,
    /// Inside the top-level object, waiting for a key.
    ObjectKey,
    /// Reading a key string.
    InKey,
    /// After a key, expecting a colon.
    AfterKey,
    /// After the colon, expecting a value.
    BeforeValue,
    /// Reading a string value.
    InStringValue,
    /// Skipping a non-string value (number, literal, nested value).
    InOtherValue,
}

/// Escape state inside a JSON string.
#[derive(Debug, Clone)]
pub enum EscapeState {
    Normal,
    /// A backslash was just read.
    Backslash,
    /// Inside `\uXXXX`, with the characters read so far.
    Unicode(String),
}

/// Mathematical form of `EscapeState`.
pub enum EscapeModel {
    Normal,
    Backslash,
    Unicode(Seq<char>),
}

impl View for EscapeState {
    type V = EscapeModel;

    open spec fn view(&self) -> EscapeModel {
        match self {
            EscapeState::Normal => EscapeModel::Normal,
            EscapeState::Backslash => EscapeModel::Backslash,
            EscapeState::Unicode(h) => EscapeModel::Unicode(h@),
        }
    }
}

/// An event reported by the parser.
#[derive(Debug)]
pub enum JsonEvent {
    /// A complete key whose value is a string (other than `content`).
    KeyValue { key: String, value: String },
    /// Unescaped text of the `content` string.
    ContentDelta(String),
}

/// Mathematical form of `JsonEvent`.
pub enum EventModel {
    KeyValue(Seq<char>, Seq<char>),
    ContentDelta(Seq<char>),
}

impl View for JsonEvent {
    type V = EventModel;

    open spec fn view(&self) -> EventModel {
        match self {
            JsonEvent::KeyValue { key, value } => EventModel::KeyValue(key@, value@),
            JsonEvent::ContentDelta(t) => EventModel::ContentDelta(t@),
        }
    }
}

/// Mathematical form of the whole parser.
pub struct ParserModel {
    pub state: ParseState,
    pub depth: nat,
    pub key: Seq<char>,
    pub value: Seq<char>,
    pub in_content: bool,
    pub escape: EscapeModel,
    pub buffer: Seq<Seq<char>>,
    pub buffer_bytes: nat,
}

/// Maximum number of bytes of content held back while the path is unknown.
pub const CONTENT_BUFFER_CAP: usize = 200;

/// The character that a JSON escape `\c` stands for.
pub open spec fn unescape_spec(c: char) -> char {
    if c == 'n' {
        '\n'
    } else if c == 't' {
        '\t'
    } else if c == 'r' {
        '\r'
    } else {
        c
    }
}

/// Value of a hexadecimal digit, if `c` is one.
pub open spec fn hex_digit(c: char) -> Option<nat> {
    if '0' <= c && c <= '9' {
        Some((c as int - '0' as int) as nat)
    } else if 'a' <= c && c <= 'f' {
        Some((c as int - 'a' as int + 10) as nat)
    } else if 'A' <= c && c <= 'F' {
        Some((c as int - 'A' as int + 10) as nat)
    } else {
        None
    }
}

/// Value of a non-empty string of hexadecimal digits.
pub open spec fn hex_digits_value(s: Seq<char>) -> Option<nat>
    decreases s.len(),
{
    if s.len() == 0 {
        None
    } else if s.len() == 1 {
        hex_digit(s[0])
    } else {
        match (hex_digits_value(s.drop_last()), hex_digit(s.last())) {
            (Some(a), Some(b)) => Some(a * 16 + b),
            _ => None,
        }
    }
}

/// What `u32::from_str_radix(s, 16)` accepts for text of at most four
/// bytes: an optional leading `+` followed by at least one hex digit.
pub open spec fn parse_hex(s: Seq<char>) -> Option<nat> {
    if s.len() > 0 && s[0] == '+' {
        hex_digits_value(s.drop_first())
    } else {
        hex_digits_value(s)
    }
}

/// A Unicode scalar value: what `char::from_u32` accepts.
pub open spec fn is_scalar(v: nat) -> bool {
    v < 0xD800 || (0xE000 <= v && v <= 0x10FFFF)
}

/// The text that a `\uXXXX` escape with characters `hex` stands for: the
/// character of that code point, or the escape written back literally.
pub open spec fn unicode_unescape_spec(hex: Seq<char>) -> Seq<char> {
    match parse_hex(hex) {
        Some(v) => if is_scalar(v) {
            seq![v as char]
        } else {
            seq!['\\', 'u'] + hex
        },
        None => seq!['\\', 'u'] + hex,
    }
}

/// Whether one parser step on `ch` keeps the nesting depth within `u32`.
pub open spec fn step_ok(m: ParserModel, ch: char) -> bool {
    match m.state {
        ParseState::ObjectKey => ch == '}' ==> m.depth >= 1,
        ParseState::BeforeValue => (ch == '{' || ch == '[') ==> m.depth < u32::MAX,
        ParseState::InOtherValue => {
            &&& (ch == '}' || ch == ']') ==> m.depth >= 1
            &&& (ch == '{' || ch == '[') ==> m.depth < u32::MAX
        },
        _ => true,
    }
}

/// The parser step inside a string value.
pub open spec fn string_step(m: ParserModel, ch: char) -> (ParserModel, Option<EventModel>) {
    match m.escape {
        EscapeModel::Normal => {
            if ch == '\\' {
                (ParserModel { escape: EscapeModel::Backslash, ..m }, None)
            } else if ch == '"' {
                if m.in_content {
                    (ParserModel { in_content: false, state: ParseState::ObjectKey, ..m }, None)
                } else {
                    (
                        ParserModel { state: ParseState::ObjectKey, ..m },
                        Some(EventModel::KeyValue(m.key, m.value)),
                    )
                }
            } else if m.in_content {
                (m, Some(EventModel::ContentDelta(seq![ch])))
            } else {
                (ParserModel { value: m.value.push(ch), ..m }, None)
            }
        },
        EscapeModel::Backslash => {
            if ch == 'u' {
                (ParserModel { escape: EscapeModel::Unicode(Seq::empty()), ..m }, None)
            } else if m.in_content {
                (
                    ParserModel { escape: EscapeModel::Normal, ..m },
                    Some(EventModel::ContentDelta(seq![unescape_spec(ch)])),
                )
            } else {
                (
                    ParserModel {
                        escape: EscapeModel::Normal,
                        value: m.value.push(unescape_spec(ch)),
                        ..m
                    },
                    None,
                )
            }
        },
        EscapeModel::Unicode(hex) => {
            let h = hex.push(ch);
            if text::byte_len(h) == 4 {
                let u = unicode_unescape_spec(h);
                if m.in_content {
                    (
                        ParserModel { escape: EscapeModel::Normal, ..m },
                        Some(EventModel::ContentDelta(u)),
                    )
                } else {
                    (ParserModel { escape: EscapeModel::Normal, value: m.value + u, ..m }, None)
                }
            } else {
                (ParserModel { escape: EscapeModel::Unicode(h), ..m }, None)
            }
        },
    }
}

/// One step of the incremental parser on character `ch`.
pub open spec fn step(m: ParserModel, ch: char) -> (ParserModel, Option<EventModel>) {
    match m.state {
        ParseState::Root => {
            if ch == '{' {
                (ParserModel { depth: 1, state: ParseState::ObjectKey, ..m }, None)
            } else {
                (m, None)
            }
        },
        ParseState::ObjectKey => {
            if ch == '"' {
                (
                    ParserModel {
                        key: Seq::empty(),
                        state: ParseState::InKey,
                        escape: EscapeModel::Normal,
                        ..m
                    },
                    None,
                )
            } else if ch == '}' {
                let d = (m.depth - 1) as nat;
                (
                    ParserModel {
                        depth: d,
                        state: if d == 0 { ParseState::Root } else { ParseState::ObjectKey },
                        ..m
                    },
                    None,
                )
            } else {
                (m, None)
            }
        },
        ParseState::InKey => {
            match m.escape {
                EscapeModel::Normal => {
                    if ch == '\\' {
                        (ParserModel { escape: EscapeModel::Backslash, ..m }, None)
                    } else if ch == '"' {
                        (ParserModel { state: ParseState::AfterKey, ..m }, None)
                    } else {
                        (ParserModel { key: m.key.push(ch), ..m }, None)
                    }
                },
                EscapeModel::Backslash => (
                    ParserModel {
                        key: m.key.push(unescape_spec(ch)),
                        escape: EscapeModel::Normal,
                        ..m
                    },
                    None,
                ),
                EscapeModel::Unicode(_) => (
                    ParserModel { key: m.key.push(ch), escape: EscapeModel::Normal, ..m },
                    None,
                ),
            }
        },
        ParseState::AfterKey => {
            if ch == ':' {
                (ParserModel { state: ParseState::BeforeValue, ..m }, None)
            } else {
                (m, None)
            }
        },
        ParseState::BeforeValue => {
            if ch == '"' {
                (
                    ParserModel {
                        in_content: m.key == seq!['c', 'o', 'n', 't', 'e', 'n', 't'],
                        value: Seq::empty(),
                        state: ParseState::InStringValue,
                        escape: EscapeModel::Normal,
                        ..m
                    },
                    None,
                )
            } else if ch == '{' || ch == '[' {
                (
                    ParserModel {
                        depth: m.depth + 1,
                        state: ParseState::InOtherValue,
                        in_content: false,
                        ..m
                    },
                    None,
                )
            } else if text::is_ws(ch) {
                (m, None)
            } else {
                (
                    ParserModel {
                        state: ParseState::InOtherValue,
                        in_content: false,
                        value: seq![ch],
                        ..m
                    },
                    None,
                )
            }
        },
        ParseState::InStringValue => string_step(m, ch),
        ParseState::InOtherValue => {
            if ch == ',' {
                if m.depth <= 1 {
                    (ParserModel { state: ParseState::ObjectKey, ..m }, None)
                } else {
                    (m, None)
                }
            } else if ch == '}' {
                let d = (m.depth - 1) as nat;
                (
                    ParserModel {
                        depth: d,
                        state: if d == 0 {
                            ParseState::Root
                        } else if d == 1 {
                            ParseState::ObjectKey
                        } else {
                            ParseState::InOtherValue
                        },
                        ..m
                    },
                    None,
                )
            } else if ch == '{' || ch == '[' {
                (ParserModel { depth: m.depth + 1, ..m }, None)
            } else if ch == ']' {
                (ParserModel { depth: (m.depth - 1) as nat, ..m }, None)
            } else {
                (m, None)
            }
        },
    }
}

/// The events of an optional event, as a sequence.
pub open spec fn opt_seq(e: Option<EventModel>) -> Seq<EventModel> {
    match e {
        Some(ev) => seq![ev],
        None => Seq::empty(),
    }
}

/// Feeding the characters `cs` to the parser in state `m`: the final state
/// and the events, in order.
pub open spec fn run(m: ParserModel, cs: Seq<char>) -> (ParserModel, Seq<EventModel>)
    decreases cs.len(),
{
    if cs.len() == 0 {
        (m, Seq::empty())
    } else {
        let (m1, evs) = run(m, cs.drop_last());
        let (m2, e) = step(m1, cs.last());
        (m2, evs + opt_seq(e))
    }
}

/// Whether feeding `cs` from state `m` keeps the nesting depth within `u32`
/// at every step (the parser panics on a depth underflow otherwise).
pub open spec fn run_ok(m: ParserModel, cs: Seq<char>) -> bool
    decreases cs.len(),
{
    if cs.len() == 0 {
        true
    } else {
        run_ok(m, cs.drop_last()) && step_ok(run(m, cs.drop_last()).0, cs.last())
    }
}

/// Feeding `a` and then `b` is feeding `a + b`: the parser's outcome does
/// not depend on where the argument text is split into chunks.
pub proof fn lemma_run_concat(m: ParserModel, a: Seq<char>, b: Seq<char>)
    ensures
        run(m, a + b).0 == run(run(m, a).0, b).0,
        run(m, a + b).1 == run(m, a).1 + run(run(m, a).0, b).1,
        run_ok(m, a + b) == (run_ok(m, a) && run_ok(run(m, a).0, b)),
    decreases b.len(),
{
    if b.len() == 0 {
        assert(a + b =~= a);
        assert(run(m, a).1 + Seq::<EventModel>::empty() =~= run(m, a).1);
    } else {
        assert((a + b).drop_last() =~= a + b.drop_last());
        assert((a + b).last() == b.last());
        lemma_run_concat(m, a, b.drop_last());
        let (m1, e1) = run(m, a);
        let (m2, e2) = run(m1, b.drop_last());
        let (m3, e) = step(m2, b.last());
        assert(e1 + e2 + opt_seq(e) =~= e1 + (e2 + opt_seq(e)));
    }
}

// ───────────────────────── parser implementation ─────────────────────────

/// Incremental JSON parser that reports string-valued keys and streams the
/// unescaped text of the `content` value.
#[derive(Debug)]
pub struct JsonStreamParser {
    parse_state: ParseState,
    depth: u32,
    key_buf: String,
    value_buf: String,
    in_content_value: bool,
    escape: EscapeState,
    content_buffer: Vec<String>,
    content_buffer_chars: usize,
}

/// The views of a sequence of strings.
pub open spec fn views(v: Seq<String>) -> Seq<Seq<char>> {
    v.map_values(|s: String| s@)
}

impl View for JsonStreamParser {
    type V = ParserModel;

    closed spec fn view(&self) -> ParserModel {
        ParserModel {
            state: self.parse_state,
            depth: self.depth as nat,
            key: self.key_buf@,
            value: self.value_buf@,
            in_content: self.in_content_value,
            escape: self.escape@,
            buffer: views(self.content_buffer@),
            buffer_bytes: self.content_buffer_chars as nat,
        }
    }
}

/// The character that a JSON escape `\c` stands for.
pub fn unescape_char(ch: char) -> (r: char)
    ensures
        r == unescape_spec(ch),
{
    match ch {
        'n' => '\n',
        't' => '\t',
        'r' => '\r',
        '"' => '"',
        '\\' => '\\',
        '/' => '/',
        _ => ch,
    }
}

fn hex_digit_of(c: char) -> (r: Option<u32>)
    ensures
        match hex_digit(c) {
            Some(v) => r == Some(v as u32) && v < 16,
            None => r is None,
        },
{
    if '0' <= c && c <= '9' {
        Some((c as u32) - ('0' as u32))
    } else if 'a' <= c && c <= 'f' {
        Some((c as u32) - ('a' as u32) + 10)
    } else if 'A' <= c && c <= 'F' {
        Some((c as u32) - ('A' as u32) + 10)
    } else {
        None
    }
}

/// Powers of sixteen.
pub open spec fn pow16(n: nat) -> nat
    decreases n,
{
    if n == 0 {
        1
    } else {
        16 * pow16((n - 1) as nat)
    }
}

fn hex_value(cs: &[char], from: usize) -> (r: Option<u32>)
    requires
        from <= cs.len(),
        cs.len() - from <= 4,
    ensures
        r matches Some(v) ==> hex_digits_value(cs@.subrange(from as int, cs.len() as int)) == Some(v as nat),
        r is None ==> hex_digits_value(cs@.subrange(from as int, cs.len() as int)) is None,
{
    if from == cs.len() {
        return None;
    }
    let mut acc: u32 = 0;
    let mut i = from;
    while i < cs.len()
        invariant
            from <= i <= cs.len(),
            cs.len() - from <= 4,
            i > from ==> hex_digits_value(cs@.subrange(from as int, i as int)) == Some(acc as nat),
            i == from ==> acc == 0,
            acc < pow16((i - from) as nat),
        decreases cs.len() - i,
    {
        let ghost pre = cs@.subrange(from as int, i as int);
        let ghost nxt = cs@.subrange(from as int, i + 1);
        assert(nxt.drop_last() =~= pre);
        assert(nxt.last() == cs@[i as int]);
        match hex_digit_of(cs[i]) {
            Some(d) => {
                proof {
                    reveal_with_fuel(pow16, 5);
                    assert(pow16(1) == 16);
                    assert(pow16(2) == 256);
                    assert(pow16(3) == 4096);
                    assert(pow16(4) == 65536);
                    assert(pow16((i - from) as nat) <= 4096);
                }
                if i > from {
                    assert(acc * 16 + d < 65536) by (nonlinear_arith)
                        requires acc < 4096, d < 16;
                }
                let ghost prev_acc = acc;
                acc = acc * 16 + d;
                proof {
                    if i == from {
                        assert(nxt.len() == 1);
                    }
                    assert(acc < pow16((i + 1 - from) as nat)) by (nonlinear_arith)
                        requires acc == prev_acc * 16 + d, prev_acc < pow16((i - from) as nat),
                            d < 16, pow16((i + 1 - from) as nat) == 16 * pow16((i - from) as nat);
                }
            },
            None => {
                proof {
                    if nxt.len() > 1 {
                        assert(hex_digits_value(nxt) is None);
                    }
                    lemma_hex_none_extends(cs@.subrange(from as int, cs.len() as int), (i + 1 - from) as int);
                    assert(cs@.subrange(from as int, cs.len() as int).subrange(0, (i + 1 - from) as int) =~= nxt);
                }
                return None;
            },
        }
        i = i + 1;
    }
    Some(acc)
}

proof fn lemma_hex_none_extends(s: Seq<char>, k: int)
    requires
        1 <= k <= s.len(),
        hex_digits_value(s.subrange(0, k)) is None,
    ensures
        hex_digits_value(s) is None,
    decreases s.len() - k,
{
    if k < s.len() {
        let t = s.subrange(0, k + 1);
        assert(t.drop_last() =~= s.subrange(0, k));
        assert(hex_digits_value(t) is None);
        lemma_hex_none_extends(s, k + 1);
    } else {
        assert(s.subrange(0, k) =~= s);
    }
}

/// The text that a `\uXXXX` escape stands for (see `unicode_unescape_spec`).
pub fn unicode_unescape(hex: &[char]) -> (r: Vec<char>)
    requires
        hex.len() <= 4,
    ensures
        r@ == unicode_unescape_spec(hex@),
{
    let start: usize = if hex.len() > 0 && hex[0] == '+' { 1 } else { 0 };
    let parsed = hex_value(hex, start);
    proof {
        if start == 1 {
            assert(hex@.subrange(1, hex.len() as int) =~= hex@.drop_first());
        } else {
            assert(hex@.subrange(0, hex.len() as int) =~= hex@);
        }
    }
    let mut out: Vec<char> = Vec::new();
    match parsed {
        Some(v) => {
            if v < 0xD800 || (0xE000 <= v && v <= 0x10FFFF) {
                let c = char_from_scalar(v);
                out.push(c);
                assert(out@ =~= seq![v as char]);
                return out;
            }
        },
        None => {},
    }
    out.push('\\');
    out.push('u');
    let mut i: usize = 0;
    while i < hex.len()
        invariant
            i <= hex.len(),
            out@ == seq!['\\', 'u'] + hex@.subrange(0, i as int),
        decreases hex.len() - i,
    {
        out.push(hex[i]);
        i = i + 1;
        assert(out@ =~= seq!['\\', 'u'] + hex@.subrange(0, i as int));
    }
    assert(hex@.subrange(0, hex.len() as int) =~= hex@);
    out
}

/// The character with a given scalar value (`char::from_u32`), which the
/// caller has already checked to be a Unicode scalar value.
#[verifier::external_body]
fn char_from_scalar(v: u32) -> (c: char)
    requires
        is_scalar(v as nat),
    ensures
        c == v as char,
{
    char::from_u32(v).unwrap()
}

proof fn lemma_byte_len_prefix(s: Seq<char>, i: int)
    requires
        0 <= i <= s.len(),
    ensures
        text::byte_len(s.subrange(0, i)) <= text::byte_len(s),
    decreases s.len() - i,
{
    if i < s.len() {
        lemma_byte_len_prefix(s, i + 1);
        assert(s.subrange(0, i + 1).drop_last() =~= s.subrange(0, i));
    } else {
        assert(s.subrange(0, i) =~= s);
    }
}

/// Whether the UTF-8 encoding of `cs` is exactly `target` bytes long.
pub fn byte_len_is(cs: &[char], target: usize) -> (r: bool)
    ensures
        r == (text::byte_len(cs@) == target),
{
    let mut acc: usize = 0;
    let mut i: usize = 0;
    while i < cs.len()
        invariant
            i <= cs.len(),
            acc == text::byte_len(cs@.subrange(0, i as int)),
            acc <= target,
        decreases cs.len() - i,
    {
        let w = utf8_width_of(cs[i]);
        let ghost nxt = cs@.subrange(0, i + 1);
        assert(nxt.drop_last() =~= cs@.subrange(0, i as int));
        if w > target - acc {
            proof {
                lemma_byte_len_prefix(cs@, i + 1);
            }
            return false;
        }
        acc = acc + w;
        i = i + 1;
    }
    assert(cs@.subrange(0, cs.len() as int) =~= cs@);
    acc == target
}

/// Number of bytes of the UTF-8 encoding of `c` (`char::len_utf8`).
pub fn utf8_width_of(c: char) -> (r: usize)
    ensures
        r == text::utf8_width(c),
{
    let v = c as u32;
    if v < 0x80 {
        1
    } else if v < 0x800 {
        2
    } else if v < 0x10000 {
        3
    } else {
        4
    }
}

/// Number of bytes of the UTF-8 encoding of `cs`, saturating at `usize::MAX`.
pub fn utf8_len(cs: &[char]) -> (r: usize)
    ensures
        text::byte_len(cs@) <= usize::MAX ==> r == text::byte_len(cs@),
        text::byte_len(cs@) > usize::MAX ==> r == usize::MAX,
{
    let mut acc: usize = 0;
    let mut i: usize = 0;
    let mut saturated = false;
    while i < cs.len()
        invariant
            i <= cs.len(),
            !saturated ==> acc == text::byte_len(cs@.subrange(0, i as int)),
            saturated ==> text::byte_len(cs@.subrange(0, i as int)) > usize::MAX,
        decreases cs.len() - i,
    {
        let w = utf8_width_of(cs[i]);
        let ghost nxt = cs@.subrange(0, i + 1);
        assert(nxt.drop_last() =~= cs@.subrange(0, i as int));
        if !saturated {
            if w > usize::MAX - acc {
                saturated = true;
            } else {
                acc = acc + w;
            }
        }
        i = i + 1;
    }
    assert(cs@.subrange(0, cs.len() as int) =~= cs@);
    if saturated {
        proof {
            lemma_byte_len_prefix(cs@, cs.len() as int);
        }
        usize::MAX
    } else {
        acc
    }
}

/// A string holding one character.
fn string_of_char(c: char) -> (r: String)
    ensures
        r@ == seq![c],
{
    let mut s = String::new();
    push_char(&mut s, c);
    s
}

impl JsonStreamParser {
    /// A parser at the start of the text.
    pub fn new() -> (r: Self)
        ensures
            r@ == (ParserModel {
                state: ParseState::Root,
                depth: 0,
                key: Seq::empty(),
                value: Seq::empty(),
                in_content: false,
                escape: EscapeModel::Normal,
                buffer: Seq::empty(),
                buffer_bytes: 0,
            }),
    {
        let r = JsonStreamParser {
            parse_state: ParseState::Root,
            depth: 0,
            key_buf: String::new(),
            value_buf: String::new(),
            in_content_value: false,
            escape: EscapeState::Normal,
            content_buffer: Vec::new(),
            content_buffer_chars: 0,
        };
        assert(views(r.content_buffer@) =~= Seq::empty());
        r
    }

    /// Feeds the characters of `chunk`, returning the events they complete.
    pub fn feed(&mut self, chunk: &str) -> (r: Vec<JsonEvent>)
        requires
            run_ok(old(self)@, chunk@),
        ensures
            final(self)@ == run(old(self)@, chunk@).0,
            r@.map_values(|e: JsonEvent| e@) == run(old(self)@, chunk@).1,
    {
        let cs = chars_of(chunk);
        let mut events: Vec<JsonEvent> = Vec::new();
        let mut i: usize = 0;
        while i < cs.len()
            invariant
                i <= cs.len(),
                cs@ == chunk@,
                run_ok(old(self)@, cs@),
                self@ == run(old(self)@, cs@.subrange(0, i as int)).0,
                events@.map_values(|e: JsonEvent| e@) == run(old(self)@, cs@.subrange(0, i as int)).1,
            decreases cs.len() - i,
        {
            let ghost pre = cs@.subrange(0, i as int);
            let ghost nxt = cs@.subrange(0, i + 1);
            assert(nxt.drop_last() =~= pre);
            assert(nxt.last() == cs@[i as int]);
            proof {
                lemma_run_ok_prefix(old(self)@, cs@, i + 1);
            }
            let ghost evs_before = events@.map_values(|e: JsonEvent| e@);
            let ev = self.process_char(cs[i]);
            match ev {
                Some(e) => {
                    events.push(e);
                },
                None => {},
            }
            assert(events@.map_values(|e: JsonEvent| e@) =~= evs_before + opt_seq(
                step(run(old(self)@, pre).0, cs@[i as int]).1,
            ));
            i = i + 1;
        }
        assert(cs@.subrange(0, cs.len() as int) =~= cs@);
        events
    }

    /// Processes one character.
    pub fn process_char(&mut self, ch: char) -> (r: Option<JsonEvent>)
        requires
            step_ok(old(self)@, ch),
        ensures
            final(self)@ == step(old(self)@, ch).0,
            r matches Some(e) ==> step(old(self)@, ch).1 == Some(e@),
            r is None ==> step(old(self)@, ch).1 is None,
    {
        match self.parse_state {
            ParseState::Root => {
                if ch == '{' {
                    self.depth = 1;
                    self.parse_state = ParseState::ObjectKey;
                }
                None
            },
            ParseState::ObjectKey => {
                if ch == '"' {
                    self.key_buf = String::new();
                    self.parse_state = ParseState::InKey;
                    self.escape = EscapeState::Normal;
                } else if ch == '}' {
                    self.depth = self.depth - 1;
                    if self.depth == 0 {
                        self.parse_state = ParseState::Root;
                    }
                }
                None
            },
            ParseState::InKey => {
                match &self.escape {
                    EscapeState::Normal => {
                        if ch == '\\' {
                            self.escape = EscapeState::Backslash;
                        } else if ch == '"' {
                            self.parse_state = ParseState::AfterKey;
                        } else {
                            push_char(&mut self.key_buf, ch);
                        }
                    },
                    EscapeState::Backslash => {
                        let u = unescape_char(ch);
                        push_char(&mut self.key_buf, u);
                        self.escape = EscapeState::Normal;
                    },
                    EscapeState::Unicode(_) => {
                        push_char(&mut self.key_buf, ch);
                        self.escape = EscapeState::Normal;
                    },
                }
                None
            },
            ParseState::AfterKey => {
                if ch == ':' {
                    self.parse_state = ParseState::BeforeValue;
                }
                None
            },
            ParseState::BeforeValue => {
                if ch == '"' {
                    let content = chars_of("content");
                    let kc = chars_of(self.key_buf.as_str());
                    let is_content = chars_eq(kc.as_slice(), content.as_slice());
                    proof {
                        reveal_strlit("content");
                        assert("content"@ =~= seq!['c', 'o', 'n', 't', 'e', 'n', 't']);
                    }
                    self.in_content_value = is_content;
                    self.value_buf = String::new();
                    self.parse_state = ParseState::InStringValue;
                    self.escape = EscapeState::Normal;
                } else if ch == '{' || ch == '[' {
                    self.depth = self.depth + 1;
                    self.parse_state = ParseState::InOtherValue;
                    self.in_content_value = false;
                } else if is_whitespace(ch) {
                } else {
                    self.parse_state = ParseState::InOtherValue;
                    self.in_content_value = false;
                    self.value_buf = string_of_char(ch);
                }
                None
            },
            ParseState::InStringValue => self.process_string_char(ch),
            ParseState::InOtherValue => {
                if ch == ',' {
                    if self.depth <= 1 {
                        self.parse_state = ParseState::ObjectKey;
                    }
                } else if ch == '}' {
                    self.depth = self.depth - 1;
                    if self.depth == 0 {
                        self.parse_state = ParseState::Root;
                    } else if self.depth == 1 {
                        self.parse_state = ParseState::ObjectKey;
                    }
                } else if ch == '{' || ch == '[' {
                    self.depth = self.depth + 1;
                } else if ch == ']' {
                    self.depth = self.depth - 1;
                }
                None
            },
        }
    }

    /// Processes one character inside a string value.
    pub fn process_string_char(&mut self, ch: char) -> (r: Option<JsonEvent>)
        requires
            old(self)@.state == ParseState::InStringValue,
        ensures
            final(self)@ == string_step(old(self)@, ch).0,
            r matches Some(e) ==> string_step(old(self)@, ch).1 == Some(e@),
            r is None ==> string_step(old(self)@, ch).1 is None,
    {
        match &self.escape {
            EscapeState::Normal => {
                if ch == '\\' {
                    self.escape = EscapeState::Backslash;
                    return None;
                }
                if ch == '"' {
                    let event = if self.in_content_value {
                        self.in_content_value = false;
                        None
                    } else {
                        let key = self.key_buf.clone();
                        let value = self.value_buf.clone();
                        Some(JsonEvent::KeyValue { key, value })
                    };
                    self.parse_state = ParseState::ObjectKey;
                    return event;
                }
                if self.in_content_value {
                    return Some(JsonEvent::ContentDelta(string_of_char(ch)));
                }
                push_char(&mut self.value_buf, ch);
                None
            },
            EscapeState::Backslash => {
                if ch == 'u' {
                    self.escape = EscapeState::Unicode(String::new());
                    return None;
                }
                let unescaped = unescape_char(ch);
                self.escape = EscapeState::Normal;
                if self.in_content_value {
                    return Some(JsonEvent::ContentDelta(string_of_char(unescaped)));
                }
                push_char(&mut self.value_buf, unescaped);
                None
            },
            EscapeState::Unicode(hex) => {
                let mut h = chars_of(hex.as_str());
                h.push(ch);
                if byte_len_is(h.as_slice(), 4) {
                    proof {
                        lemma_byte_len_ge_len(h@);
                    }
                    let unescaped = unicode_unescape(h.as_slice());
                    self.escape = EscapeState::Normal;
                    if self.in_content_value {
                        return Some(JsonEvent::ContentDelta(string_of(unescaped.as_slice())));
                    }
                    push_chars(&mut self.value_buf, unescaped.as_slice());
                } else {
                    self.escape = EscapeState::Unicode(string_of(h.as_slice()));
                }
                None
            },
        }
    }

    /// Holds back content that arrived before the path, up to the cap.
    pub fn buffer_content(&mut self, text: String)
        ensures
            final(self)@ == buffer_spec(old(self)@, text@),
    {
        let tc = chars_of(text.as_str());
        let len = utf8_len(tc.as_slice());
        if len <= CONTENT_BUFFER_CAP && self.content_buffer_chars <= CONTENT_BUFFER_CAP - len {
            self.content_buffer_chars = self.content_buffer_chars + len;
            let ghost before = self.content_buffer@;
            self.content_buffer.push(text);
            assert(views(self.content_buffer@) =~= views(before).push(text@));
        }
    }

    /// Hands out and forgets the held-back content.
    pub fn flush_content_buffer(&mut self) -> (r: Vec<String>)
        ensures
            final(self)@ == (ParserModel { buffer: Seq::empty(), buffer_bytes: 0, ..old(self)@ }),
            views(r@) == old(self)@.buffer,
    {
        self.content_buffer_chars = 0;
        let mut r: Vec<String> = Vec::new();
        std::mem::swap(&mut r, &mut self.content_buffer);
        assert(views(self.content_buffer@) =~= Seq::empty());
        r
    }

    /// Forgets the held-back content.
    pub fn clear_content_buffer(&mut self)
        ensures
            final(self)@ == (ParserModel { buffer: Seq::empty(), buffer_bytes: 0, ..old(self)@ }),
    {
        self.content_buffer.clear();
        self.content_buffer_chars = 0;
        assert(views(self.content_buffer@) =~= Seq::empty());
    }
}

proof fn lemma_run_ok_prefix(m: ParserModel, cs: Seq<char>, k: int)
    requires
        0 <= k <= cs.len(),
        run_ok(m, cs),
    ensures
        run_ok(m, cs.subrange(0, k)),
        k > 0 ==> step_ok(run(m, cs.subrange(0, k - 1)).0, cs[k - 1]),
    decreases cs.len() - k,
{
    if k < cs.len() {
        lemma_run_ok_prefix(m, cs, k + 1);
        let t = cs.subrange(0, k + 1);
        assert(t.drop_last() =~= cs.subrange(0, k));
        if k > 0 {
            lemma_run_ok_prefix(m, cs.subrange(0, k), k);
            assert(cs.subrange(0, k).subrange(0, k) =~= cs.subrange(0, k));
            assert(cs.subrange(0, k).subrange(0, k - 1) =~= cs.subrange(0, k - 1));
        }
    } else {
        assert(cs.subrange(0, k) =~= cs);
        if k > 0 {
            assert(cs.drop_last() =~= cs.subrange(0, k - 1));
        }
    }
}

proof fn lemma_byte_len_ge_len(s: Seq<char>)
    ensures
        text::byte_len(s) >= s.len(),
    decreases s.len(),
{
    if s.len() > 0 {
        lemma_byte_len_ge_len(s.drop_last());
    }
}

proof fn lemma_byte_len_fits(s: Seq<char>)
    ensures
        text::byte_len(s) <= 4 * s.len(),
    decreases s.len(),
{
    if s.len() > 0 {
        lemma_byte_len_fits(s.drop_last());
    }
}

/// Holding back `t` while the path is unknown: kept only while the total
/// stays within `CONTENT_BUFFER_CAP` bytes.
pub open spec fn buffer_spec(m: ParserModel, t: Seq<char>) -> ParserModel {
    if m.buffer_bytes + text::byte_len(t) <= CONTENT_BUFFER_CAP {
        ParserModel { buffer: m.buffer.push(t), buffer_bytes: m.buffer_bytes + text::byte_len(t), ..m }
    } else {
        m
    }
}

} // verus!

verus! {

// ───────────────────────── the interceptor ─────────────────────────

/// What the interceptor knows about the tool call being streamed.
#[derive(Debug, Clone, Copy, PartialEq, Eq, Structural)]
pub enum InterceptState {
    /// Not tracking any tool call.
    Inactive,
    /// Tracking a file-writing call whose path is not known yet.
    AwaitingPath,
    /// The path names the plan file; content is handed out.
    Extracting,
    /// The path names another file; the call is ignored.
    Rejected,
}

/// The name of the outcome of `Path::new(a) == Path::new(b)`: whether the
/// two texts denote the same path component by component.
pub uninterp spec fn same_path(a: Seq<char>, b: Seq<char>) -> bool;

/// The name of what `Path::file_name` returns for the path with text `p`:
/// its last normal component, if it has one.
pub uninterp spec fn path_file_name(p: Seq<char>) -> Option<Seq<char>>;

/// Compares two paths with `Path`'s component-wise equality; the result is
/// named `same_path`.  Beside it the contract states that a path equals
/// itself, as `Eq` documents for `Path`.
#[verifier::external_body]
pub(crate) fn paths_equal(a: &str, b: &str) -> (r: bool)
    ensures
        r == same_path(a@, b@),
        a@ == b@ ==> r,
{
    std::path::Path::new(a) == std::path::Path::new(b)
}

/// The final component of a path (`Path::file_name`), as text; the result
/// is named `path_file_name` and nothing more is claimed.
#[verifier::external_body]
pub(crate) fn file_name_of(p: &str) -> (r: Option<String>)
    ensures
        r is Some <==> path_file_name(p@) is Some,
        r matches Some(n) ==> path_file_name(p@) == Some(n@),
{
    match std::path::Path::new(p).file_name() {
        Some(n) => Some(n.to_string_lossy().into_owned()),
        None => None,
    }
}

/// Whether `candidate` names the plan file `plan`, given the outcome of the
/// path comparison and the two file names.
pub open spec fn path_decision(
    plan: Seq<char>,
    candidate: Seq<char>,
    same: bool,
    plan_name: Option<Seq<char>>,
    cand_name: Option<Seq<char>>,
) -> bool {
    ||| same
    ||| {
        &&& plan_name is Some
        &&& cand_name is Some
        &&& plan_name == cand_name
        &&& (text::has_suffix(plan, candidate) || text::has_suffix(candidate, plan))
    }
}

/// Whether the path text `candidate` names the plan file `plan`: the same
/// path, or the same file name with one text a tail of the other.
pub open spec fn path_matches_spec(plan: Seq<char>, candidate: Seq<char>) -> bool {
    path_decision(
        plan,
        candidate,
        same_path(candidate, plan),
        path_file_name(plan),
        path_file_name(candidate),
    )
}

/// Decides whether `candidate` names the plan file once the path comparison
/// and the file names are known.
pub fn path_match_decision(
    plan: &str,
    candidate: &str,
    same: bool,
    plan_name: &Option<String>,
    cand_name: &Option<String>,
) -> (r: bool)
    ensures
        r == path_decision(
            plan@,
            candidate@,
            same,
            match plan_name {
                Some(n) => Some(n@),
                None => None,
            },
            match cand_name {
                Some(n) => Some(n@),
                None => None,
            },
        ),
{
    if same {
        return true;
    }
    match (plan_name, cand_name) {
        (Some(pn), Some(cn)) => {
            if text::str_eq(pn.as_str(), cn.as_str()) {
                text::str_ends_with(plan, candidate) || text::str_ends_with(candidate, plan)
            } else {
                false
            }
        },
        _ => false,
    }
}

/// Mathematical form of the interceptor.
pub struct InterceptorModel {
    pub plan: Seq<char>,
    pub state: InterceptState,
    pub parser: ParserModel,
}

/// Intermediate result while the events of one chunk are handled.
pub struct FeedOutcome {
    pub state: InterceptState,
    pub parser: ParserModel,
    pub deltas: Seq<Seq<char>>,
    pub stopped: bool,
}

/// The key that names the target file.
pub open spec fn file_path_key() -> Seq<char> {
    seq!['f', 'i', 'l', 'e', '_', 'p', 'a', 't', 'h']
}

/// The parser with its held-back content forgotten.
pub open spec fn cleared(p: ParserModel) -> ParserModel {
    ParserModel { buffer: Seq::empty(), buffer_bytes: 0, ..p }
}

/// Handling one parser event.
pub open spec fn handle_event(o: FeedOutcome, plan: Seq<char>, ev: EventModel) -> FeedOutcome {
    match ev {
        EventModel::KeyValue(k, v) => {
            if k == file_path_key() {
                if path_matches_spec(plan, v) {
                    FeedOutcome {
                        state: InterceptState::Extracting,
                        parser: cleared(o.parser),
                        deltas: o.deltas + o.parser.buffer,
                        stopped: false,
                    }
                } else {
                    FeedOutcome {
                        state: InterceptState::Rejected,
                        parser: cleared(o.parser),
                        deltas: Seq::empty(),
                        stopped: true,
                    }
                }
            } else {
                o
            }
        },
        EventModel::ContentDelta(t) => {
            match o.state {
                InterceptState::Extracting => FeedOutcome { deltas: o.deltas.push(t), ..o },
                InterceptState::AwaitingPath => FeedOutcome { parser: buffer_spec(o.parser, t), ..o },
                _ => o,
            }
        },
    }
}

/// Handling the events of one chunk in order; a rejected path ends the
/// chunk with no deltas.
pub open spec fn handle_events(o: FeedOutcome, plan: Seq<char>, evs: Seq<EventModel>) -> FeedOutcome
    decreases evs.len(),
{
    if evs.len() == 0 {
        o
    } else {
        let r = handle_events(o, plan, evs.drop_last());
        if r.stopped {
            r
        } else {
            handle_event(r, plan, evs.last())
        }
    }
}

/// Whether the interceptor is tracking a call.
pub open spec fn is_active(s: InterceptState) -> bool {
    s == InterceptState::AwaitingPath || s == InterceptState::Extracting
}

/// Feeding a chunk of argument text: the new state and the content deltas.
pub open spec fn feed_spec(m: InterceptorModel, chunk: Seq<char>) -> (InterceptorModel, Seq<Seq<char>>) {
    if !is_active(m.state) {
        (m, Seq::empty())
    } else {
        let (p1, evs) = run(m.parser, chunk);
        let o = handle_events(
            FeedOutcome { state: m.state, parser: p1, deltas: Seq::empty(), stopped: false },
            m.plan,
            evs,
        );
        (InterceptorModel { plan: m.plan, state: o.state, parser: o.parser }, o.deltas)
    }
}

/// Feeding the chunks `chunks` in turn: the final state and all deltas.
pub open spec fn feed_all(m: InterceptorModel, chunks: Seq<Seq<char>>) -> (InterceptorModel, Seq<Seq<char>>)
    decreases chunks.len(),
{
    if chunks.len() == 0 {
        (m, Seq::empty())
    } else {
        let (m1, d1) = feed_all(m, chunks.drop_last());
        let (m2, d2) = feed_spec(m1, chunks.last());
        (m2, d1 + d2)
    }
}

/// After a tool call that may not write the plan file has started, feeding
/// any chunks of its arguments hands out nothing and changes nothing.
pub proof fn lemma_inactive_feeds_nothing(m: InterceptorModel, chunks: Seq<Seq<char>>)
    requires
        m.state == InterceptState::Inactive,
    ensures
        feed_all(m, chunks).0 == m,
        feed_all(m, chunks).1 == Seq::<Seq<char>>::empty(),
    decreases chunks.len(),
{
    if chunks.len() > 0 {
        lemma_inactive_feeds_nothing(m, chunks.drop_last());
        assert(Seq::<Seq<char>>::empty() + Seq::<Seq<char>>::empty() =~= Seq::<Seq<char>>::empty());
    }
}

/// The parser state at the start of a tool call.
pub open spec fn fresh_parser() -> ParserModel {
    ParserModel {
        state: ParseState::Root,
        depth: 0,
        key: Seq::empty(),
        value: Seq::empty(),
        in_content: false,
        escape: EscapeModel::Normal,
        buffer: Seq::empty(),
        buffer_bytes: 0,
    }
}

/// Whether `tool_name` is one of the tools that write a file.
pub open spec fn is_write_tool(tool_name: Seq<char>) -> bool {
    tool_name == "write_file"@ || tool_name == "create_file"@ || tool_name == "edit_file"@
}

/// Extracts the streamed content of plan-file writes from tool-call arguments.
pub struct PlanArgInterceptor {
    plan_file_path: String,
    state: InterceptState,
    json_parser: JsonStreamParser,
}

impl View for PlanArgInterceptor {
    type V = InterceptorModel;

    closed spec fn view(&self) -> InterceptorModel {
        InterceptorModel {
            plan: self.plan_file_path@,
            state: self.state,
            parser: self.json_parser@,
        }
    }
}

impl PlanArgInterceptor {
    /// An interceptor for the plan file with path text `plan_file_path`.
    pub fn new(plan_file_path: String) -> (r: Self)
        ensures
            r@ == (InterceptorModel {
                plan: plan_file_path@,
                state: InterceptState::Inactive,
                parser: fresh_parser(),
            }),
    {
        PlanArgInterceptor {
            plan_file_path,
            state: InterceptState::Inactive,
            json_parser: JsonStreamParser::new(),
        }
    }

    /// The state of the interceptor.
    pub fn state(&self) -> (r: InterceptState)
        ensures
            r == self@.state,
    {
        self.state
    }

    /// A new tool call named `tool_name` starts; returns whether it may write
    /// the plan file.
    pub fn on_tool_start(&mut self, tool_name: &str) -> (r: bool)
        ensures
            r == is_write_tool(tool_name@),
            final(self)@ == (InterceptorModel {
                plan: old(self)@.plan,
                state: if r { InterceptState::AwaitingPath } else { InterceptState::Inactive },
                parser: if r { fresh_parser() } else { old(self)@.parser },
            }),
    {
        let w = text::str_eq(tool_name, "write_file");
        let c = text::str_eq(tool_name, "create_file");
        let e = text::str_eq(tool_name, "edit_file");
        if w || c || e {
            self.state = InterceptState::AwaitingPath;
            self.json_parser = JsonStreamParser::new();
            true
        } else {
            self.state = InterceptState::Inactive;
            false
        }
    }

    /// Feeds a chunk of argument text; returns the content deltas it releases.
    pub fn feed(&mut self, chunk: &str) -> (r: Vec<String>)
        requires
            is_active(old(self)@.state) ==> run_ok(old(self)@.parser, chunk@),
        ensures
            final(self)@ == feed_spec(old(self)@, chunk@).0,
            views(r@) == feed_spec(old(self)@, chunk@).1,
    {
        match self.state {
            InterceptState::Inactive | InterceptState::Rejected => {
                let r: Vec<String> = Vec::new();
                assert(views(r@) =~= Seq::empty());
                return r;
            },
            _ => {},
        }
        let events = self.json_parser.feed(chunk);
        let ghost evs = events@.map_values(|e: JsonEvent| e@);
        let ghost start = FeedOutcome {
            state: self.state,
            parser: self.json_parser@,
            deltas: Seq::empty(),
            stopped: false,
        };
        let mut deltas: Vec<String> = Vec::new();
        let mut i: usize = 0;
        assert(evs.subrange(0, 0) =~= Seq::<EventModel>::empty());
        while i < events.len()
            invariant
                i <= events.len(),
                evs == events@.map_values(|e: JsonEvent| e@),
                evs == run(old(self)@.parser, chunk@).1,
                is_active(old(self)@.state),
                start == (FeedOutcome {
                    state: old(self)@.state,
                    parser: run(old(self)@.parser, chunk@).0,
                    deltas: Seq::empty(),
                    stopped: false,
                }),
                self.plan_file_path@ == old(self)@.plan,
                !handle_events(start, old(self)@.plan, evs.subrange(0, i as int)).stopped,
                handle_events(start, old(self)@.plan, evs.subrange(0, i as int)).state == self.state,
                handle_events(start, old(self)@.plan, evs.subrange(0, i as int)).parser == self.json_parser@,
                handle_events(start, old(self)@.plan, evs.subrange(0, i as int)).deltas == views(deltas@),
            decreases events.len() - i,
        {
            let ghost pre = evs.subrange(0, i as int);
            let ghost nxt = evs.subrange(0, i + 1);
            assert(nxt.drop_last() =~= pre);
            assert(nxt.last() == events@[i as int]@);
            let ghost before = views(deltas@);
            match &events[i] {
                JsonEvent::KeyValue { key, value } => {
                    let is_path = text::str_eq(key.as_str(), "file_path");
                    proof {
                        reveal_strlit("file_path");
                        assert("file_path"@ =~= file_path_key());
                    }
                    if is_path {
                        if self.path_matches(value.as_str()) {
                            self.state = InterceptState::Extracting;
                            let flushed = self.json_parser.flush_content_buffer();
                            let mut k: usize = 0;
                            while k < flushed.len()
                                invariant
                                    k <= flushed.len(),
                                    views(deltas@) == before + views(flushed@).subrange(0, k as int),
                                decreases flushed.len() - k,
                            {
                                let ghost d0 = deltas@;
                                let c = flushed[k].clone();
                                deltas.push(c);
                                assert(deltas@ == d0.push(c));
                                assert(views(deltas@) =~= views(d0).push(c@));
                                assert(views(flushed@).subrange(0, k + 1) =~= views(flushed@).subrange(0, k as int).push(flushed@[k as int]@));
                                k = k + 1;
                                assert(views(deltas@) =~= before + views(flushed@).subrange(0, k as int));
                            }
                            assert(views(flushed@).subrange(0, flushed.len() as int) =~= views(flushed@));
                        } else {
                            self.state = InterceptState::Rejected;
                            self.json_parser.clear_content_buffer();
                            let r: Vec<String> = Vec::new();
                            proof {
                                let r0 = handle_events(start, old(self)@.plan, pre);
                                let r1 = handle_events(start, old(self)@.plan, nxt);
                                assert(r1 == handle_event(r0, old(self)@.plan, nxt.last()));
                                assert(r1.stopped);
                                assert(r1.state == self.state);
                                assert(r1.parser == self.json_parser@);
                                lemma_stopped_persists(start, old(self)@.plan, evs, i + 1);
                                assert(evs.subrange(0, evs.len() as int) =~= evs);
                                assert(views(r@) =~= Seq::empty());
                                let (p1, evs1) = run(old(self)@.parser, chunk@);
                                assert(evs1 == evs);
                                assert(start == FeedOutcome { state: old(self)@.state, parser: p1, deltas: Seq::empty(), stopped: false });
                                assert(handle_events(start, old(self)@.plan, evs) == r1);
                                assert(is_active(old(self)@.state));
                                assert(feed_spec(old(self)@, chunk@).0 == InterceptorModel { plan: old(self)@.plan, state: r1.state, parser: r1.parser });
                                assert(self@ == InterceptorModel { plan: old(self)@.plan, state: r1.state, parser: r1.parser });
                            }
                            return r;
                        }
                    }
                },
                JsonEvent::ContentDelta(t) => {
                    match self.state {
                        InterceptState::Extracting => {
                            deltas.push(t.clone());
                            assert(views(deltas@) =~= before.push(t@));
                        },
                        InterceptState::AwaitingPath => {
                            self.json_parser.buffer_content(t.clone());
                        },
                        _ => {},
                    }
                },
            }
            i = i + 1;
        }
        assert(evs.subrange(0, events.len() as int) =~= evs);
        deltas
    }

    /// Forgets the current tool call.
    pub fn reset(&mut self)
        ensures
            final(self)@ == (InterceptorModel {
                plan: old(self)@.plan,
                state: InterceptState::Inactive,
                parser: fresh_parser(),
            }),
    {
        self.state = InterceptState::Inactive;
        self.json_parser = JsonStreamParser::new();
    }

    /// Whether `value` names the plan file.
    pub fn path_matches(&self, value: &str) -> (r: bool)
        ensures
            r == path_matches_spec(self@.plan, value@),
    {
        let same = paths_equal(value, self.plan_file_path.as_str());
        let plan_name = file_name_of(self.plan_file_path.as_str());
        let cand_name = file_name_of(value);
        path_match_decision(self.plan_file_path.as_str(), value, same, &plan_name, &cand_name)
    }
}

proof fn lemma_stopped_persists(o: FeedOutcome, plan: Seq<char>, evs: Seq<EventModel>, k: int)
    requires
        0 <= k <= evs.len(),
        handle_events(o, plan, evs.subrange(0, k)).stopped,
    ensures
        handle_events(o, plan, evs) == handle_events(o, plan, evs.subrange(0, k)),
    decreases evs.len() - k,
{
    if k < evs.len() {
        let t = evs.subrange(0, k + 1);
        assert(t.drop_last() =~= evs.subrange(0, k));
        lemma_stopped_persists(o, plan, evs, k + 1);
    } else {
        assert(evs.subrange(0, k) =~= evs);
    }
}

} // verus!
