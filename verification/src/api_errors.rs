//! Classification of API errors reported by LLM providers.
//!
//! An error is classified from its HTTP status and its text (the error
//! message, followed by the response body when there is one).  The text is
//! matched case-insensitively against known phrases, in a fixed order, and
//! token counts or retry delays are extracted where the phrase calls for
//! them.
use vstd::prelude::*;
use crate::text;
use crate::text::{chars_of, push_str, push_u64, string_from, string_of, to_lowercase, u64_to_string};
use std::time::Duration;

verus! {

/// Structured classification of an API error.
#[derive(Debug, Clone, PartialEq)]
pub enum ApiErrorKind {
    PromptTooLong { actual_tokens: Option<usize>, limit_tokens: Option<usize> },
    RateLimited { retry_after: Option<Duration> },
    Overloaded,
    AuthExpired,
    MaxOutputTokens,
    InvalidApiKey,
    ImageTooLarge { path: String, size: usize },
    PdfTooLarge { path: String, pages: usize },
    ConnectionTimeout,
    ConnectionReset,
    /// The response stream broke off mid-response.
    StreamInterrupted,
    ModelNotAvailable { model: String },
    BudgetExhausted,
    Unknown(String),
}

/// Mathematical form of `ApiErrorKind`.
pub enum ErrorModel {
    PromptTooLong { actual_tokens: Option<usize>, limit_tokens: Option<usize> },
    RateLimited { retry_after: Option<Duration> },
    Overloaded,
    AuthExpired,
    MaxOutputTokens,
    InvalidApiKey,
    ImageTooLarge { path: Seq<char>, size: usize },
    PdfTooLarge { path: Seq<char>, pages: usize },
    ConnectionTimeout,
    ConnectionReset,
    StreamInterrupted,
    ModelNotAvailable { model: Seq<char> },
    BudgetExhausted,
    Unknown(Seq<char>),
}

impl View for ApiErrorKind {
    type V = ErrorModel;

    open spec fn view(&self) -> ErrorModel {
        match self {
            ApiErrorKind::PromptTooLong { actual_tokens, limit_tokens } => ErrorModel::PromptTooLong {
                actual_tokens: *actual_tokens,
                limit_tokens: *limit_tokens,
            },
            ApiErrorKind::RateLimited { retry_after } => ErrorModel::RateLimited {
                retry_after: *retry_after,
            },
            ApiErrorKind::Overloaded => ErrorModel::Overloaded,
            ApiErrorKind::AuthExpired => ErrorModel::AuthExpired,
            ApiErrorKind::MaxOutputTokens => ErrorModel::MaxOutputTokens,
            ApiErrorKind::InvalidApiKey => ErrorModel::InvalidApiKey,
            ApiErrorKind::ImageTooLarge { path, size } => ErrorModel::ImageTooLarge {
                path: path@,
                size: *size,
            },
            ApiErrorKind::PdfTooLarge { path, pages } => ErrorModel::PdfTooLarge {
                path: path@,
                pages: *pages,
            },
            ApiErrorKind::ConnectionTimeout => ErrorModel::ConnectionTimeout,
            ApiErrorKind::ConnectionReset => ErrorModel::ConnectionReset,
            ApiErrorKind::StreamInterrupted => ErrorModel::StreamInterrupted,
            ApiErrorKind::ModelNotAvailable { model } => ErrorModel::ModelNotAvailable {
                model: model@,
            },
            ApiErrorKind::BudgetExhausted => ErrorModel::BudgetExhausted,
            ApiErrorKind::Unknown(m) => ErrorModel::Unknown(m@),
        }
    }
}

/// The name of the `Duration` of `secs` seconds and `nanos` nanoseconds.
pub uninterp spec fn duration_of(secs: u64, nanos: u32) -> Duration;

/// Builds a `Duration` (`Duration::new`); the result is named `duration_of`.
#[verifier::external_body]
pub(crate) fn make_duration(secs: u64, nanos: u32) -> (r: Duration)
    requires
        nanos < 1_000_000_000,
    ensures
        r == duration_of(secs, nanos),
{
    Duration::new(secs, nanos)
}

/// The whole seconds of a `Duration` (`Duration::as_secs`); the result is
/// the seconds that `duration_of` was given.
#[verifier::external_body]
fn duration_secs(d: &Duration) -> (r: u64)
    ensures
        forall|s: u64, n: u32| n < 1_000_000_000 && *d == duration_of(s, n) ==> r == s,
{
    d.as_secs()
}

// ───────────────────────── specification ─────────────────────────

/// The text that is classified: the error text, then a space and the
/// response body when there is one.
pub open spec fn combined_text(error_text: Seq<char>, body: Option<Seq<char>>) -> Seq<char> {
    match body {
        Some(b) => error_text + seq![' '] + b,
        None => error_text,
    }
}

/// Maximal runs of ASCII digits: the completed runs and the run in progress.
pub open spec fn digit_runs_acc(s: Seq<char>) -> (Seq<Seq<char>>, Seq<char>)
    decreases s.len(),
{
    if s.len() == 0 {
        (Seq::empty(), Seq::empty())
    } else {
        let (runs, cur) = digit_runs_acc(s.drop_last());
        let c = s.last();
        if text::is_digit(c) {
            (runs, cur.push(c))
        } else if cur.len() > 0 {
            (runs.push(cur), Seq::empty())
        } else {
            (runs, Seq::empty())
        }
    }
}

/// The maximal runs of ASCII digits in `s`, in order.
pub open spec fn digit_runs(s: Seq<char>) -> Seq<Seq<char>> {
    let (runs, cur) = digit_runs_acc(s);
    if cur.len() > 0 {
        runs.push(cur)
    } else {
        runs
    }
}

/// The token counts in a text: the digit runs that read as a `usize` of at
/// least 1000, in order.
pub open spec fn token_numbers(s: Seq<char>) -> Seq<usize> {
    digit_runs(s).filter_map(|r: Seq<char>| token_of_run(r))
}

/// The token count that a run of digits reads as, if it is one.
pub open spec fn token_of_run(r: Seq<char>) -> Option<usize> {
    if text::digits_value(r) <= usize::MAX && text::digits_value(r) >= 1000 {
        Some(text::digits_value(r) as usize)
    } else {
        None
    }
}

/// The (actual, limit) token counts read from a prompt-too-long message
/// `raw` whose lowercase form is `lower`.
pub open spec fn tokens_spec(raw: Seq<char>, lower: Seq<char>) -> (Option<usize>, Option<usize>) {
    let ns = token_numbers(raw);
    if ns.len() >= 2 {
        if ns[0] > ns[1] {
            (Some(ns[0]), Some(ns[1]))
        } else {
            (Some(ns[1]), Some(ns[0]))
        }
    } else if ns.len() == 1 {
        if text::seq_contains(lower, "limit"@) || text::seq_contains(lower, "maximum"@) {
            (None, Some(ns[0]))
        } else {
            (Some(ns[0]), None)
        }
    } else {
        (None, None)
    }
}

/// The number of bytes of the first `k` characters of `t`.
pub open spec fn prefix_bytes(t: Seq<char>, k: int) -> nat {
    text::byte_len(t.subrange(0, k))
}

/// The character position of `t` that starts at byte offset `b`, if `b` is
/// a character boundary of `t`.
#[verifier::opaque]
pub open spec fn index_at_byte(t: Seq<char>, b: nat) -> Option<int> {
    if exists|k: int| 0 <= k <= t.len() && prefix_bytes(t, k) == b {
        Some(choose|k: int| 0 <= k <= t.len() && prefix_bytes(t, k) == b)
    } else {
        None
    }
}

/// `s` without its leading characters that are not ASCII digits.
pub open spec fn skip_non_digits(s: Seq<char>) -> Seq<char> {
    s.subrange(text::leading_count(s, |c: char| !text::is_digit(c)) as int, s.len() as int)
}

/// The leading digits of `s`.
pub open spec fn take_digits(s: Seq<char>) -> Seq<char> {
    s.subrange(0, text::leading_count(s, |c: char| text::is_digit(c)) as int)
}

/// The leading digits and dots of `s`.
pub open spec fn take_decimal(s: Seq<char>) -> Seq<char> {
    s.subrange(0, text::leading_count(s, |c: char| text::is_digit(c) || c == '.') as int)
}

/// Number of dots in `s`.
pub open spec fn dot_count(s: Seq<char>) -> nat
    decreases s.len(),
{
    if s.len() == 0 {
        0
    } else {
        dot_count(s.drop_last()) + if s.last() == '.' { 1nat } else { 0nat }
    }
}

/// Where the text after a marker begins in `text`, when the marker is found
/// in `lower` and the byte offset after it is a character boundary of `text`.
#[verifier::opaque]
pub open spec fn after_marker(t: Seq<char>, lower: Seq<char>, marker: Seq<char>) -> Option<Seq<char>> {
    match text::first_occurrence(lower, marker) {
        Some(i) => match index_at_byte(t, prefix_bytes(lower, i) + marker.len()) {
            Some(k) => Some(t.subrange(k, t.len() as int)),
            None => None,
        },
        None => None,
    }
}

/// Whether the byte offset after the first `marker` in `lower` (if any) is a
/// character boundary of `t`; slicing `t` there panics otherwise.
#[verifier::opaque]
pub open spec fn marker_sliceable(t: Seq<char>, lower: Seq<char>, marker: Seq<char>) -> bool {
    text::first_occurrence(lower, marker) matches Some(i) ==> index_at_byte(
        t,
        prefix_bytes(lower, i) + marker.len(),
    ) is Some
}

/// The delay after `retry-after`, when there is one.
pub open spec fn retry_after_header(t: Seq<char>, lower: Seq<char>) -> Option<Duration> {
    match after_marker(t, lower, "retry-after"@) {
        Some(after) => {
            let digits = take_digits(skip_non_digits(after));
            if digits.len() > 0 && text::digits_value(digits) <= u64::MAX {
                Some(duration_of(text::digits_value(digits) as u64, 0))
            } else {
                None
            }
        },
        None => None,
    }
}

/// Whether reading the retry delay slices `t` only at character boundaries:
/// after `retry-after`, and after `retry in` when the first gave no delay.
pub open spec fn retry_sliceable(t: Seq<char>, lower: Seq<char>) -> bool {
    &&& marker_sliceable(t, lower, "retry-after"@)
    &&& (retry_after_header(t, lower) is None ==> marker_sliceable(t, lower, "retry in"@))
}

/// Nanoseconds of a decimal fraction (digits after the dot), rounded to
/// the nearest nanosecond, halves up.
pub open spec fn frac_nanos(f: Seq<char>) -> nat {
    if f.len() <= 9 {
        text::digits_value(f) * pow10((9 - f.len()) as nat)
    } else {
        let head = f.subrange(0, 9);
        text::digits_value(head) + if text::digit_value(f[9]) >= 5 { 1nat } else { 0nat }
    }
}

/// Powers of ten.
pub open spec fn pow10(n: nat) -> nat
    decreases n,
{
    if n == 0 {
        1
    } else {
        10 * pow10((n - 1) as nat)
    }
}

/// The delay written as a decimal number of seconds `d` (digits with at most
/// one dot), rounded to the nearest nanosecond.
pub open spec fn decimal_duration(d: Seq<char>) -> Option<Duration> {
    if dot_count(d) > 1 {
        None
    } else {
        let dot = text::leading_count(d, |c: char| c != '.');
        let int_part = d.subrange(0, dot as int);
        let frac = if dot < d.len() { d.subrange(dot + 1int, d.len() as int) } else { Seq::empty() };
        let n = frac_nanos(frac);
        let secs = text::digits_value(int_part) + n / 1_000_000_000;
        if secs > u64::MAX {
            None
        } else {
            Some(duration_of(secs as u64, (n % 1_000_000_000) as u32))
        }
    }
}

/// The retry delay stated in an error text `t` with lowercase form `lower`:
/// the number after `retry-after`, else the decimal number after `retry in`.
pub open spec fn retry_spec(t: Seq<char>, lower: Seq<char>) -> Option<Duration> {
    match retry_after_header(t, lower) {
        Some(d) => Some(d),
        None => retry_in_value(t, lower),
    }
}

/// The delay written as a decimal number after `retry in`, when there is one.
pub open spec fn retry_in_value(t: Seq<char>, lower: Seq<char>) -> Option<Duration> {
    match after_marker(t, lower, "retry in"@) {
        Some(after) => {
            let d = take_decimal(skip_non_digits(after));
            if d.len() > 0 {
                decimal_duration(d)
            } else {
                None
            }
        },
        None => None,
    }
}

/// Whether `lower` contains `lit`.
pub open spec fn has(lower: Seq<char>, lit: Seq<char>) -> bool {
    text::seq_contains(lower, lit)
}

/// The classification of an error with status `status`, error text `err`,
/// classified text `t` and its lowercase form `lower`.
pub open spec fn classify_spec(status: Option<u16>, err: Seq<char>, t: Seq<char>, lower: Seq<char>) -> ErrorModel {
    if status == Some(401u16) {
        if has(lower, "invalid"@) && has(lower, "key"@) {
            ErrorModel::InvalidApiKey
        } else {
            ErrorModel::AuthExpired
        }
    } else if status == Some(429u16) {
        ErrorModel::RateLimited { retry_after: retry_spec(t, lower) }
    } else if status == Some(529u16) {
        ErrorModel::Overloaded
    } else if has(lower, "prompt_too_long"@) || has(lower, "context_length_exceeded"@) || has(
        lower,
        "maximum context length"@,
    ) || has(lower, "too many tokens"@) {
        let (a, l) = tokens_spec(t, lower);
        ErrorModel::PromptTooLong { actual_tokens: a, limit_tokens: l }
    } else if has(lower, "max_tokens"@) && has(lower, "output"@) {
        ErrorModel::MaxOutputTokens
    } else if has(lower, "invalid"@) && has(lower, "api"@) && has(lower, "key"@) {
        ErrorModel::InvalidApiKey
    } else if has(lower, "rate_limit"@) || has(lower, "rate limit"@) {
        ErrorModel::RateLimited { retry_after: retry_spec(t, lower) }
    } else if has(lower, "overloaded"@) || has(lower, "capacity"@) {
        ErrorModel::Overloaded
    } else if has(lower, "image"@) && (has(lower, "too large"@) || has(lower, "exceeds"@)) {
        ErrorModel::ImageTooLarge { path: Seq::empty(), size: 0 }
    } else if has(lower, "pdf"@) && (has(lower, "too large"@) || has(lower, "too many pages"@)) {
        ErrorModel::PdfTooLarge { path: Seq::empty(), pages: 0 }
    } else if has(lower, "model"@) && (has(lower, "not found"@) || has(lower, "not available"@)
        || has(lower, "does not exist"@)) {
        ErrorModel::ModelNotAvailable { model: Seq::empty() }
    } else if has(lower, "budget"@) && has(lower, "exhaust"@) {
        ErrorModel::BudgetExhausted
    } else if has(lower, "timeout"@) || has(lower, "timed out"@) {
        ErrorModel::ConnectionTimeout
    } else if has(lower, "connection"@) && (has(lower, "reset"@) || has(lower, "closed"@)) {
        ErrorModel::ConnectionReset
    } else if has(lower, "stream read error"@) || has(lower, "error decoding response body"@) || (
    has(lower, "stream"@) && has(lower, "interrupted"@)) {
        ErrorModel::StreamInterrupted
    } else {
        ErrorModel::Unknown(err)
    }
}

/// Whether classifying needs a retry delay (and so slices the text after
/// the retry markers).
pub open spec fn needs_retry(status: Option<u16>, lower: Seq<char>) -> bool {
    if status == Some(401u16) {
        false
    } else if status == Some(429u16) {
        true
    } else if status == Some(529u16) {
        false
    } else if has(lower, "prompt_too_long"@) || has(lower, "context_length_exceeded"@) || has(
        lower,
        "maximum context length"@,
    ) || has(lower, "too many tokens"@) {
        false
    } else if has(lower, "max_tokens"@) && has(lower, "output"@) {
        false
    } else if has(lower, "invalid"@) && has(lower, "api"@) && has(lower, "key"@) {
        false
    } else {
        has(lower, "rate_limit"@) || has(lower, "rate limit"@)
    }
}

// ───────────────────────── lemmas ─────────────────────────

proof fn lemma_prefix_bytes_step(t: Seq<char>, k: int)
    requires
        0 < k <= t.len(),
    ensures
        prefix_bytes(t, k) == prefix_bytes(t, k - 1) + text::utf8_width(t[k - 1]),
        text::utf8_width(t[k - 1]) >= 1,
{
    assert(t.subrange(0, k).drop_last() =~= t.subrange(0, k - 1));
}

proof fn lemma_prefix_bytes_mono(t: Seq<char>, j: int, k: int)
    requires
        0 <= j < k <= t.len(),
    ensures
        prefix_bytes(t, j) < prefix_bytes(t, k),
    decreases k - j,
{
    lemma_prefix_bytes_step(t, k);
    if j < k - 1 {
        lemma_prefix_bytes_mono(t, j, k - 1);
    }
}

// ───────────────────────── implementation ─────────────────────────

/// The character position of `t` at byte offset `b`, if it is a boundary.
fn index_for_byte(t: &[char], b: u128) -> (r: Option<usize>)
    ensures
        r matches Some(k) ==> index_at_byte(t@, b as nat) == Some(k as int),
        r is None <==> index_at_byte(t@, b as nat) is None,
        r matches Some(k) ==> k <= t.len(),
{
    reveal(index_at_byte);
    let mut acc: u128 = 0;
    let mut i: usize = 0;
    assert(t@.subrange(0, 0) =~= Seq::<char>::empty());
    loop
        invariant
            i <= t.len(),
            acc == prefix_bytes(t@, i as int),
            acc <= b,
            forall|j: int| 0 <= j < i ==> prefix_bytes(t@, j) < b,
        decreases t.len() - i,
    {
        if acc == b {
            proof {
                reveal(index_at_byte);
                let c = choose|k: int| 0 <= k <= t@.len() && prefix_bytes(t@, k) == b;
                if c < i {
                    assert(prefix_bytes(t@, c) < b);
                } else if c > i {
                    lemma_prefix_bytes_mono(t@, i as int, c);
                }
            }
            return Some(i);
        }
        if acc > b || i == t.len() {
            proof {
                reveal(index_at_byte);
                assert forall|k: int| 0 <= k <= t@.len() implies prefix_bytes(t@, k) != b by {
                    if k > i {
                        lemma_prefix_bytes_mono(t@, i as int, k);
                    }
                }
            }
            return None;
        }
        let w = crate::plan_arg_interceptor::utf8_width_of(t[i]) as u128;
        proof {
            lemma_prefix_bytes_step(t@, i + 1);
        }
        if w > b - acc {
            proof {
                reveal(index_at_byte);
                assert forall|k: int| 0 <= k <= t@.len() implies prefix_bytes(t@, k) != b by {
                    if k > i {
                        if k > i + 1 {
                            lemma_prefix_bytes_mono(t@, i + 1, k);
                        }
                    }
                }
            }
            return None;
        }
        acc = acc + w;
        i = i + 1;
    }
}

/// Number of leading characters of `s[from..]` that are not ASCII digits.
fn skip_non_digit_chars(s: &[char], from: usize) -> (r: usize)
    requires
        from <= s.len(),
    ensures
        from <= r <= s.len(),
        r - from == text::leading_count(s@.subrange(from as int, s.len() as int), |c: char| !text::is_digit(c)),
{
    let mut i = from;
    while i < s.len() && !('0' <= s[i] && s[i] <= '9')
        invariant
            from <= i <= s.len(),
            forall|j: int| from <= j < i ==> !text::is_digit(#[trigger] s@[j]),
        decreases s.len() - i,
    {
        i = i + 1;
    }
    proof {
        let t = s@.subrange(from as int, s.len() as int);
        assert forall|j: int| 0 <= j < i - from implies (|c: char| !text::is_digit(c))(#[trigger] t[j]) by {
            assert(t[j] == s@[j + from]);
        }
        if i < s.len() {
            assert(t[i - from] == s@[i as int]);
        }
        text::lemma_leading_count(t, |c: char| !text::is_digit(c), i - from);
    }
    i
}

/// Number of leading characters of `s[from..]` that are ASCII digits, or
/// digits and dots when `dots` holds.
fn take_digit_chars(s: &[char], from: usize, dots: bool) -> (r: usize)
    requires
        from <= s.len(),
    ensures
        from <= r <= s.len(),
        !dots ==> r - from == text::leading_count(s@.subrange(from as int, s.len() as int), |c: char| text::is_digit(c)),
        dots ==> r - from == text::leading_count(s@.subrange(from as int, s.len() as int), |c: char| text::is_digit(c) || c == '.'),
{
    let mut i = from;
    while i < s.len() && (('0' <= s[i] && s[i] <= '9') || (dots && s[i] == '.'))
        invariant
            from <= i <= s.len(),
            forall|j: int| from <= j < i ==> (text::is_digit(#[trigger] s@[j]) || (dots && s@[j] == '.')),
        decreases s.len() - i,
    {
        i = i + 1;
    }
    proof {
        let t = s@.subrange(from as int, s.len() as int);
        if dots {
            let p = |c: char| text::is_digit(c) || c == '.';
            assert forall|j: int| 0 <= j < i - from implies p(#[trigger] t[j]) by {
                assert(t[j] == s@[j + from]);
            }
            if i < s.len() {
                assert(t[i - from] == s@[i as int]);
            }
            text::lemma_leading_count(t, p, i - from);
        } else {
            let p = |c: char| text::is_digit(c);
            assert forall|j: int| 0 <= j < i - from implies p(#[trigger] t[j]) by {
                assert(t[j] == s@[j + from]);
            }
            if i < s.len() {
                assert(t[i - from] == s@[i as int]);
            }
            text::lemma_leading_count(t, p, i - from);
        }
    }
    i
}

#[verifier::rlimit(40)]
/// The text of `t` after the first occurrence of `marker` in `lower`, as a
/// character position of `t` (see `after_marker`); `Err(())` when the byte
/// offset is not a character boundary of `t`.
fn position_after(t: &[char], lower: &[char], marker: &str) -> (r: Result<Option<usize>, ()>)
    ensures
        r is Err <==> !marker_sliceable(t@, lower@, marker@),
        r == Ok::<Option<usize>, ()>(None) ==> after_marker(t@, lower@, marker@) is None,
        r matches Ok(Some(k)) ==> k <= t.len() && after_marker(t@, lower@, marker@) == Some(
            t@.subrange(k as int, t.len() as int),
        ),
{
    reveal(after_marker);
    reveal(marker_sliceable);
    let mc = chars_of(marker);
    match text::find_chars(lower, mc.as_slice()) {
        Some(i) => {
            let lb = bytes_before(lower, i);
            proof {
                lemma_byte_len_le(lower@.subrange(0, i as int));
            }
            let b = lb + mc.len() as u128;
            assert(b as nat == prefix_bytes(lower@, i as int) + marker@.len());
            let found = index_for_byte(t, b);
            match found {
                Some(k) => {
                    assert(index_at_byte(t@, prefix_bytes(lower@, i as int) + marker@.len()) == Some(k as int));
                    assert(text::first_occurrence(lower@, marker@) == Some(i as int));
                    Ok(Some(k))
                },
                None => Err(()),
            }
        },
        None => Ok(None),
    }
}

/// Number of bytes of the UTF-8 encoding of `s[..k]`.
fn bytes_before(s: &[char], k: usize) -> (r: u128)
    requires
        k <= s.len(),
    ensures
        r == prefix_bytes(s@, k as int),
        r <= 4 * k,
{
    let mut acc: u128 = 0;
    let mut i: usize = 0;
    assert(s@.subrange(0, 0) =~= Seq::<char>::empty());
    while i < k
        invariant
            i <= k <= s.len(),
            acc == prefix_bytes(s@, i as int),
            acc <= 4 * i,
        decreases k - i,
    {
        proof {
            lemma_prefix_bytes_step(s@, i + 1);
        }
        let w = crate::plan_arg_interceptor::utf8_width_of(s[i]) as u128;
        acc = acc + w;
        i = i + 1;
    }
    acc
}

proof fn lemma_byte_len_le(s: Seq<char>)
    ensures
        text::byte_len(s) <= 4 * s.len(),
    decreases s.len(),
{
    if s.len() > 0 {
        lemma_byte_len_le(s.drop_last());
    }
}

/// The characters of `s` other than dots.
fn count_dots(s: &[char]) -> (r: usize)
    ensures
        r == dot_count(s@),
{
    let mut n: usize = 0;
    let mut i: usize = 0;
    while i < s.len()
        invariant
            i <= s.len(),
            n == dot_count(s@.subrange(0, i as int)),
            n <= i,
        decreases s.len() - i,
    {
        assert(s@.subrange(0, i + 1).drop_last() =~= s@.subrange(0, i as int));
        if s[i] == '.' {
            n = n + 1;
        }
        i = i + 1;
    }
    assert(s@.subrange(0, s.len() as int) =~= s@);
    n
}

proof fn lemma_runs_digits_acc(s: Seq<char>)
    ensures
        forall|j: int| 0 <= j < digit_runs_acc(s).0.len() ==> text::all_digits(
            #[trigger] digit_runs_acc(s).0[j],
        ) && digit_runs_acc(s).0[j].len() > 0,
        text::all_digits(digit_runs_acc(s).1),
    decreases s.len(),
{
    if s.len() > 0 {
        lemma_runs_digits_acc(s.drop_last());
        let (runs, cur) = digit_runs_acc(s.drop_last());
        let c = s.last();
        if text::is_digit(c) {
            assert forall|i: int| 0 <= i < cur.push(c).len() implies text::is_digit(#[trigger] cur.push(c)[i]) by {
                if i < cur.len() {
                    assert(cur.push(c)[i] == cur[i]);
                }
            }
        }
    }
}

proof fn lemma_runs_digits(s: Seq<char>)
    ensures
        forall|j: int| 0 <= j < digit_runs(s).len() ==> text::all_digits(#[trigger] digit_runs(s)[j])
            && digit_runs(s)[j].len() > 0,
{
    lemma_runs_digits_acc(s);
}

/// The maximal runs of ASCII digits in `s`.
fn digit_run_chars(s: &[char]) -> (r: Vec<Vec<char>>)
    ensures
        r@.map_values(|v: Vec<char>| v@) == digit_runs(s@),
{
    let mut runs: Vec<Vec<char>> = Vec::new();
    let mut cur: Vec<char> = Vec::new();
    let mut i: usize = 0;
    while i < s.len()
        invariant
            i <= s.len(),
            (runs@.map_values(|v: Vec<char>| v@), cur@) == digit_runs_acc(s@.subrange(0, i as int)),
        decreases s.len() - i,
    {
        let ghost pre = s@.subrange(0, i as int);
        assert(s@.subrange(0, i + 1).drop_last() =~= pre);
        assert(s@.subrange(0, i + 1).last() == s@[i as int]);
        let ghost rv = runs@.map_values(|v: Vec<char>| v@);
        let c = s[i];
        if '0' <= c && c <= '9' {
            cur.push(c);
        } else if cur.len() > 0 {
            let done = cur;
            cur = Vec::new();
            let ghost dv = done@;
            runs.push(done);
            assert(runs@.map_values(|v: Vec<char>| v@) =~= rv.push(dv));
        } else {
        }
        i = i + 1;
    }
    assert(s@.subrange(0, s.len() as int) =~= s@);
    if cur.len() > 0 {
        let ghost rv = runs@.map_values(|v: Vec<char>| v@);
        let ghost cv = cur@;
        runs.push(cur);
        assert(runs@.map_values(|v: Vec<char>| v@) =~= rv.push(cv));
    }
    runs
}

/// The token counts in `s` (see `token_numbers`).
fn token_number_list(s: &[char]) -> (r: Vec<usize>)
    ensures
        r@ == token_numbers(s@),
{
    let runs = digit_run_chars(s);
    let ghost rs = runs@.map_values(|v: Vec<char>| v@);
    proof {
        lemma_runs_digits(s@);
    }
    let ghost f = |r: Seq<char>| token_of_run(r);
    assert(token_numbers(s@) == rs.filter_map(f));
    let mut nums: Vec<usize> = Vec::new();
    let mut i: usize = 0;
    while i < runs.len()
        invariant
            i <= runs.len(),
            rs == runs@.map_values(|v: Vec<char>| v@),
            rs == digit_runs(s@),
            nums@ == rs.subrange(0, i as int).filter_map(f),
            forall|r: Seq<char>| #[trigger] f(r) == token_of_run(r),
            token_numbers(s@) == rs.filter_map(f),
            forall|j: int| 0 <= j < rs.len() ==> text::all_digits(#[trigger] rs[j]) && rs[j].len() > 0,
        decreases runs.len() - i,
    {
        assert(rs.subrange(0, i + 1).drop_last() =~= rs.subrange(0, i as int));
        assert(rs.subrange(0, i + 1).last() == runs@[i as int]@);
        let sl = runs[i].as_slice();
        assert(sl@ == rs[i as int]);
        let v = text::parse_u64(sl);
        let ghost n0 = nums@;
        match v {
            Some(n) => {
                if n <= usize::MAX as u64 && n >= 1000 {
                    nums.push(n as usize);
                    assert(f(rs[i as int]) == Some(n as usize));
                    assert(nums@ == n0 + seq![n as usize]);
                } else {
                    assert(f(rs[i as int]) is None);
                }
            },
            None => {
                assert(text::digits_value(rs[i as int]) > u64::MAX);
                assert(f(rs[i as int]) is None);
            },
        }
        i = i + 1;
    }
    assert(rs.subrange(0, rs.len() as int) =~= rs);
    nums
}


proof fn lemma_digits_bound(s: Seq<char>)
    requires
        text::all_digits(s),
    ensures
        text::digits_value(s) < pow10(s.len()),
    decreases s.len(),
{
    if s.len() > 0 {
        let t = s.drop_last();
        assert forall|i: int| 0 <= i < t.len() implies text::is_digit(#[trigger] t[i]) by {
            assert(t[i] == s[i]);
        }
        lemma_digits_bound(t);
        assert(text::is_digit(s[s.len() - 1]));
        let a = text::digits_value(t);
        let d = text::digit_value(s.last());
        assert(d < 10);
        assert(a * 10 + d < pow10(t.len()) * 10) by (nonlinear_arith)
            requires a < pow10(t.len()), d < 10;
    }
}

/// Ten to the power `n`.
fn pow10_exec(n: u32) -> (r: u64)
    requires
        n <= 9,
    ensures
        r == pow10(n as nat),
{
    let mut r: u64 = 1;
    let mut i: u32 = 0;
    while i < n
        invariant
            i <= n <= 9,
            r == pow10(i as nat),
            r <= 1_000_000_000,
        decreases n - i,
    {
        proof {
            reveal_with_fuel(pow10, 10);
            assert(pow10((i + 1) as nat) == 10 * pow10(i as nat));
            lemma_pow10_mono(i as nat, 9);
            assert(pow10(9) == 1_000_000_000);
        }
        if i + 1 <= 9 {
            proof { lemma_pow10_mono((i + 1) as nat, 9); }
        }
        r = r * 10;
        i = i + 1;
    }
    r
}

proof fn lemma_pow10_mono(a: nat, b: nat)
    requires
        a <= b,
    ensures
        pow10(a) <= pow10(b),
        pow10(a) >= 1,
    decreases b,
{
    if b > 0 {
        if a < b {
            lemma_pow10_mono(a, (b - 1) as nat);
        } else {
            lemma_pow10_mono((b - 1) as nat, (b - 1) as nat);
        }
    }
}


/// The value of at most nine decimal digits (0 for none).
fn small_digits_value(cs: &[char]) -> (r: u64)
    requires
        cs.len() <= 9,
        text::all_digits(cs@),
    ensures
        r == text::digits_value(cs@),
        r < pow10(cs.len() as nat),
{
    proof {
        lemma_digits_bound(cs@);
        lemma_pow10_mono(cs.len() as nat, 9);
        reveal_with_fuel(pow10, 10);
    }
    if cs.len() == 0 {
        return 0;
    }
    match text::parse_u64(cs) {
        Some(v) => v,
        None => {
            assert(false);
            0
        },
    }
}

proof fn lemma_all_digits_sub(s: Seq<char>, a: int, b: int)
    requires
        0 <= a <= b <= s.len(),
        forall|j: int| a <= j < b ==> text::is_digit(#[trigger] s[j]),
    ensures
        text::all_digits(s.subrange(a, b)),
{
    assert forall|j: int| 0 <= j < b - a implies text::is_digit(#[trigger] s.subrange(a, b)[j]) by {
        assert(s.subrange(a, b)[j] == s[a + j]);
    }
}

proof fn lemma_dot_count_positions(s: Seq<char>)
    ensures
        dot_count(s) == 0 ==> forall|j: int| 0 <= j < s.len() ==> s[j] != '.',
        dot_count(s) <= 1 ==> forall|i: int, j: int| 0 <= i < j < s.len() && s[i] == '.' ==> s[j] != '.',
    decreases s.len(),
{
    if s.len() > 0 {
        let t = s.drop_last();
        lemma_dot_count_positions(t);
        assert forall|j: int| 0 <= j < t.len() implies t[j] == s[j] by {}
    }
}

/// The delay written as the decimal number `d` (see `decimal_duration`).
fn decimal_duration_exec(d: &[char]) -> (r: Option<Duration>)
    requires
        forall|j: int| 0 <= j < d.len() ==> text::is_digit(#[trigger] d@[j]) || d@[j] == '.',
    ensures
        r == decimal_duration(d@),
{
    let dots = count_dots(d);
    if dots > 1 {
        return None;
    }
    proof {
        lemma_dot_count_positions(d@);
    }
    let mut dot: usize = 0;
    while dot < d.len() && d[dot] != '.'
        invariant
            dot <= d.len(),
            forall|j: int| 0 <= j < dot ==> d@[j] != '.',
        decreases d.len() - dot,
    {
        dot = dot + 1;
    }
    proof {
        text::lemma_leading_count(d@, |c: char| c != '.', dot as int);
        lemma_all_digits_sub(d@, 0, dot as int);
        if dot < d.len() {
            lemma_all_digits_sub(d@, dot + 1, d.len() as int);
        }
    }
    let int_vec = text::slice_chars(d, 0, dot);
    let int_part = int_vec.as_slice();
    assert(int_part@ == d@.subrange(0, dot as int));
    let int_val: u64 = if dot == 0 {
        0
    } else {
        match text::parse_u64(int_part) {
            Some(v) => v,
            None => {
                return None;
            },
        }
    };
    let frac_start: usize = if dot < d.len() { dot + 1 } else { d.len() };
    let frac_vec = text::slice_chars(d, frac_start, d.len());
    let frac = frac_vec.as_slice();
    assert(frac@ == (if dot < d.len() { d@.subrange(dot + 1, d.len() as int) } else { Seq::<char>::empty() }));
    assert(text::all_digits(frac@));
    let n: u64 = if frac.len() <= 9 {
        let v = small_digits_value(frac);
        let p = pow10_exec((9 - frac.len()) as u32);
        proof {
            lemma_pow10_split(frac.len() as nat);
        }
        assert(v * p < 1_000_000_000) by (nonlinear_arith)
            requires v < pow10(frac.len() as nat), p == pow10((9 - frac.len()) as nat),
                pow10(frac.len() as nat) * pow10((9 - frac.len()) as nat) == 1_000_000_000;
        v * p
    } else {
        let head_vec = text::slice_chars(frac, 0, 9);
        let head = head_vec.as_slice();
        assert(head@ == frac@.subrange(0, 9));
        proof {
            lemma_all_digits_sub(frac@, 0, 9);
        }
        let v = small_digits_value(head);
        proof {
            reveal_with_fuel(pow10, 10);
        }
        let c = frac[9];
        assert(text::is_digit(frac@[9]));
        let dv = text::digit_of(c);
        if dv >= 5 { v + 1 } else { v }
    };
    assert(n == frac_nanos(frac@));
    let carry = n / 1_000_000_000;
    let nanos = (n % 1_000_000_000) as u32;
    if int_val > u64::MAX - carry {
        return None;
    }
    Some(make_duration(int_val + carry, nanos))
}

proof fn lemma_pow10_split(k: nat)
    requires
        k <= 9,
    ensures
        pow10(k) * pow10((9 - k) as nat) == 1_000_000_000,
{
    reveal_with_fuel(pow10, 10);
    assert(pow10(0) == 1);
    assert(pow10(1) == 10);
    assert(pow10(2) == 100);
    assert(pow10(3) == 1000);
    assert(pow10(4) == 10000);
    assert(pow10(5) == 100000);
    assert(pow10(6) == 1000000);
    assert(pow10(7) == 10000000);
    assert(pow10(8) == 100000000);
    assert(pow10(9) == 1000000000);
    if k == 0 {
        assert(pow10(k) * pow10((9 - k) as nat) == 1 * 1000000000);
    } else if k == 1 {
        assert(pow10(k) * pow10((9 - k) as nat) == 10 * 100000000);
    } else if k == 2 {
        assert(pow10(k) * pow10((9 - k) as nat) == 100 * 10000000);
    } else if k == 3 {
        assert(pow10(k) * pow10((9 - k) as nat) == 1000 * 1000000);
    } else if k == 4 {
        assert(pow10(k) * pow10((9 - k) as nat) == 10000 * 100000);
    } else if k == 5 {
        assert(pow10(k) * pow10((9 - k) as nat) == 100000 * 10000);
    } else if k == 6 {
        assert(pow10(k) * pow10((9 - k) as nat) == 1000000 * 1000);
    } else if k == 7 {
        assert(pow10(k) * pow10((9 - k) as nat) == 10000000 * 100);
    } else if k == 8 {
        assert(pow10(k) * pow10((9 - k) as nat) == 100000000 * 10);
    } else {
        assert(pow10(k) * pow10((9 - k) as nat) == 1000000000 * 1);
    }
}


/// Whether `lower` contains the literal `lit`.
fn has_lit(lower: &[char], lit: &str) -> (r: bool)
    ensures
        r == has(lower@, lit@),
{
    let lc = chars_of(lit);
    text::contains_chars(lower, lc.as_slice())
}

/// The digits (or digits and dots) that follow the first digit at or after
/// position `k` of `t`: the positions `(i, j)` of that run.
fn number_run(t: &[char], k: usize, dots: bool) -> (r: (usize, usize))
    requires
        k <= t.len(),
    ensures
        k <= r.0 <= r.1 <= t.len(),
        !dots ==> t@.subrange(r.0 as int, r.1 as int) == take_digits(skip_non_digits(t@.subrange(k as int, t.len() as int))),
        dots ==> t@.subrange(r.0 as int, r.1 as int) == take_decimal(skip_non_digits(t@.subrange(k as int, t.len() as int))),
{
    let i = skip_non_digit_chars(t, k);
    let j = take_digit_chars(t, i, dots);
    proof {
        let after = t@.subrange(k as int, t.len() as int);
        assert(skip_non_digits(after) =~= t@.subrange(i as int, t.len() as int));
        if dots {
            assert(take_decimal(t@.subrange(i as int, t.len() as int)) =~= t@.subrange(i as int, j as int));
        } else {
            assert(take_digits(t@.subrange(i as int, t.len() as int)) =~= t@.subrange(i as int, j as int));
        }
    }
    (i, j)
}

/// The delay after `retry-after` in `t`, or `Err(())` when the byte offset
/// after the marker is not a character boundary of `t`.
fn header_delay(t: &[char], lower: &[char]) -> (r: Result<Option<Duration>, ()>)
    ensures
        r is Err <==> !marker_sliceable(t@, lower@, "retry-after"@),
        r matches Ok(d) ==> d == retry_after_header(t@, lower@),
{
    match position_after(t, lower, "retry-after") {
        Err(()) => Err(()),
        Ok(None) => Ok(None),
        Ok(Some(k)) => {
            let (i, j) = number_run(t, k, false);
            let digits = text::slice_chars(t, i, j);
            proof {
                lemma_take_digits_chars(skip_non_digits(t@.subrange(k as int, t.len() as int)));
            }
            match text::parse_u64(digits.as_slice()) {
                Some(v) => Ok(Some(make_duration(v, 0))),
                None => Ok(None),
            }
        },
    }
}

/// The delay after `retry in` in `t`, or `Err(())` when the byte offset
/// after the marker is not a character boundary of `t`.
fn retry_in_delay(t: &[char], lower: &[char]) -> (r: Result<Option<Duration>, ()>)
    ensures
        r is Err <==> !marker_sliceable(t@, lower@, "retry in"@),
        r matches Ok(d) ==> d == retry_in_value(t@, lower@),
{
    match position_after(t, lower, "retry in") {
        Err(()) => Err(()),
        Ok(None) => Ok(None),
        Ok(Some(k)) => {
            let (i, j) = number_run(t, k, true);
            if i == j {
                return Ok(None);
            }
            let d = text::slice_chars(t, i, j);
            proof {
                lemma_take_decimal_chars(skip_non_digits(t@.subrange(k as int, t.len() as int)));
            }
            Ok(decimal_duration_exec(d.as_slice()))
        },
    }
}

/// The retry delay stated in `t` (lowercase form `lower`), or `Err(())` when
/// reading it would slice `t` inside a character.
fn parse_retry_after(t: &[char], lower: &[char]) -> (r: Result<Option<Duration>, ()>)
    ensures
        r is Err <==> !retry_sliceable(t@, lower@),
        r matches Ok(d) ==> d == retry_spec(t@, lower@),
{
    match header_delay(t, lower) {
        Err(()) => Err(()),
        Ok(Some(d)) => Ok(Some(d)),
        Ok(None) => retry_in_delay(t, lower),
    }
}

proof fn lemma_leading_count_le(s: Seq<char>, p: spec_fn(char) -> bool)
    ensures
        text::leading_count(s, p) <= s.len(),
    decreases s.len(),
{
    if s.len() > 0 {
        lemma_leading_count_le(s.drop_first(), p);
    }
}

proof fn lemma_leading_count_holds(s: Seq<char>, p: spec_fn(char) -> bool, x: int)
    requires
        0 <= x < text::leading_count(s, p),
    ensures
        x < s.len(),
        p(s[x]),
    decreases x,
{
    lemma_leading_count_le(s, p);
    assert(s.len() > 0 && p(s[0]));
    if x > 0 {
        lemma_leading_count_holds(s.drop_first(), p, x - 1);
        assert(s.drop_first()[x - 1] == s[x]);
    }
}

proof fn lemma_take_digits_chars(sk: Seq<char>)
    ensures
        text::all_digits(take_digits(sk)),
{
    let p = |c: char| text::is_digit(c);
    lemma_leading_count_le(sk, p);
    assert forall|x: int| 0 <= x < take_digits(sk).len() implies text::is_digit(#[trigger] take_digits(sk)[x]) by {
        lemma_leading_count_holds(sk, p, x);
    }
}

proof fn lemma_take_decimal_chars(sk: Seq<char>)
    ensures
        forall|x: int| 0 <= x < take_decimal(sk).len() ==> text::is_digit(#[trigger] take_decimal(sk)[x]) || take_decimal(sk)[x] == '.',
{
    let p = |c: char| text::is_digit(c) || c == '.';
    lemma_leading_count_le(sk, p);
    assert forall|x: int| 0 <= x < take_decimal(sk).len() implies text::is_digit(#[trigger] take_decimal(sk)[x]) || take_decimal(sk)[x] == '.' by {
        lemma_leading_count_holds(sk, p, x);
    }
}

/// The (actual, limit) token counts read from `raw`, with lowercase form
/// `lower` (see `tokens_spec`).
fn tokens_lowered(raw: &[char], lower: &[char]) -> (r: (Option<usize>, Option<usize>))
    ensures
        r == tokens_spec(raw@, lower@),
{
    let ns = token_number_list(raw);
    if ns.len() >= 2 {
        let a = ns[0];
        let b = ns[1];
        if a > b {
            return (Some(a), Some(b));
        }
        return (Some(b), Some(a));
    }
    if ns.len() == 1 {
        if has_lit(lower, "limit") || has_lit(lower, "maximum") {
            return (None, Some(ns[0]));
        }
        return (Some(ns[0]), None);
    }
    (None, None)
}

/// The classification of an error whose classified text is `combined` and
/// whose lowercase form is `lower` (see `classify_spec`).
pub fn classify_lowered(status: Option<u16>, error_text: &str, combined: &str, lower: &str) -> (r: ApiErrorKind)
    requires
        needs_retry(status, lower@) ==> retry_sliceable(combined@, lower@),
    ensures
        r@ == classify_spec(status, error_text@, combined@, lower@),
{
    let t = chars_of(combined);
    let l = chars_of(lower);
    let t = t.as_slice();
    let l = l.as_slice();
    if let Some(st) = status {
        if st == 401 {
            if has_lit(l, "invalid") && has_lit(l, "key") {
                return ApiErrorKind::InvalidApiKey;
            }
            return ApiErrorKind::AuthExpired;
        }
        if st == 429 {
            let retry_after = match parse_retry_after(t, l) {
                Ok(d) => d,
                Err(()) => {
                    assert(false);
                    None
                },
            };
            return ApiErrorKind::RateLimited { retry_after };
        }
        if st == 529 {
            return ApiErrorKind::Overloaded;
        }
    }
    if has_lit(l, "prompt_too_long") || has_lit(l, "context_length_exceeded") || has_lit(
        l,
        "maximum context length",
    ) || has_lit(l, "too many tokens") {
        let (actual, limit) = tokens_lowered(t, l);
        return ApiErrorKind::PromptTooLong { actual_tokens: actual, limit_tokens: limit };
    }
    if has_lit(l, "max_tokens") && has_lit(l, "output") {
        return ApiErrorKind::MaxOutputTokens;
    }
    if has_lit(l, "invalid") && has_lit(l, "api") && has_lit(l, "key") {
        return ApiErrorKind::InvalidApiKey;
    }
    if has_lit(l, "rate_limit") || has_lit(l, "rate limit") {
        let retry_after = match parse_retry_after(t, l) {
            Ok(d) => d,
            Err(()) => {
                assert(false);
                None
            },
        };
        return ApiErrorKind::RateLimited { retry_after };
    }
    if has_lit(l, "overloaded") || has_lit(l, "capacity") {
        return ApiErrorKind::Overloaded;
    }
    if has_lit(l, "image") && (has_lit(l, "too large") || has_lit(l, "exceeds")) {
        return ApiErrorKind::ImageTooLarge { path: String::new(), size: 0 };
    }
    if has_lit(l, "pdf") && (has_lit(l, "too large") || has_lit(l, "too many pages")) {
        return ApiErrorKind::PdfTooLarge { path: String::new(), pages: 0 };
    }
    if has_lit(l, "model") && (has_lit(l, "not found") || has_lit(l, "not available") || has_lit(
        l,
        "does not exist",
    )) {
        return ApiErrorKind::ModelNotAvailable { model: String::new() };
    }
    if has_lit(l, "budget") && has_lit(l, "exhaust") {
        return ApiErrorKind::BudgetExhausted;
    }
    if has_lit(l, "timeout") || has_lit(l, "timed out") {
        return ApiErrorKind::ConnectionTimeout;
    }
    if has_lit(l, "connection") && (has_lit(l, "reset") || has_lit(l, "closed")) {
        return ApiErrorKind::ConnectionReset;
    }
    if has_lit(l, "stream read error") || has_lit(l, "error decoding response body") || (has_lit(
        l,
        "stream",
    ) && has_lit(l, "interrupted")) {
        return ApiErrorKind::StreamInterrupted;
    }
    ApiErrorKind::Unknown(string_from(error_text))
}

/// The text that is classified, as a `String`.
fn combine(error_text: &str, response_body: Option<&str>) -> (r: String)
    ensures
        r@ == combined_text(error_text@, match response_body {
            Some(b) => Some(b@),
            None => None,
        }),
{
    match response_body {
        Some(body) => {
            let mut s = string_from(error_text);
            text::push_char(&mut s, ' ');
            push_str(&mut s, body);
            s
        },
        None => string_from(error_text),
    }
}

/// The views of an optional text.
pub open spec fn opt_view(b: Option<&str>) -> Option<Seq<char>> {
    match b {
        Some(s) => Some(s@),
        None => None,
    }
}

/// Whether classifying the error panics in slicing the text after a retry
/// marker (a byte offset of the lowercase text that falls inside a
/// character of the original text).
pub open spec fn classify_panics(status: Option<u16>, error_text: Seq<char>, body: Option<Seq<char>>) -> bool {
    let t = combined_text(error_text, body);
    needs_retry(status, lowercase_of_text(t)) && !retry_sliceable(t, lowercase_of_text(t))
}

/// The lowercase form of a text, as `str::to_lowercase` gives it.
pub open spec fn lowercase_of_text(t: Seq<char>) -> Seq<char> {
    text::lowercase_of(t)
}

/// The view of a classification outcome.
pub open spec fn classify_result(status: Option<u16>, error_text: Seq<char>, body: Option<Seq<char>>) -> ErrorModel {
    let t = combined_text(error_text, body);
    classify_spec(status, error_text, t, lowercase_of_text(t))
}

/// An error whose lowercased text tells of an interrupted stream ("stream
/// read error", "error decoding response body", or "stream" with
/// "interrupted") is never left unclassified; and one that is left
/// unclassified keeps its error text and names none of those.
pub proof fn lemma_stream_errors_are_classified(status: Option<u16>, error_text: Seq<char>, body: Option<Seq<char>>)
    ensures
        ({
            let lower = lowercase_of_text(combined_text(error_text, body));
            (text::seq_contains(lower, "stream read error"@) || text::seq_contains(lower, "error decoding response body"@)
                || (text::seq_contains(lower, "stream"@) && text::seq_contains(lower, "interrupted"@)))
                ==> !(classify_result(status, error_text, body) is Unknown)
        }),
        classify_result(status, error_text, body) is Unknown ==> ({
            let lower = lowercase_of_text(combined_text(error_text, body));
            &&& classify_result(status, error_text, body) == ErrorModel::Unknown(error_text)
            &&& !text::seq_contains(lower, "stream read error"@)
            &&& !text::seq_contains(lower, "error decoding response body"@)
            &&& !(text::seq_contains(lower, "stream"@) && text::seq_contains(lower, "interrupted"@))
        }),
{
}

/// A classifier of API errors.
pub struct ApiErrorClassifier;

impl ApiErrorClassifier {
    /// Classifies an error from its HTTP status, its message and the
    /// response body, if any.
    pub fn classify(status: Option<u16>, error_text: &str, response_body: Option<&str>) -> (r: ApiErrorKind)
        requires
            !classify_panics(status, error_text@, opt_view(response_body)),
        ensures
            r@ == classify_result(status, error_text@, opt_view(response_body)),
    {
        let combined = combine(error_text, response_body);
        let lower = to_lowercase(combined.as_str());
        classify_lowered(status, error_text, combined.as_str(), lower.as_str())
    }

    /// Classifies an error like `classify`, or answers `None` on the texts on
    /// which `classify` would panic.
    pub fn try_classify(status: Option<u16>, error_text: &str, response_body: Option<&str>) -> (r: Option<ApiErrorKind>)
        ensures
            r is None <==> classify_panics(status, error_text@, opt_view(response_body)),
            r matches Some(k) ==> k@ == classify_result(status, error_text@, opt_view(response_body)),
    {
        let combined = combine(error_text, response_body);
        let lower = to_lowercase(combined.as_str());
        let t = chars_of(combined.as_str());
        let l = chars_of(lower.as_str());
        let needs = needs_retry_exec(status, l.as_slice());
        if needs {
            match parse_retry_after(t.as_slice(), l.as_slice()) {
                Err(()) => {
                    return None;
                },
                Ok(_) => {},
            }
        }
        Some(Self::classify(status, error_text, response_body))
    }

    /// The (actual, limit) token counts stated in a prompt-too-long message:
    /// the first two numbers of at least 1000, larger first; or a single
    /// number, taken as the limit when the text speaks of a limit or maximum.
    pub fn parse_prompt_too_long_tokens(raw: &str) -> (r: (Option<usize>, Option<usize>))
        ensures
            r == tokens_spec(raw@, text::lowercase_of(raw@)),
    {
        let lower = to_lowercase(raw);
        let t = chars_of(raw);
        let l = chars_of(lower.as_str());
        tokens_lowered(t.as_slice(), l.as_slice())
    }
}

/// Whether classifying reads a retry delay (see `needs_retry`).
fn needs_retry_exec(status: Option<u16>, l: &[char]) -> (r: bool)
    ensures
        r == needs_retry(status, l@),
{
    if let Some(st) = status {
        if st == 401 {
            return false;
        }
        if st == 429 {
            return true;
        }
        if st == 529 {
            return false;
        }
    }
    if has_lit(l, "prompt_too_long") || has_lit(l, "context_length_exceeded") || has_lit(
        l,
        "maximum context length",
    ) || has_lit(l, "too many tokens") {
        return false;
    }
    if has_lit(l, "max_tokens") && has_lit(l, "output") {
        return false;
    }
    if has_lit(l, "invalid") && has_lit(l, "api") && has_lit(l, "key") {
        return false;
    }
    has_lit(l, "rate_limit") || has_lit(l, "rate limit")
}


// ───────────────────────── recovery messages ─────────────────────────

/// Powers of two.
pub open spec fn pow2(e: nat) -> nat
    decreases e,
{
    if e == 0 {
        1
    } else {
        2 * pow2((e - 1) as nat)
    }
}

/// The number of low bits that rounding `n` to a 53-bit significand drops,
/// counted from `e`.
pub open spec fn f64_shift_from(n: nat, e: nat) -> nat
    decreases 64 - e,
{
    if e >= 64 || n / pow2(e) < pow2(53) {
        e
    } else {
        f64_shift_from(n, e + 1)
    }
}

/// The value of `n as f64` for an integer `n` below 2^64: `n` rounded to a
/// 53-bit significand, halves to even.
pub open spec fn f64_value(n: nat) -> nat {
    let e = f64_shift_from(n, 0);
    if e == 0 {
        n
    } else {
        let q = n / pow2(e);
        let r = n % pow2(e);
        let half = pow2((e - 1) as nat);
        (if r > half || (r == half && q % 2 == 1) { q + 1 } else { q }) * pow2(e)
    }
}

/// How many times the size is divided by 1024 before it is written: while
/// it is at least 1024, at most three times.
pub open spec fn size_unit(v: nat) -> nat {
    if v < 1024 {
        0
    } else if v < 1024 * 1024 {
        1
    } else if v < 1024 * 1024 * 1024 {
        2
    } else {
        3
    }
}

/// `num / den` rounded to the nearest integer, halves to even.
pub open spec fn round_half_even(num: nat, den: nat) -> nat {
    let q = num / den;
    let r = num % den;
    if 2 * r > den || (2 * r == den && q % 2 == 1) {
        q + 1
    } else {
        q
    }
}

/// The name of a size unit.
pub open spec fn unit_name(k: nat) -> Seq<char> {
    if k == 1 {
        seq!['K', 'B']
    } else if k == 2 {
        seq!['M', 'B']
    } else {
        seq!['G', 'B']
    }
}

/// A file size written for people: bytes below 1024 as `"<n> B"`, larger
/// sizes in KB, MB or GB with one decimal (the binary value divided by a
/// power of 1024, rounded to tenths, halves to even).
pub open spec fn file_size_text(bytes: usize) -> Seq<char> {
    let v = f64_value(bytes as nat);
    let k = size_unit(v);
    if k == 0 {
        text::decimal(bytes as nat) + seq![' ', 'B']
    } else {
        let tenths = round_half_even(v * 10, pow1024(k));
        text::decimal(tenths / 10) + seq!['.'] + text::decimal(tenths % 10) + seq![' '] + unit_name(k)
    }
}

/// Powers of 1024.
pub open spec fn pow1024(k: nat) -> nat
    decreases k,
{
    if k == 0 {
        1
    } else {
        1024 * pow1024((k - 1) as nat)
    }
}

proof fn lemma_pow2_values()
    ensures
        pow2(53) == 9007199254740992,
        forall|e: nat| #[trigger] pow2(e + 1) == 2 * pow2(e),
{
    reveal_with_fuel(pow2, 54);
}

proof fn lemma_pow2_pos(e: nat)
    ensures
        pow2(e) >= 1,
    decreases e,
{
    if e > 0 {
        lemma_pow2_pos((e - 1) as nat);
    }
}

/// The value of `n as f64` (see `f64_value`).
fn f64_value_exec(n: u64) -> (r: u128)
    ensures
        r == f64_value(n as nat),
        r <= 2 * (u64::MAX as int) + 2,
{
    proof {
        lemma_pow2_values();
    }
    let mut e: u32 = 0;
    let mut p: u128 = 1;
    while e < 64 && (n as u128) / p >= 9007199254740992
        invariant
            e <= 64,
            p == pow2(e as nat),
            p >= 1,
            p <= 0x1_0000_0000_0000_0000u128,
            f64_shift_from(n as nat, e as nat) == f64_shift_from(n as nat, 0),
            pow2(53) == 9007199254740992,
            forall|x: nat| #[trigger] pow2(x + 1) == 2 * pow2(x),
        decreases 64 - e,
    {
        assert(pow2(e as nat + 1) == 2 * pow2(e as nat));
        proof {
            lemma_pow2_le64(e as nat + 1);
        }
        p = p * 2;
        e = e + 1;
    }
    assert(f64_shift_from(n as nat, e as nat) == e as nat);
    if e == 0 {
        return n as u128;
    }
    proof {
        lemma_pow2_pos(e as nat);
        lemma_pow2_pos((e - 1) as nat);
    }
    let q = (n as u128) / p;
    let r = (n as u128) % p;
    let half = p / 2;
    assert(half == pow2((e - 1) as nat));
    let rounded = if r > half || (r == half && q % 2 == 1) { q + 1 } else { q };
    assert(q * p <= n) by (nonlinear_arith)
        requires q == (n as u128) / p, p >= 1;
    assert(rounded * p <= n + p) by (nonlinear_arith)
        requires rounded <= q + 1, q * p <= n, p >= 1;
    rounded * p
}

proof fn lemma_pow2_mono(a: nat, b: nat)
    requires
        a <= b,
    ensures
        pow2(a) <= pow2(b),
    decreases b,
{
    if a < b {
        lemma_pow2_mono(a, (b - 1) as nat);
        lemma_pow2_pos((b - 1) as nat);
    }
}

proof fn lemma_pow2_le64(e: nat)
    requires
        e <= 64,
    ensures
        pow2(e) <= 0x1_0000_0000_0000_0000,
{
    lemma_pow2_mono(e, 64);
    reveal_with_fuel(pow2, 65);
}


/// Writes a file size for people (see `file_size_text`).
pub fn format_file_size(bytes: usize) -> (r: String)
    ensures
        r@ == file_size_text(bytes),
{
    let v = f64_value_exec(bytes as u64);
    let k: u32 = if v < 1024 { 0 } else if v < 1024 * 1024 { 1 } else if v < 1024 * 1024 * 1024 { 2 } else { 3 };
    assert(k == size_unit(v as nat));
    let mut s = String::new();
    if k == 0 {
        push_u64(&mut s, bytes as u64);
        text::push_char(&mut s, ' ');
        text::push_char(&mut s, 'B');
        assert(s@ =~= text::decimal(bytes as nat) + seq![' ', 'B']);
        return s;
    }
    let den: u128 = if k == 1 { 1024 } else if k == 2 { 1024 * 1024 } else { 1024 * 1024 * 1024 };
    proof {
        reveal_with_fuel(pow1024, 4);
    }
    assert(den == pow1024(k as nat));
    let num = v * 10;
    let q = num / den;
    let rem = num % den;
    let tenths = if 2 * rem > den || (2 * rem == den && q % 2 == 1) { q + 1 } else { q };
    assert(tenths == round_half_even(v as nat * 10, pow1024(k as nat)));
    assert(q <= num) by (nonlinear_arith)
        requires q == num / den, den >= 1;
    let whole = (tenths / 10) as u64;
    let frac = (tenths % 10) as u64;
    push_u64(&mut s, whole);
    text::push_char(&mut s, '.');
    push_u64(&mut s, frac);
    text::push_char(&mut s, ' ');
    if k == 1 {
        text::push_char(&mut s, 'K');
    } else if k == 2 {
        text::push_char(&mut s, 'M');
    } else {
        text::push_char(&mut s, 'G');
    }
    text::push_char(&mut s, 'B');
    assert(s@ =~= text::decimal(tenths as nat / 10) + seq!['.'] + text::decimal(tenths as nat % 10) + seq![' '] + unit_name(k as nat));
    s
}

/// A path for a message, `<unknown>` when it is empty.
pub open spec fn shown_or(p: Seq<char>, fallback: Seq<char>) -> Seq<char> {
    if p.len() == 0 {
        fallback
    } else {
        p
    }
}

/// The message for a rate limit with a retry delay of `secs` seconds.
pub open spec fn rate_limited_text(secs: u64) -> Seq<char> {
    "Rate limited. Retrying in "@ + text::decimal(secs as nat) + "s..."@
}

/// The recovery message for every kind but a rate limit with a delay.
pub open spec fn recovery_spec(k: ErrorModel) -> Seq<char> {
    match k {
        ErrorModel::PromptTooLong { actual_tokens, limit_tokens } => "Prompt is too long ("@
            + text::decimal(
            match actual_tokens {
                Some(a) => a as nat,
                None => 0,
            },
        ) + " tokens > "@ + text::decimal(
            match limit_tokens {
                Some(l) => l as nat,
                None => 0,
            },
        ) + " limit). Running auto-compact..."@,
        ErrorModel::RateLimited { retry_after } => rate_limited_text(30),
        ErrorModel::Overloaded => "Server is overloaded. Waiting before retry..."@,
        ErrorModel::AuthExpired => "Authentication expired. Please refresh your API credentials."@,
        ErrorModel::MaxOutputTokens => "Output was truncated due to max_tokens limit. Continuing with escalated limit..."@,
        ErrorModel::InvalidApiKey => "Invalid API key. Please check your configuration."@,
        ErrorModel::ImageTooLarge { path, size } => "Image "@ + shown_or(path, "<unknown>"@)
            + " too large ("@ + file_size_text(size)
            + "). Consider resizing or using a smaller image."@,
        ErrorModel::PdfTooLarge { path, pages } => "PDF "@ + shown_or(path, "<unknown>"@)
            + " too large ("@ + text::decimal(pages as nat)
            + " pages). Consider splitting the document."@,
        ErrorModel::ConnectionTimeout => "Connection timed out. Retrying with backoff..."@,
        ErrorModel::ConnectionReset => "Connection was reset. Retrying..."@,
        ErrorModel::StreamInterrupted => "Stream was interrupted. Attempting to resume..."@,
        ErrorModel::ModelNotAvailable { model } => "Model '"@ + shown_or(model, "unknown"@)
            + "' is not available. Check your model configuration."@,
        ErrorModel::BudgetExhausted => "Token budget exhausted. Please increase your budget limit or start a new session."@,
        ErrorModel::Unknown(msg) => "Unexpected error: "@ + msg + ". Please try again."@,
    }
}

impl ApiErrorClassifier {
    /// A human-readable recovery message for an error kind.
    pub fn recovery_message(kind: &ApiErrorKind) -> (r: String)
        ensures
            match kind {
                ApiErrorKind::RateLimited { retry_after: Some(d) } => forall|s: u64, n: u32|
                    n < 1_000_000_000 && *d == duration_of(s, n) ==> r@ == rate_limited_text(s),
                _ => r@ == recovery_spec(kind@),
            },
    {
        let mut s = String::new();
        match kind {
            ApiErrorKind::PromptTooLong { actual_tokens, limit_tokens } => {
                let a: usize = match actual_tokens { Some(a) => *a, None => 0 };
                let l: usize = match limit_tokens { Some(l) => *l, None => 0 };
                push_str(&mut s, "Prompt is too long (");
                push_u64(&mut s, a as u64);
                push_str(&mut s, " tokens > ");
                push_u64(&mut s, l as u64);
                push_str(&mut s, " limit). Running auto-compact...");
            },
            ApiErrorKind::RateLimited { retry_after } => {
                let secs: u64 = match retry_after { Some(d) => duration_secs(d), None => 30 };
                push_str(&mut s, "Rate limited. Retrying in ");
                push_u64(&mut s, secs);
                push_str(&mut s, "s...");
            },
            ApiErrorKind::Overloaded => push_str(&mut s, "Server is overloaded. Waiting before retry..."),
            ApiErrorKind::AuthExpired => push_str(&mut s, "Authentication expired. Please refresh your API credentials."),
            ApiErrorKind::MaxOutputTokens => push_str(&mut s, "Output was truncated due to max_tokens limit. Continuing with escalated limit..."),
            ApiErrorKind::InvalidApiKey => push_str(&mut s, "Invalid API key. Please check your configuration."),
            ApiErrorKind::ImageTooLarge { path, size } => {
                push_str(&mut s, "Image ");
                if path.as_str().is_empty() {
                    push_str(&mut s, "<unknown>");
                } else {
                    push_str(&mut s, path.as_str());
                }
                push_str(&mut s, " too large (");
                let fs = format_file_size(*size);
                push_str(&mut s, fs.as_str());
                push_str(&mut s, "). Consider resizing or using a smaller image.");
            },
            ApiErrorKind::PdfTooLarge { path, pages } => {
                push_str(&mut s, "PDF ");
                if path.as_str().is_empty() {
                    push_str(&mut s, "<unknown>");
                } else {
                    push_str(&mut s, path.as_str());
                }
                push_str(&mut s, " too large (");
                push_u64(&mut s, *pages as u64);
                push_str(&mut s, " pages). Consider splitting the document.");
            },
            ApiErrorKind::ConnectionTimeout => push_str(&mut s, "Connection timed out. Retrying with backoff..."),
            ApiErrorKind::ConnectionReset => push_str(&mut s, "Connection was reset. Retrying..."),
            ApiErrorKind::StreamInterrupted => push_str(&mut s, "Stream was interrupted. Attempting to resume..."),
            ApiErrorKind::ModelNotAvailable { model } => {
                push_str(&mut s, "Model '");
                if model.as_str().is_empty() {
                    push_str(&mut s, "unknown");
                } else {
                    push_str(&mut s, model.as_str());
                }
                push_str(&mut s, "' is not available. Check your model configuration.");
            },
            ApiErrorKind::BudgetExhausted => push_str(&mut s, "Token budget exhausted. Please increase your budget limit or start a new session."),
            ApiErrorKind::Unknown(msg) => {
                push_str(&mut s, "Unexpected error: ");
                push_str(&mut s, msg.as_str());
                push_str(&mut s, ". Please try again.");
            },
        }
        s
    }
}

} // verus!
