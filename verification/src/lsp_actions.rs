//! LSP-driven deterministic code actions.
//!
//! Code actions (rename, find references, diagnostics, ...) are carried out by
//! a language server; this module decides which files a server exists for
//! and renders a server's answer as text for the model. Every rendering is
//! stated exactly by a spec function.
use vstd::prelude::*;
use crate::text;
use crate::text::{chars_of, find_chars, push_char, push_chars, push_str, push_u64, slice_chars, str_eq};
use crate::plan_arg_interceptor::{file_name_of, utf8_width_of};

verus! {

/// Supported deterministic code actions.
#[derive(Debug, Clone, PartialEq, Eq)]
pub enum CodeAction {
    /// Rename a symbol across the entire workspace.
    Rename { file: String, line: u32, column: u32, new_name: String },
    /// Get diagnostics for a file (post-edit validation).
    GetDiagnostics { file: String },
    /// Find all references to a symbol.
    FindReferences { file: String, line: u32, column: u32 },
    /// Go to definition of a symbol.
    GoToDefinition { file: String, line: u32, column: u32 },
    /// Request code actions available at a position (quick fixes, refactors).
    AvailableActions { file: String, line: u32, column: u32 },
    /// Organize imports / auto-import.
    OrganizeImports { file: String },
    /// Format a file using the LSP formatter.
    Format { file: String },
}

/// A text edit produced by an LSP action.
#[derive(Debug, Clone)]
pub struct TextEdit {
    pub file: String,
    pub start_line: u32,
    pub start_col: u32,
    pub end_line: u32,
    pub end_col: u32,
    pub new_text: String,
}

/// Result of executing a code action.
#[derive(Debug, Clone)]
pub enum ActionResult {
    /// Edits to apply (rename, format, organize imports).
    Edits(Vec<TextEdit>),
    /// Locations found (references, definition).
    Locations(Vec<Location>),
    /// Available actions at a position.
    Actions(Vec<ActionItem>),
    /// Diagnostics for a file.
    Diagnostics(Vec<Diagnostic>),
    /// The action is not supported for this file/language.
    NotSupported(String),
    /// LSP server error.
    Error(String),
}

/// A source location.
#[derive(Debug, Clone)]
pub struct Location {
    pub file: String,
    pub line: u32,
    pub column: u32,
}

/// A code action item available at a position.
#[derive(Debug, Clone)]
pub struct ActionItem {
    pub title: String,
    pub kind: Option<String>,
    pub is_preferred: bool,
}

/// A diagnostic (error/warning) from the LSP.
#[derive(Debug, Clone)]
pub struct Diagnostic {
    pub file: String,
    pub line: u32,
    pub column: u32,
    pub severity: DiagnosticSeverity,
    pub message: String,
    pub code: Option<String>,
}

/// How serious a diagnostic is.
#[derive(Debug, Clone, Copy, PartialEq, Eq)]
pub enum DiagnosticSeverity {
    Error,
    Warning,
    Information,
    Hint,
}

/// Configuration for LSP actions.
#[derive(Debug, Clone)]
pub struct LspActionsConfig {
    pub enabled: bool,
    /// Timeout for LSP requests in milliseconds.
    pub timeout_ms: u64,
    /// Whether to auto-format after rename/refactor.
    pub format_after_action: bool,
}

impl Default for LspActionsConfig {
    fn default() -> (r: Self)
        ensures
            r.enabled,
            r.timeout_ms == 10_000,
            r.format_after_action,
    {
        LspActionsConfig { enabled: true, timeout_ms: 10_000, format_after_action: true }
    }
}

// ───────────────────────── languages ─────────────────────────

/// Extensions of the languages a server is known for.
pub open spec fn lsp_extension(e: Seq<char>) -> bool {
    ||| e == "rs"@ ||| e == "ts"@ ||| e == "tsx"@ ||| e == "js"@ ||| e == "jsx"@
    ||| e == "py"@ ||| e == "go"@ ||| e == "java"@ ||| e == "kt"@ ||| e == "c"@
    ||| e == "cpp"@ ||| e == "h"@ ||| e == "hpp"@ ||| e == "cs"@ ||| e == "rb"@
    ||| e == "swift"@ ||| e == "vue"@ ||| e == "svelte"@
}

/// The server command for an extension.
pub open spec fn server_for(e: Seq<char>) -> Option<Seq<char>> {
    if e == "rs"@ {
        Some("rust-analyzer"@)
    } else if e == "ts"@ || e == "tsx"@ || e == "js"@ || e == "jsx"@ {
        Some("typescript-language-server"@)
    } else if e == "py"@ {
        Some("pyright-langserver"@)
    } else if e == "go"@ {
        Some("gopls"@)
    } else if e == "java"@ || e == "kt"@ {
        Some("jdtls"@)
    } else if e == "c"@ || e == "cpp"@ || e == "h"@ || e == "hpp"@ {
        Some("clangd"@)
    } else if e == "cs"@ {
        Some("omnisharp"@)
    } else if e == "rb"@ {
        Some("solargraph"@)
    } else if e == "swift"@ {
        Some("sourcekit-lsp"@)
    } else if e == "vue"@ {
        Some("vls"@)
    } else if e == "svelte"@ {
        Some("svelte-language-server"@)
    } else {
        None
    }
}

/// Every extension that counts as supported has a server, and no other does.
pub proof fn lemma_supported_iff_server(e: Seq<char>)
    ensures
        lsp_extension(e) <==> server_for(e) is Some,
{
}

/// The index of the last occurrence of `c` in `s`.
pub open spec fn last_index_of(s: Seq<char>, c: char) -> Option<int>
    decreases s.len(),
{
    if s.len() == 0 {
        None
    } else if s.last() == c {
        Some(s.len() - 1)
    } else {
        last_index_of(s.drop_last(), c)
    }
}

/// The extension of a file name as `Path::extension` documents it: the text
/// after the final `.`, unless there is no `.`, the only `.` is the first
/// character, or the name is `..`.
pub open spec fn name_extension(name: Seq<char>) -> Option<Seq<char>> {
    if name == seq!['.', '.'] {
        None
    } else {
        match last_index_of(name, '.') {
            Some(i) => if i == 0 { None } else { Some(name.skip(i + 1)) },
            None => None,
        }
    }
}

/// Whether the file with path text `p` is in a language with a server.
pub open spec fn supported_path(p: Seq<char>) -> bool {
    match crate::plan_arg_interceptor::path_file_name(p) {
        Some(name) => match name_extension(name) {
            Some(e) => lsp_extension(e),
            None => false,
        },
        None => false,
    }
}

fn last_dot(cs: &Vec<char>) -> (r: Option<usize>)
    ensures
        r matches Some(i) ==> last_index_of(cs@, '.') == Some(i as int) && i < cs.len(),
        r is None <==> last_index_of(cs@, '.') is None,
{
    let mut k: usize = cs.len();
    proof {
        assert(cs@.take(cs.len() as int) == cs@);
    }
    while k > 0
        invariant
            k <= cs.len(),
            last_index_of(cs@, '.') == last_index_of(cs@.take(k as int), '.'),
        decreases k,
    {
        proof {
            assert(cs@.take(k as int).drop_last() == cs@.take(k - 1));
        }
        if cs[k - 1] == '.' {
            return Some(k - 1);
        }
        k = k - 1;
    }
    proof {
        assert(cs@.take(0) == Seq::<char>::empty());
    }
    None
}

fn name_extension_of(name: &str) -> (r: Option<Vec<char>>)
    ensures
        r matches Some(e) ==> name_extension(name@) == Some(e@),
        r is None <==> name_extension(name@) is None,
{
    let cs = chars_of(name);
    if cs.len() == 2 && cs[0] == '.' && cs[1] == '.' {
        proof {
            assert(cs@ == seq!['.', '.']);
        }
        return None;
    }
    proof {
        if cs@ == seq!['.', '.'] {
            assert(cs@[0] == '.' && cs@[1] == '.');
        }
    }
    match last_dot(&cs) {
        Some(i) => {
            if i == 0 {
                None
            } else {
                let e = slice_chars(cs.as_slice(), i + 1, cs.len());
                proof {
                    assert(e@ == cs@.skip(i + 1));
                }
                Some(e)
            }
        },
        None => None,
    }
}

fn extension_is(e: &Vec<char>, lit: &str) -> (r: bool)
    ensures
        r == (e@ == lit@),
{
    let l = chars_of(lit);
    text::chars_eq(e.as_slice(), l.as_slice())
}

/// Determine if a file has LSP support based on its extension.
pub fn has_lsp_support(file_path: &str) -> (r: bool)
    ensures
        r == supported_path(file_path@),
{
    let name = match file_name_of(file_path) {
        Some(n) => n,
        None => return false,
    };
    let e = match name_extension_of(name.as_str()) {
        Some(e) => e,
        None => return false,
    };
    extension_is(&e, "rs") || extension_is(&e, "ts") || extension_is(&e, "tsx")
        || extension_is(&e, "js") || extension_is(&e, "jsx") || extension_is(&e, "py")
        || extension_is(&e, "go") || extension_is(&e, "java") || extension_is(&e, "kt")
        || extension_is(&e, "c") || extension_is(&e, "cpp") || extension_is(&e, "h")
        || extension_is(&e, "hpp") || extension_is(&e, "cs") || extension_is(&e, "rb")
        || extension_is(&e, "swift") || extension_is(&e, "vue") || extension_is(&e, "svelte")
}

/// Determine the LSP server command for a given file extension.
pub fn lsp_server_for_extension(ext: &str) -> (r: Option<&'static str>)
    ensures
        r matches Some(s) ==> server_for(ext@) == Some(s@),
        r is None <==> server_for(ext@) is None,
{
    if str_eq(ext, "rs") {
        Some("rust-analyzer")
    } else if str_eq(ext, "ts") || str_eq(ext, "tsx") || str_eq(ext, "js") || str_eq(ext, "jsx") {
        Some("typescript-language-server")
    } else if str_eq(ext, "py") {
        Some("pyright-langserver")
    } else if str_eq(ext, "go") {
        Some("gopls")
    } else if str_eq(ext, "java") || str_eq(ext, "kt") {
        Some("jdtls")
    } else if str_eq(ext, "c") || str_eq(ext, "cpp") || str_eq(ext, "h") || str_eq(ext, "hpp") {
        Some("clangd")
    } else if str_eq(ext, "cs") {
        Some("omnisharp")
    } else if str_eq(ext, "rb") {
        Some("solargraph")
    } else if str_eq(ext, "swift") {
        Some("sourcekit-lsp")
    } else if str_eq(ext, "vue") {
        Some("vls")
    } else if str_eq(ext, "svelte") {
        Some("svelte-language-server")
    } else {
        None
    }
}

// ───────────────────────── helpers ─────────────────────────

/// The display name of an action.
pub open spec fn action_label(a: CodeAction) -> Seq<char> {
    match a {
        CodeAction::Rename { .. } => "Rename"@,
        CodeAction::GetDiagnostics { .. } => "Get diagnostics"@,
        CodeAction::FindReferences { .. } => "Find references"@,
        CodeAction::GoToDefinition { .. } => "Go to definition"@,
        CodeAction::AvailableActions { .. } => "Available actions"@,
        CodeAction::OrganizeImports { .. } => "Organize imports"@,
        CodeAction::Format { .. } => "Format"@,
    }
}

fn action_name(action: &CodeAction) -> (r: &'static str)
    ensures
        r@ == action_label(*action),
{
    match action {
        CodeAction::Rename { .. } => "Rename",
        CodeAction::GetDiagnostics { .. } => "Get diagnostics",
        CodeAction::FindReferences { .. } => "Find references",
        CodeAction::GoToDefinition { .. } => "Go to definition",
        CodeAction::AvailableActions { .. } => "Available actions",
        CodeAction::OrganizeImports { .. } => "Organize imports",
        CodeAction::Format { .. } => "Format",
    }
}

/// The number of distinct texts in `s`.
pub open spec fn distinct_count(s: Seq<Seq<char>>) -> nat
    decreases s.len(),
{
    if s.len() == 0 {
        0
    } else {
        distinct_count(s.drop_last()) + if s.drop_last().contains(s.last()) { 0nat } else { 1nat }
    }
}

/// The file names the edits touch, in order and with repetitions.
pub open spec fn edit_files(edits: Seq<TextEdit>) -> Seq<Seq<char>> {
    edits.map_values(|e: TextEdit| e.file@)
}

/// The number of distinct files the edits touch.
pub fn count_unique_files(edits: &[TextEdit]) -> (r: usize)
    ensures
        r == distinct_count(edit_files(edits@)),
{
    let mut count: usize = 0;
    let mut i: usize = 0;
    while i < edits.len()
        invariant
            i <= edits.len(),
            count <= i,
            count == distinct_count(edit_files(edits@).take(i as int)),
        decreases edits.len() - i,
    {
        let files = Ghost(edit_files(edits@));
        let mut seen = false;
        let mut j: usize = 0;
        while j < i
            invariant
                j <= i < edits.len(),
                files@ == edit_files(edits@),
                seen <==> files@.take(j as int).contains(files@[i as int]),
            decreases i - j,
        {
            let same = str_eq(edits[j].file.as_str(), edits[i].file.as_str());
            proof {
                assert(files@.take(j + 1) == files@.take(j as int).push(files@[j as int]));
                assert(files@[j as int] == edits@[j as int].file@);
                assert(files@[i as int] == edits@[i as int].file@);
                if same {
                    assert(files@.take(j + 1)[j as int] == files@[i as int]);
                } else if files@.take(j + 1).contains(files@[i as int]) {
                    let w = choose|w: int| 0 <= w < j + 1 && #[trigger] files@.take(j + 1)[w] == files@[i as int];
                    if w < j {
                        assert(files@.take(j as int)[w] == files@[i as int]);
                    }
                }
            }
            if same {
                seen = true;
            }
            j = j + 1;
        }
        proof {
            assert(files@.take(i + 1).drop_last() == files@.take(i as int));
            assert(files@.take(i + 1).last() == files@[i as int]);
        }
        if !seen {
            count = count + 1;
        }
        i = i + 1;
    }
    proof {
        assert(edit_files(edits@).take(edits@.len() as int) == edit_files(edits@));
    }
    count
}

/// The first line of `s` as `str::lines` yields it: the text before the
/// first `\n`, without a `\r` that directly precedes that `\n`; the whole
/// text when there is no `\n`.
pub open spec fn first_line(s: Seq<char>) -> Seq<char> {
    match text::first_occurrence(s, seq!['\n']) {
        Some(k) => if k > 0 && s[k - 1] == '\r' { s.take(k - 1) } else { s.take(k) },
        None => s,
    }
}

/// The number of leading characters of `s`, counted from `i`, whose UTF-8
/// encoding fits in `n` bytes.
pub open spec fn fit_chars(s: Seq<char>, n: nat, i: nat) -> nat
    decreases s.len() - i,
{
    if i < s.len() && text::byte_len(s.take((i + 1) as int)) <= n {
        fit_chars(s, n, i + 1)
    } else {
        i
    }
}

/// The first line of `s` cut to `max` bytes: kept whole when it fits,
/// otherwise its first `max - 3` bytes followed by `...`.
pub open spec fn truncate_text(s: Seq<char>, max: nat) -> Seq<char> {
    let f = first_line(s);
    if text::byte_len(f) <= max {
        f
    } else {
        f.take(fit_chars(f, (max - 3) as nat, 0) as int) + "..."@
    }
}

/// Cutting the first line of `s` at `max - 3` bytes falls between two
/// characters (or the line needs no cut), so the cut cannot panic.
pub open spec fn truncate_ok(s: Seq<char>, max: nat) -> bool {
    let f = first_line(s);
    text::byte_len(f) <= max
        || text::byte_len(f.take(fit_chars(f, (max - 3) as nat, 0) as int)) == max - 3
}

#[verifier::rlimit(40)]
fn first_line_of(s: &str) -> (r: Vec<char>)
    ensures
        r@ == first_line(s@),
{
    let cs = chars_of(s);
    let nl: Vec<char> = vec!['\n'];
    assert(nl@ == seq!['\n']);
    let found = find_chars(cs.as_slice(), nl.as_slice());
    match found {
        Some(k) => {
            assert(text::first_occurrence(s@, seq!['\n']) == Some(k as int));
            assert(k < cs.len()) by {
                assert(text::occurs_at(cs@, nl@, k as int));
            }
            if k > 0 && cs[k - 1] == '\r' {
                slice_chars(cs.as_slice(), 0, k - 1)
            } else {
                slice_chars(cs.as_slice(), 0, k)
            }
        },
        None => {
            assert(text::first_occurrence(s@, seq!['\n']) is None);
            cs
        },
    }
}

fn truncate(s: &str, max: usize) -> (r: String)
    requires
        3 <= max < usize::MAX,
        truncate_ok(s@, max as nat),
    ensures
        r@ == truncate_text(s@, max as nat),
{
    let f = first_line_of(s);
    let len = crate::plan_arg_interceptor::utf8_len(f.as_slice());
    let mut out = String::new();
    if len <= max {
        push_chars(&mut out, f.as_slice());
        return out;
    }
    let n: usize = max - 3;
    let mut acc: usize = 0;
    let mut i: usize = 0;
    while i < f.len() && acc + utf8_width_of(f[i]) <= n
        invariant
            i <= f.len(),
            acc == text::byte_len(f@.take(i as int)),
            acc <= n,
            n + 4 <= usize::MAX,
            fit_chars(f@, n as nat, i as nat) == fit_chars(f@, n as nat, 0),
        decreases f.len() - i,
    {
        proof {
            assert(f@.take(i + 1).drop_last() == f@.take(i as int));
        }
        acc = acc + utf8_width_of(f[i]);
        i = i + 1;
    }
    proof {
        if i < f.len() {
            assert(f@.take(i + 1).drop_last() == f@.take(i as int));
            assert(text::byte_len(f@.take(i + 1)) > n);
        }
    }
    let head = slice_chars(f.as_slice(), 0, i);
    push_chars(&mut out, head.as_slice());
    push_str(&mut out, "...");
    out
}

// ───────────────────────── rendering ─────────────────────────

/// The lines shown for edits.
pub open spec fn edit_line(e: TextEdit) -> Seq<char> {
    "  "@ + e.file@ + ":"@ + text::decimal(e.start_line as nat) + ":"@
        + text::decimal(e.start_col as nat) + " \u{2192} "@ + truncate_text(e.new_text@, 60) + "\n"@
}

/// The edit lines for all of `s`.
pub open spec fn edit_lines(s: Seq<TextEdit>) -> Seq<char>
    decreases s.len(),
{
    if s.len() == 0 { Seq::empty() } else { edit_lines(s.drop_last()) + edit_line(s.last()) }
}

/// The line shown for a location.
pub open spec fn location_line(l: Location) -> Seq<char> {
    "  "@ + l.file@ + ":"@ + text::decimal(l.line as nat) + ":"@ + text::decimal(l.column as nat) + "\n"@
}

/// The location lines for all of `s`.
pub open spec fn location_lines(s: Seq<Location>) -> Seq<char>
    decreases s.len(),
{
    if s.len() == 0 { Seq::empty() } else { location_lines(s.drop_last()) + location_line(s.last()) }
}

/// The line shown for an available action.
pub open spec fn item_line(it: ActionItem) -> Seq<char> {
    let kind = match it.kind { Some(k) => k@, None => Seq::empty() };
    let preferred = if it.is_preferred { " [preferred]"@ } else { Seq::empty() };
    "  \u{2022} "@ + it.title@ + " ("@ + kind + ")"@ + preferred + "\n"@
}

/// The action lines for all of `s`.
pub open spec fn item_lines(s: Seq<ActionItem>) -> Seq<char>
    decreases s.len(),
{
    if s.len() == 0 { Seq::empty() } else { item_lines(s.drop_last()) + item_line(s.last()) }
}

/// The marker shown in front of a diagnostic.
pub open spec fn severity_icon(s: DiagnosticSeverity) -> Seq<char> {
    match s {
        DiagnosticSeverity::Error => "\u{274c}"@,
        DiagnosticSeverity::Warning => "\u{26a0}\u{fe0f}"@,
        DiagnosticSeverity::Information => "\u{2139}\u{fe0f}"@,
        DiagnosticSeverity::Hint => "\u{1f4a1}"@,
    }
}

/// The line shown for a diagnostic.
pub open spec fn diagnostic_line(d: Diagnostic) -> Seq<char> {
    "  "@ + severity_icon(d.severity) + " "@ + text::decimal(d.line as nat) + ":"@
        + text::decimal(d.column as nat) + " \u{2014} "@ + d.message@ + "\n"@
}

/// The diagnostic lines for all of `s`.
pub open spec fn diagnostic_lines(s: Seq<Diagnostic>) -> Seq<char>
    decreases s.len(),
{
    if s.len() == 0 { Seq::empty() } else { diagnostic_lines(s.drop_last()) + diagnostic_line(s.last()) }
}

/// How many diagnostics of `s` have severity `sev`.
pub open spec fn severity_count(s: Seq<Diagnostic>, sev: DiagnosticSeverity) -> nat
    decreases s.len(),
{
    if s.len() == 0 {
        0
    } else {
        severity_count(s.drop_last(), sev) + if s.last().severity == sev { 1nat } else { 0nat }
    }
}

/// The first `n` elements of `s`, or all of them when there are fewer.
pub open spec fn first_n<T>(s: Seq<T>, n: int) -> Seq<T> {
    if s.len() <= n { s } else { s.take(n) }
}

/// The edits whose replacement text is shown all have a safe cut point.
pub open spec fn shown_edits_ok(edits: Seq<TextEdit>) -> bool {
    forall|i: int| 0 <= i < first_n(edits, 10).len() ==> truncate_ok(#[trigger] edits[i].new_text@, 60)
}

/// The text rendered for the result of an action.
pub open spec fn action_result_text(a: CodeAction, r: ActionResult) -> Seq<char> {
    match r {
        ActionResult::Edits(edits) => {
            let s = edits@;
            "\u{2705} "@ + action_label(a) + " completed \u{2014} "@
                + text::decimal(distinct_count(edit_files(s))) + " file(s) modified:\n"@
                + edit_lines(first_n(s, 10))
                + if s.len() > 10 { "  ... and "@ + text::decimal((s.len() - 10) as nat) + " more edits\n"@ } else { Seq::empty() }
        },
        ActionResult::Locations(locs) => {
            let s = locs@;
            "Found "@ + text::decimal(s.len()) + " reference(s):\n"@ + location_lines(first_n(s, 15))
                + if s.len() > 15 { "  ... and "@ + text::decimal((s.len() - 15) as nat) + " more\n"@ } else { Seq::empty() }
        },
        ActionResult::Actions(items) => {
            let s = items@;
            "Available code actions ("@ + text::decimal(s.len()) + "):\n"@ + item_lines(first_n(s, 10))
        },
        ActionResult::Diagnostics(diags) => {
            let s = diags@;
            "Diagnostics: "@ + text::decimal(severity_count(s, DiagnosticSeverity::Error)) + " error(s), "@
                + text::decimal(severity_count(s, DiagnosticSeverity::Warning)) + " warning(s)\n"@
                + diagnostic_lines(first_n(s, 10))
        },
        ActionResult::NotSupported(reason) => "\u{26a0}\u{fe0f} Action not supported: "@ + reason@ + "\n"@,
        ActionResult::Error(err) => "\u{274c} LSP error: "@ + err@ + "\n"@,
    }
}

/// What a result requires of its contents to be rendered without a panic.
pub open spec fn renderable(r: ActionResult) -> bool {
    match r {
        ActionResult::Edits(edits) => shown_edits_ok(edits@),
        _ => true,
    }
}

fn edit_line_text(e: &TextEdit) -> (r: String)
    requires
        truncate_ok(e.new_text@, 60),
    ensures
        r@ == edit_line(*e),
{
    let mut out = String::new();
    push_str(&mut out, "  ");
    push_str(&mut out, e.file.as_str());
    push_str(&mut out, ":");
    push_u64(&mut out, e.start_line as u64);
    push_str(&mut out, ":");
    push_u64(&mut out, e.start_col as u64);
    push_str(&mut out, " \u{2192} ");
    let t = truncate(e.new_text.as_str(), 60);
    push_str(&mut out, t.as_str());
    push_str(&mut out, "\n");
    out
}

fn location_line_text(l: &Location) -> (r: String)
    ensures
        r@ == location_line(*l),
{
    let mut out = String::new();
    push_str(&mut out, "  ");
    push_str(&mut out, l.file.as_str());
    push_str(&mut out, ":");
    push_u64(&mut out, l.line as u64);
    push_str(&mut out, ":");
    push_u64(&mut out, l.column as u64);
    push_str(&mut out, "\n");
    out
}

fn item_line_text(it: &ActionItem) -> (r: String)
    ensures
        r@ == item_line(*it),
{
    let mut out = String::new();
    push_str(&mut out, "  \u{2022} ");
    push_str(&mut out, it.title.as_str());
    push_str(&mut out, " (");
    match &it.kind {
        Some(k) => push_str(&mut out, k.as_str()),
        None => {},
    }
    push_str(&mut out, ")");
    if it.is_preferred {
        push_str(&mut out, " [preferred]");
    }
    push_str(&mut out, "\n");
    out
}

fn diagnostic_line_text(d: &Diagnostic) -> (r: String)
    ensures
        r@ == diagnostic_line(*d),
{
    let mut out = String::new();
    push_str(&mut out, "  ");
    let icon = match d.severity {
        DiagnosticSeverity::Error => "\u{274c}",
        DiagnosticSeverity::Warning => "\u{26a0}\u{fe0f}",
        DiagnosticSeverity::Information => "\u{2139}\u{fe0f}",
        DiagnosticSeverity::Hint => "\u{1f4a1}",
    };
    push_str(&mut out, icon);
    push_str(&mut out, " ");
    push_u64(&mut out, d.line as u64);
    push_str(&mut out, ":");
    push_u64(&mut out, d.column as u64);
    push_str(&mut out, " \u{2014} ");
    push_str(&mut out, d.message.as_str());
    push_str(&mut out, "\n");
    out
}

fn push_edits(out: &mut String, edits: &Vec<TextEdit>)
    requires
        shown_edits_ok(edits@),
    ensures
        final(out)@ == old(out)@ + edit_lines(first_n(edits@, 10))
            + if edits@.len() > 10 { "  ... and "@ + text::decimal((edits@.len() - 10) as nat) + " more edits\n"@ } else { Seq::empty() },
{
    let n: usize = if edits.len() < 10 { edits.len() } else { 10 };
    let ghost start = out@;
    let mut i: usize = 0;
    while i < n
        invariant
            i <= n,
            n as int == first_n(edits@, 10).len(),
            n <= edits.len(),
            shown_edits_ok(edits@),
            out@ == start + edit_lines(edits@.take(i as int)),
        decreases n - i,
    {
        proof {
            assert(edits@.take(i + 1).drop_last() == edits@.take(i as int));
            assert(truncate_ok(edits@[i as int].new_text@, 60));
        }
        let line = edit_line_text(&edits[i]);
        push_str(out, line.as_str());
        proof {
            assert(start + edit_lines(edits@.take(i + 1)) =~= start + edit_lines(edits@.take(i as int)) + line@);
        }
        i = i + 1;
    }
    proof {
        assert(edits@.take(n as int) == first_n(edits@, 10));
    }
    if edits.len() > 10 {
        push_str(out, "  ... and ");
        push_u64(out, (edits.len() - 10) as u64);
        push_str(out, " more edits\n");
    }
}

fn push_locations(out: &mut String, locs: &Vec<Location>)
    ensures
        final(out)@ == old(out)@ + location_lines(first_n(locs@, 15))
            + if locs@.len() > 15 { "  ... and "@ + text::decimal((locs@.len() - 15) as nat) + " more\n"@ } else { Seq::empty() },
{
    let n: usize = if locs.len() < 15 { locs.len() } else { 15 };
    let ghost start = out@;
    let mut i: usize = 0;
    while i < n
        invariant
            i <= n,
            n <= locs.len(),
            out@ == start + location_lines(locs@.take(i as int)),
        decreases n - i,
    {
        proof {
            assert(locs@.take(i + 1).drop_last() == locs@.take(i as int));
        }
        let line = location_line_text(&locs[i]);
        push_str(out, line.as_str());
        proof {
            assert(start + location_lines(locs@.take(i + 1)) =~= start + location_lines(locs@.take(i as int)) + line@);
        }
        i = i + 1;
    }
    proof {
        assert(locs@.take(n as int) == first_n(locs@, 15));
    }
    if locs.len() > 15 {
        push_str(out, "  ... and ");
        push_u64(out, (locs.len() - 15) as u64);
        push_str(out, " more\n");
    }
}

fn push_items(out: &mut String, items: &Vec<ActionItem>)
    ensures
        final(out)@ == old(out)@ + item_lines(first_n(items@, 10)),
{
    let n: usize = if items.len() < 10 { items.len() } else { 10 };
    let ghost start = out@;
    let mut i: usize = 0;
    while i < n
        invariant
            i <= n,
            n <= items.len(),
            out@ == start + item_lines(items@.take(i as int)),
        decreases n - i,
    {
        proof {
            assert(items@.take(i + 1).drop_last() == items@.take(i as int));
        }
        let line = item_line_text(&items[i]);
        push_str(out, line.as_str());
        proof {
            assert(start + item_lines(items@.take(i + 1)) =~= start + item_lines(items@.take(i as int)) + line@);
        }
        i = i + 1;
    }
    proof {
        assert(items@.take(n as int) == first_n(items@, 10));
    }
}

fn count_severity(diags: &Vec<Diagnostic>, sev: DiagnosticSeverity) -> (r: usize)
    ensures
        r == severity_count(diags@, sev),
{
    let mut count: usize = 0;
    let mut i: usize = 0;
    while i < diags.len()
        invariant
            i <= diags.len(),
            count <= i,
            count == severity_count(diags@.take(i as int), sev),
        decreases diags.len() - i,
    {
        proof {
            assert(diags@.take(i + 1).drop_last() == diags@.take(i as int));
        }
        let same = match (diags[i].severity, sev) {
            (DiagnosticSeverity::Error, DiagnosticSeverity::Error) => true,
            (DiagnosticSeverity::Warning, DiagnosticSeverity::Warning) => true,
            (DiagnosticSeverity::Information, DiagnosticSeverity::Information) => true,
            (DiagnosticSeverity::Hint, DiagnosticSeverity::Hint) => true,
            _ => false,
        };
        if same {
            count = count + 1;
        }
        i = i + 1;
    }
    proof {
        assert(diags@.take(diags@.len() as int) == diags@);
    }
    count
}

fn push_diagnostics(out: &mut String, diags: &Vec<Diagnostic>)
    ensures
        final(out)@ == old(out)@ + diagnostic_lines(first_n(diags@, 10)),
{
    let n: usize = if diags.len() < 10 { diags.len() } else { 10 };
    let ghost start = out@;
    let mut i: usize = 0;
    while i < n
        invariant
            i <= n,
            n <= diags.len(),
            out@ == start + diagnostic_lines(diags@.take(i as int)),
        decreases n - i,
    {
        proof {
            assert(diags@.take(i + 1).drop_last() == diags@.take(i as int));
        }
        let line = diagnostic_line_text(&diags[i]);
        push_str(out, line.as_str());
        proof {
            assert(start + diagnostic_lines(diags@.take(i + 1)) =~= start + diagnostic_lines(diags@.take(i as int)) + line@);
        }
        i = i + 1;
    }
    proof {
        assert(diags@.take(n as int) == first_n(diags@, 10));
    }
}

/// Render the result of a code action as text for the model.
pub fn format_action_result_for_prompt(action: &CodeAction, result: &ActionResult) -> (r: String)
    requires
        renderable(*result),
    ensures
        r@ == action_result_text(*action, *result),
{
    let mut out = String::new();
    match result {
        ActionResult::Edits(edits) => {
            push_str(&mut out, "\u{2705} ");
            push_str(&mut out, action_name(action));
            push_str(&mut out, " completed \u{2014} ");
            push_u64(&mut out, count_unique_files(edits.as_slice()) as u64);
            push_str(&mut out, " file(s) modified:\n");
            push_edits(&mut out, edits);
        },
        ActionResult::Locations(locs) => {
            push_str(&mut out, "Found ");
            push_u64(&mut out, locs.len() as u64);
            push_str(&mut out, " reference(s):\n");
            push_locations(&mut out, locs);
        },
        ActionResult::Actions(items) => {
            push_str(&mut out, "Available code actions (");
            push_u64(&mut out, items.len() as u64);
            push_str(&mut out, "):\n");
            push_items(&mut out, items);
        },
        ActionResult::Diagnostics(diags) => {
            let errors = count_severity(diags, DiagnosticSeverity::Error);
            let warnings = count_severity(diags, DiagnosticSeverity::Warning);
            push_str(&mut out, "Diagnostics: ");
            push_u64(&mut out, errors as u64);
            push_str(&mut out, " error(s), ");
            push_u64(&mut out, warnings as u64);
            push_str(&mut out, " warning(s)\n");
            push_diagnostics(&mut out, diags);
        },
        ActionResult::NotSupported(reason) => {
            push_str(&mut out, "\u{26a0}\u{fe0f} Action not supported: ");
            push_str(&mut out, reason.as_str());
            push_str(&mut out, "\n");
        },
        ActionResult::Error(err) => {
            push_str(&mut out, "\u{274c} LSP error: ");
            push_str(&mut out, err.as_str());
            push_str(&mut out, "\n");
        },
    }
    out
}

} // verus!
