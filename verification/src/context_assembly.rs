//! Automatic context assembly based on task type and environment.
//!
//! Before the model starts, relevant context is gathered and rendered as one
//! block: project hints, remembered facts, related files and documentation.
//! Which files exist is learnt by the caller; this module decides, from
//! those answers, what to report, and extracts keywords and file mentions
//! from the user's message.
use vstd::prelude::*;
use crate::text;
use crate::text::{
    chars_of, is_alphanumeric, is_whitespace, push_char, push_str, slice_chars, str_eq,
    string_of, to_lowercase,
};
use crate::plan_arg_interceptor::{paths_equal, same_path, utf8_len};

verus! {

/// The kind of work a task asks for.
#[derive(Debug, Clone, Copy, PartialEq, Eq)]
pub enum TaskType {
    Coding,
    Writing,
    DataAnalysis,
    Workflow,
    General,
}

/// Configuration for context auto-assembly.
#[derive(Debug, Clone)]
pub struct ContextAssemblyConfig {
    pub enabled: bool,
    /// Maximum total characters to inject as assembled context.
    pub max_chars: usize,
    /// Whether to include file-system heuristic context (nearby files, configs).
    pub include_fs_context: bool,
    /// Whether to query memory for relevant facts/episodes.
    pub include_memory: bool,
    /// Whether to include documentation search results.
    pub include_docs: bool,
}

impl Default for ContextAssemblyConfig {
    fn default() -> (r: Self)
        ensures
            r.enabled && r.max_chars == 4000 && r.include_fs_context && r.include_memory && r.include_docs,
    {
        ContextAssemblyConfig {
            enabled: true,
            max_chars: 4000,
            include_fs_context: true,
            include_memory: true,
            include_docs: true,
        }
    }
}

/// Assembled context ready for injection into the prompt.
#[derive(Debug, Clone)]
pub struct AssembledContext {
    /// Relevant facts from memory.
    pub facts: Vec<String>,
    /// Documentation snippets.
    pub docs_snippet: Option<String>,
    /// Nearby/related file paths for awareness.
    pub related_files: Vec<String>,
    /// Project-level metadata (language, framework, test command).
    pub project_hints: Vec<String>,
    /// Total character count of assembled content.
    pub total_chars: usize,
}

impl Default for AssembledContext {
    fn default() -> (r: Self)
        ensures
            r.facts@.len() == 0 && r.docs_snippet is None && r.related_files@.len() == 0
                && r.project_hints@.len() == 0 && r.total_chars == 0,
    {
        AssembledContext {
            facts: Vec::new(),
            docs_snippet: None,
            related_files: Vec::new(),
            project_hints: Vec::new(),
            total_chars: 0,
        }
    }
}

/// The texts of a list of strings.
pub open spec fn texts(v: Seq<String>) -> Seq<Seq<char>> {
    v.map_values(|s: String| s@)
}

/// Nothing was assembled.
pub open spec fn context_is_empty(c: AssembledContext) -> bool {
    c.facts@.len() == 0 && c.docs_snippet is None && c.related_files@.len() == 0 && c.project_hints@.len() == 0
}

/// One bullet line per item.
pub open spec fn bullets(items: Seq<Seq<char>>) -> Seq<char>
    decreases items.len(),
{
    if items.len() == 0 {
        Seq::empty()
    } else {
        bullets(items.drop_last()) + "  \u{2022} "@ + items.last() + "\n"@
    }
}

/// A titled list of bullets followed by a blank line; nothing for no items.
pub open spec fn section(title: Seq<char>, items: Seq<Seq<char>>) -> Seq<char> {
    if items.len() == 0 { Seq::empty() } else { title + bullets(items) + "\n"@ }
}

/// The documentation part of the block.
pub open spec fn docs_section(docs: Option<String>) -> Seq<char> {
    match docs {
        Some(d) => "Documentation:\n"@ + d@ + "\n"@,
        None => Seq::empty(),
    }
}

/// The rendered context block.
pub open spec fn context_block(c: AssembledContext) -> Seq<char> {
    CONTEXT_HEAD@ + section("Project:\n"@, texts(c.project_hints@))
        + section("Relevant knowledge:\n"@, texts(c.facts@))
        + section("Related files:\n"@, texts(c.related_files@)) + docs_section(c.docs_snippet)
        + CONTEXT_FOOT@
}

/// The opening rule of the context block.
pub const CONTEXT_HEAD: &'static str = "─── Context ────────────────────────────────────────\n";

/// The closing rule of the context block.
pub const CONTEXT_FOOT: &'static str = "────────────────────────────────────────────────────\n";

fn push_section(out: &mut String, title: &str, items: &Vec<String>)
    ensures
        final(out)@ == old(out)@ + section(title@, texts(items@)),
{
    if items.len() == 0 {
        return;
    }
    let ghost start = out@;
    push_str(out, title);
    let ghost after_title = out@;
    let mut i: usize = 0;
    while i < items.len()
        invariant
            i <= items.len(),
            out@ == after_title + bullets(texts(items@).take(i as int)),
            after_title == start + title@,
        decreases items.len() - i,
    {
        let ghost before = out@;
        push_str(out, "  \u{2022} ");
        push_str(out, items[i].as_str());
        push_str(out, "\n");
        proof {
            let t = texts(items@);
            assert(t.take(i + 1).drop_last() == t.take(i as int));
            assert(t.take(i + 1).last() == items@[i as int]@);
            assert(out@ =~= after_title + bullets(t.take(i + 1)));
        }
        i = i + 1;
    }
    push_str(out, "\n");
    proof {
        assert(texts(items@).take(items@.len() as int) == texts(items@));
        assert(out@ =~= start + (title@ + bullets(texts(items@)) + "\n"@));
    }
}

impl AssembledContext {
    /// Whether nothing was assembled.
    pub fn is_empty(&self) -> (r: bool)
        ensures
            r == context_is_empty(*self),
    {
        self.facts.len() == 0 && self.docs_snippet.is_none() && self.related_files.len() == 0
            && self.project_hints.len() == 0
    }

    /// Format the assembled context as a prompt injection block.
    pub fn format_for_prompt(&self) -> (r: Option<String>)
        ensures
            context_is_empty(*self) ==> r is None,
            !context_is_empty(*self) ==> (r matches Some(b) && b@ == context_block(*self)),
    {
        if self.is_empty() {
            return None;
        }
        let mut block = String::new();
        push_str(&mut block, CONTEXT_HEAD);
        push_section(&mut block, "Project:\n", &self.project_hints);
        push_section(&mut block, "Relevant knowledge:\n", &self.facts);
        push_section(&mut block, "Related files:\n", &self.related_files);
        match &self.docs_snippet {
            Some(docs) => {
                let ghost before = block@;
                push_str(&mut block, "Documentation:\n");
                push_str(&mut block, docs.as_str());
                push_str(&mut block, "\n");
                assert(block@ =~= before + docs_section(self.docs_snippet));
            },
            None => {},
        }
        push_str(&mut block, CONTEXT_FOOT);
        Some(block)
    }
}

// ───────────────────────── project hints ─────────────────────────

/// The marker files of a project and what each one says about it, in the
/// order they are reported.
pub open spec fn project_indicators() -> Seq<(Seq<char>, Seq<char>)> {
    seq![
        ("Cargo.toml"@, "Rust project (Cargo)"@),
        ("package.json"@, "Node.js/JavaScript project"@),
        ("pyproject.toml"@, "Python project (pyproject)"@),
        ("requirements.txt"@, "Python project (pip)"@),
        ("go.mod"@, "Go project"@),
        ("pom.xml"@, "Java project (Maven)"@),
        ("build.gradle"@, "Java/Kotlin project (Gradle)"@),
        ("Makefile"@, "Has Makefile"@),
        ("Dockerfile"@, "Has Docker configuration"@),
        ("docker-compose.yml"@, "Has Docker Compose"@),
        (".github/workflows"@, "Has GitHub Actions CI"@),
        ("tsconfig.json"@, "TypeScript project"@),
        (".eslintrc.json"@, "Has ESLint configuration"@),
        (".prettierrc"@, "Has Prettier configuration"@),
        ("jest.config.js"@, "Test framework: Jest"@),
        ("jest.config.ts"@, "Test framework: Jest"@),
        ("vitest.config.ts"@, "Test framework: Vitest"@),
        ("pytest.ini"@, "Test framework: pytest"@),
        ("setup.cfg"@, "Test framework: pytest/setuptools"@),
        (".mocharc.yml"@, "Test framework: Mocha"@),
    ]
}

/// The marker files that `detect_project_hints` looks for, in order, each
/// with the hint it gives.
pub fn project_indicator_files() -> (r: Vec<(&'static str, &'static str)>)
    ensures
        r@.map_values(|p: (&'static str, &'static str)| (p.0@, p.1@)) == project_indicators(),
{
    let r = vec![
        ("Cargo.toml", "Rust project (Cargo)"),
        ("package.json", "Node.js/JavaScript project"),
        ("pyproject.toml", "Python project (pyproject)"),
        ("requirements.txt", "Python project (pip)"),
        ("go.mod", "Go project"),
        ("pom.xml", "Java project (Maven)"),
        ("build.gradle", "Java/Kotlin project (Gradle)"),
        ("Makefile", "Has Makefile"),
        ("Dockerfile", "Has Docker configuration"),
        ("docker-compose.yml", "Has Docker Compose"),
        (".github/workflows", "Has GitHub Actions CI"),
        ("tsconfig.json", "TypeScript project"),
        (".eslintrc.json", "Has ESLint configuration"),
        (".prettierrc", "Has Prettier configuration"),
        ("jest.config.js", "Test framework: Jest"),
        ("jest.config.ts", "Test framework: Jest"),
        ("vitest.config.ts", "Test framework: Vitest"),
        ("pytest.ini", "Test framework: pytest"),
        ("setup.cfg", "Test framework: pytest/setuptools"),
        (".mocharc.yml", "Test framework: Mocha"),
    ];
    assert(r@.map_values(|p: (&'static str, &'static str)| (p.0@, p.1@)) =~= project_indicators());
    r
}

/// Whether `name` is among the texts of `found`.
pub open spec fn listed(found: Seq<String>, name: Seq<char>) -> bool {
    exists|j: int| 0 <= j < found.len() && #[trigger] found[j]@ == name
}

/// The hints for the first `n` indicators whose marker file was found.
pub open spec fn hints_upto(found: Seq<String>, n: int) -> Seq<Seq<char>>
    decreases n,
{
    if n <= 0 {
        Seq::empty()
    } else {
        let h = hints_upto(found, n - 1);
        let (file, hint) = project_indicators()[n - 1];
        if listed(found, file) { h.push(hint) } else { h }
    }
}

fn is_listed(found: &[String], name: &str) -> (r: bool)
    ensures
        r == listed(found@, name@),
{
    let mut j: usize = 0;
    while j < found.len()
        invariant
            j <= found.len(),
            forall|k: int| 0 <= k < j ==> found@[k]@ != name@,
        decreases found.len() - j,
    {
        if str_eq(found[j].as_str(), name) {
            return true;
        }
        j = j + 1;
    }
    false
}

/// Project characteristics, given the marker files found in the working
/// directory (as names relative to it, such as `Cargo.toml`): one hint per
/// indicator whose marker was found, in the indicators' order.
pub fn detect_project_hints(found: &[String]) -> (r: Vec<String>)
    ensures
        texts(r@) == hints_upto(found@, project_indicators().len() as int),
{
    let table = project_indicator_files();
    let mut hints: Vec<String> = Vec::new();
    let mut k: usize = 0;
    while k < table.len()
        invariant
            k <= table.len(),
            table@.map_values(|p: (&'static str, &'static str)| (p.0@, p.1@)) == project_indicators(),
            texts(hints@) == hints_upto(found@, k as int),
        decreases table.len() - k,
    {
        let (file, hint) = table[k];
        proof {
            assert(project_indicators()[k as int] == (file@, hint@));
        }
        if is_listed(found, file) {
            hints.push(text::string_from(hint));
            proof {
                assert(texts(hints@) =~= hints_upto(found@, k as int).push(hint@));
            }
        }
        k = k + 1;
    }
    hints
}

// ───────────────────────── file mentions ─────────────────────────

/// The characters trimmed from both ends of a mentioned word.
pub open spec fn is_quote_char(c: char) -> bool {
    c == '\'' || c == '"' || c == '`' || c == ','
}

/// A character that may appear in a file path mention.
pub open spec fn path_char(c: char) -> bool {
    text::alphanumeric(c) || c == '/' || c == '.' || c == '_' || c == '-'
}

/// Whether `s` looks like a file path: 3 to 200 bytes, holding a `/` or a
/// `.`, not starting with `http` or `//`, and made of path characters only.
pub open spec fn looks_like_path(s: Seq<char>) -> bool {
    &&& 3 <= text::byte_len(s) <= 200
    &&& (s.contains('/') || s.contains('.'))
    &&& !text::has_prefix(s, "http"@)
    &&& !text::has_prefix(s, "//"@)
    &&& forall|i: int| 0 <= i < s.len() ==> path_char(#[trigger] s[i])
}

fn starts_with_lit(cs: &Vec<char>, lit: &str) -> (r: bool)
    ensures
        r == text::has_prefix(cs@, lit@),
{
    let l = chars_of(lit);
    text::starts_with_chars(cs.as_slice(), l.as_slice())
}

fn looks_like_path_chars(cs: &Vec<char>) -> (r: bool)
    ensures
        r == looks_like_path(cs@),
{
    let n = utf8_len(cs.as_slice());
    if n < 3 || n > 200 {
        return false;
    }
    let has_sep = text::contains_char(cs.as_slice(), '/') || text::contains_char(cs.as_slice(), '.');
    if !has_sep || starts_with_lit(cs, "http") || starts_with_lit(cs, "//") {
        return false;
    }
    let mut i: usize = 0;
    while i < cs.len()
        invariant
            i <= cs.len(),
            forall|j: int| 0 <= j < i ==> path_char(#[trigger] cs@[j]),
        decreases cs.len() - i,
    {
        let c = cs[i];
        if !(is_alphanumeric(c) || c == '/' || c == '.' || c == '_' || c == '-') {
            return false;
        }
        i = i + 1;
    }
    true
}

/// Whether `s` looks like a file path.
pub fn looks_like_file_path(s: &str) -> (r: bool)
    ensures
        r == looks_like_path(s@),
{
    let cs = chars_of(s);
    looks_like_path_chars(&cs)
}

fn trim_quotes(cs: &Vec<char>) -> (r: Vec<char>)
    ensures
        r@ == text::trim_by(cs@, |c: char| is_quote_char(c)),
{
    let ghost p = |c: char| is_quote_char(c);
    let mut a: usize = 0;
    assert(cs@.subrange(0, cs@.len() as int) == cs@);
    while a < cs.len() && (cs[a] == '\'' || cs[a] == '"' || cs[a] == '`' || cs[a] == ',')
        invariant
            a <= cs.len(),
            p == (|c: char| is_quote_char(c)),
            text::strip_front(cs@.subrange(a as int, cs@.len() as int), p) == text::strip_front(cs@, p),
        decreases cs.len() - a,
    {
        proof {
            let sub = cs@.subrange(a as int, cs@.len() as int);
            assert(sub[0] == cs@[a as int]);
            assert(p(sub[0]));
            assert(sub.drop_first() == cs@.subrange(a + 1, cs@.len() as int));
        }
        a = a + 1;
    }
    proof {
        let sub = cs@.subrange(a as int, cs@.len() as int);
        if a < cs.len() {
            assert(sub[0] == cs@[a as int]);
            assert(!p(sub[0]));
        }
        assert(text::strip_front(sub, p) == sub);
    }
    let ghost t = cs@.subrange(a as int, cs@.len() as int);
    let mut b: usize = cs.len();
    while b > a && (cs[b - 1] == '\'' || cs[b - 1] == '"' || cs[b - 1] == '`' || cs[b - 1] == ',')
        invariant
            a <= b <= cs.len(),
            p == (|c: char| is_quote_char(c)),
            t == cs@.subrange(a as int, cs@.len() as int),
            text::strip_back(cs@.subrange(a as int, b as int), p) == text::strip_back(t, p),
        decreases b - a,
    {
        proof {
            let sub = cs@.subrange(a as int, b as int);
            assert(sub.last() == cs@[b - 1]);
            assert(p(sub.last()));
            assert(sub.drop_last() == cs@.subrange(a as int, b - 1));
        }
        b = b - 1;
    }
    proof {
        let sub = cs@.subrange(a as int, b as int);
        if b > a {
            assert(sub.last() == cs@[b - 1]);
            assert(!p(sub.last()));
        }
        assert(text::strip_back(sub, p) == sub);
    }
    slice_chars(cs.as_slice(), a, b)
}

/// The words of a split that name files: each non-empty word, with quotes
/// and commas trimmed from its ends, that looks like a file path.
pub open spec fn mentions_in(ps: Seq<Seq<char>>) -> Seq<Seq<char>>
    decreases ps.len(),
{
    if ps.len() == 0 {
        Seq::empty()
    } else {
        let r = mentions_in(ps.drop_last());
        let w = text::trim_by(ps.last(), |c: char| is_quote_char(c));
        if ps.last().len() > 0 && looks_like_path(w) { r.push(w) } else { r }
    }
}

/// The file paths mentioned in a message, in order: its whitespace-separated
/// words, trimmed of quotes and commas, that look like file paths.
pub open spec fn mentioned_paths(message: Seq<char>) -> Seq<Seq<char>> {
    mentions_in(text::split_by(message, |c: char| text::is_ws(c)))
}

fn add_mention(out: &mut Vec<String>, word: &Vec<char>)
    ensures
        texts(final(out)@) == ({
            let w = text::trim_by(word@, |c: char| is_quote_char(c));
            if word@.len() > 0 && looks_like_path(w) { texts(old(out)@).push(w) } else { texts(old(out)@) }
        }),
{
    if word.len() > 0 {
        let w = trim_quotes(word);
        if looks_like_path_chars(&w) {
            out.push(string_of(w.as_slice()));
            proof {
                assert(texts(out@) =~= texts(old(out)@).push(w@));
            }
        }
    }
}

/// The file paths mentioned in a user message.
pub fn mentioned_file_paths(user_message: &str) -> (r: Vec<String>)
    ensures
        texts(r@) == mentioned_paths(user_message@),
{
    let cs = chars_of(user_message);
    let ghost sep = |c: char| text::is_ws(c);
    let ghost mut done: Seq<Seq<char>> = Seq::empty();
    let mut cur: Vec<char> = Vec::new();
    let mut out: Vec<String> = Vec::new();
    proof {
        assert(cs@.take(0) == Seq::<char>::empty());
        assert(text::split_by(cs@.take(0), sep) =~= done.push(cur@));
    }
    let mut i: usize = 0;
    while i < cs.len()
        invariant
            i <= cs.len(),
            sep == (|c: char| text::is_ws(c)),
            text::split_by(cs@.take(i as int), sep) == done.push(cur@),
            texts(out@) == mentions_in(done),
        decreases cs.len() - i,
    {
        proof {
            text::lemma_split_by_step(cs@, sep, i as int, done, cur@);
        }
        let c = cs[i];
        if is_whitespace(c) {
            add_mention(&mut out, &cur);
            proof {
                assert(done.push(cur@).drop_last() == done);
                done = done.push(cur@);
            }
            cur = Vec::new();
            proof {
                assert(cur@ == Seq::<char>::empty());
            }
        } else {
            cur.push(c);
        }
        i = i + 1;
    }
    add_mention(&mut out, &cur);
    proof {
        assert(cs@.take(cs@.len() as int) == cs@);
        assert(done.push(cur@).drop_last() == done);
    }
    out
}

// ───────────────────────── related files ─────────────────────────

/// A path, already resolved against the working directory, and whether a
/// file exists there.
#[derive(Debug, Clone)]
pub struct Candidate {
    pub path: String,
    pub exists: bool,
}

/// The configuration files worth looking at for a kind of task.
pub open spec fn task_configs(t: TaskType) -> Seq<Seq<char>> {
    match t {
        TaskType::Coding => seq!["tsconfig.json"@, "Cargo.toml"@, "package.json"@, "pyproject.toml"@],
        TaskType::Workflow => seq![
            ".github/workflows/ci.yml"@,
            ".github/workflows/main.yml"@,
            "Makefile"@,
            "docker-compose.yml"@,
        ],
        _ => Seq::empty(),
    }
}

/// The configuration files worth looking at for a kind of task, relative
/// to the working directory.
pub fn task_config_files(task_type: TaskType) -> (r: Vec<&'static str>)
    ensures
        r@.map_values(|s: &'static str| s@) == task_configs(task_type),
{
    let r = match task_type {
        TaskType::Coding => vec!["tsconfig.json", "Cargo.toml", "package.json", "pyproject.toml"],
        TaskType::Workflow => vec![
            ".github/workflows/ci.yml",
            ".github/workflows/main.yml",
            "Makefile",
            "docker-compose.yml",
        ],
        _ => Vec::new(),
    };
    assert(r@.map_values(|s: &'static str| s@) =~= task_configs(task_type));
    r
}

/// Some file already chosen is the same path as `p`.
pub open spec fn has_same_path(files: Seq<Seq<char>>, p: Seq<char>) -> bool {
    exists|j: int| 0 <= j < files.len() && same_path(#[trigger] files[j], p)
}

/// The mentioned candidates kept: each existing one while fewer than `max`
/// files are chosen.
pub open spec fn keep_mentioned(c: Seq<Candidate>, max: nat) -> Seq<Seq<char>>
    decreases c.len(),
{
    if c.len() == 0 {
        Seq::empty()
    } else {
        let a = keep_mentioned(c.drop_last(), max);
        if c.last().exists && a.len() < max { a.push(c.last().path@) } else { a }
    }
}

/// Whether a configuration candidate is taken after `files`: it exists,
/// there is room, and it is not the same path as a file already chosen.
pub open spec fn takes(files: Seq<Seq<char>>, c: Candidate, max: nat) -> bool {
    c.exists && files.len() < max && !has_same_path(files, c.path@)
}

/// Adding every configuration candidate that is taken, in order.
pub open spec fn add_all(files: Seq<Seq<char>>, c: Seq<Candidate>, max: nat) -> Seq<Seq<char>>
    decreases c.len(),
{
    if c.len() == 0 {
        files
    } else {
        let a = add_all(files, c.drop_last(), max);
        if takes(a, c.last(), max) { a.push(c.last().path@) } else { a }
    }
}

/// Adding the first configuration candidate that is taken, if any.
pub open spec fn add_first(files: Seq<Seq<char>>, c: Seq<Candidate>, max: nat) -> Seq<Seq<char>>
    decreases c.len(),
{
    if c.len() == 0 {
        files
    } else if takes(files, c[0], max) {
        files.push(c[0].path@)
    } else {
        add_first(files, c.drop_first(), max)
    }
}

/// The related files chosen for a task.
pub open spec fn related_files(t: TaskType, mentioned: Seq<Candidate>, configs: Seq<Candidate>, max: nat) -> Seq<Seq<char>> {
    let a = keep_mentioned(mentioned, max);
    match t {
        TaskType::Coding => add_first(a, configs, max),
        TaskType::Workflow => add_all(a, configs, max),
        _ => a,
    }
}

fn has_same(files: &Vec<String>, p: &str) -> (r: bool)
    ensures
        r == has_same_path(texts(files@), p@),
{
    let mut j: usize = 0;
    while j < files.len()
        invariant
            j <= files.len(),
            forall|k: int| 0 <= k < j ==> !same_path(#[trigger] texts(files@)[k], p@),
        decreases files.len() - j,
    {
        let same = paths_equal(files[j].as_str(), p);
        proof {
            assert(texts(files@)[j as int] == files@[j as int]@);
        }
        if same {
            return true;
        }
        j = j + 1;
    }
    false
}

/// Choose the files likely related to a task. `mentioned` are the paths
/// mentioned in the user's message and `configs` the task's configuration
/// files, each resolved against the working directory and checked for
/// existence. Mentioned files that exist come first; then, for a coding
/// task the first new existing configuration file, for a workflow task
/// every new existing one. At most `max_files` files are chosen.
pub fn discover_related_files(
    task_type: TaskType,
    mentioned: &[Candidate],
    configs: &[Candidate],
    max_files: usize,
) -> (r: Vec<String>)
    ensures
        texts(r@) == related_files(task_type, mentioned@, configs@, max_files as nat),
{
    let mut files: Vec<String> = Vec::new();
    let mut i: usize = 0;
    while i < mentioned.len()
        invariant
            i <= mentioned.len(),
            texts(files@) == keep_mentioned(mentioned@.take(i as int), max_files as nat),
        decreases mentioned.len() - i,
    {
        proof {
            assert(mentioned@.take(i + 1).drop_last() == mentioned@.take(i as int));
        }
        if mentioned[i].exists && files.len() < max_files {
            files.push(mentioned[i].path.clone());
            proof {
                assert(texts(files@) =~= keep_mentioned(mentioned@.take(i as int), max_files as nat).push(mentioned@[i as int].path@));
            }
        }
        i = i + 1;
    }
    proof {
        assert(mentioned@.take(mentioned@.len() as int) == mentioned@);
    }
    let ghost kept = texts(files@);
    match task_type {
        TaskType::Coding => {
            let mut k: usize = 0;
            assert(configs@.skip(0) == configs@);
            while k < configs.len()
                invariant
                    k <= configs.len(),
                    texts(files@) == kept,
                    task_type == TaskType::Coding,
                    kept == keep_mentioned(mentioned@, max_files as nat),
                    add_first(kept, configs@, max_files as nat) == add_first(kept, configs@.skip(k as int), max_files as nat),
                decreases configs.len() - k,
            {
                proof {
                    assert(configs@.skip(k as int)[0] == configs@[k as int]);
                    assert(configs@.skip(k as int).drop_first() == configs@.skip(k + 1));
                }
                let c = &configs[k];
                if c.exists && files.len() < max_files && !has_same(&files, c.path.as_str()) {
                    files.push(c.path.clone());
                    proof {
                        assert(texts(files@) =~= kept.push(c.path@));
                    }
                    return files;
                }
                k = k + 1;
            }
            proof {
                assert(configs@.skip(configs@.len() as int) == Seq::<Candidate>::empty());
            }
        },
        TaskType::Workflow => {
            let mut k: usize = 0;
            while k < configs.len()
                invariant
                    k <= configs.len(),
                    texts(files@) == add_all(kept, configs@.take(k as int), max_files as nat),
                decreases configs.len() - k,
            {
                proof {
                    assert(configs@.take(k + 1).drop_last() == configs@.take(k as int));
                }
                let c = &configs[k];
                if c.exists && files.len() < max_files && !has_same(&files, c.path.as_str()) {
                    files.push(c.path.clone());
                    proof {
                        assert(texts(files@) =~= add_all(kept, configs@.take(k as int), max_files as nat).push(c.path@));
                    }
                }
                k = k + 1;
            }
            proof {
                assert(configs@.take(configs@.len() as int) == configs@);
            }
        },
        _ => {},
    }
    files
}

// ───────────────────────── keywords ─────────────────────────

/// Common words that carry no topic.
pub open spec fn stop_word(w: Seq<char>) -> bool {
    ||| w == "the"@ ||| w == "a"@ ||| w == "an"@ ||| w == "is"@ ||| w == "are"@ ||| w == "was"@
    ||| w == "were"@ ||| w == "be"@ ||| w == "been"@ ||| w == "being"@ ||| w == "have"@
    ||| w == "has"@ ||| w == "had"@ ||| w == "do"@ ||| w == "does"@ ||| w == "did"@
    ||| w == "will"@ ||| w == "would"@ ||| w == "could"@ ||| w == "should"@ ||| w == "may"@
    ||| w == "might"@ ||| w == "shall"@ ||| w == "can"@ ||| w == "to"@ ||| w == "of"@
    ||| w == "in"@ ||| w == "for"@ ||| w == "on"@ ||| w == "with"@ ||| w == "at"@ ||| w == "by"@
    ||| w == "from"@ ||| w == "as"@ ||| w == "into"@ ||| w == "through"@ ||| w == "during"@
    ||| w == "before"@ ||| w == "after"@ ||| w == "above"@ ||| w == "below"@ ||| w == "between"@
    ||| w == "and"@ ||| w == "but"@ ||| w == "or"@ ||| w == "nor"@ ||| w == "not"@
    ||| w == "so"@ ||| w == "yet"@ ||| w == "both"@ ||| w == "either"@ ||| w == "neither"@
    ||| w == "each"@ ||| w == "this"@ ||| w == "that"@ ||| w == "these"@ ||| w == "those"@
    ||| w == "it"@ ||| w == "its"@ ||| w == "my"@ ||| w == "your"@ ||| w == "his"@
    ||| w == "her"@ ||| w == "our"@ ||| w == "their"@ ||| w == "what"@ ||| w == "which"@
    ||| w == "who"@ ||| w == "whom"@ ||| w == "whose"@ ||| w == "i"@ ||| w == "me"@
    ||| w == "we"@ ||| w == "us"@ ||| w == "you"@ ||| w == "he"@ ||| w == "she"@
    ||| w == "they"@ ||| w == "them"@ ||| w == "please"@ ||| w == "help"@ ||| w == "want"@
    ||| w == "need"@ ||| w == "like"@ ||| w == "just"@ ||| w == "make"@ ||| w == "get"@
}

fn is_stop_word(w: &str) -> (r: bool)
    ensures
        r == stop_word(w@),
{
    str_eq(w, "the") || str_eq(w, "a") || str_eq(w, "an") || str_eq(w, "is") || str_eq(w, "are")
        || str_eq(w, "was") || str_eq(w, "were") || str_eq(w, "be") || str_eq(w, "been")
        || str_eq(w, "being") || str_eq(w, "have") || str_eq(w, "has") || str_eq(w, "had")
        || str_eq(w, "do") || str_eq(w, "does") || str_eq(w, "did") || str_eq(w, "will")
        || str_eq(w, "would") || str_eq(w, "could") || str_eq(w, "should") || str_eq(w, "may")
        || str_eq(w, "might") || str_eq(w, "shall") || str_eq(w, "can") || str_eq(w, "to")
        || str_eq(w, "of") || str_eq(w, "in") || str_eq(w, "for") || str_eq(w, "on")
        || str_eq(w, "with") || str_eq(w, "at") || str_eq(w, "by") || str_eq(w, "from")
        || str_eq(w, "as") || str_eq(w, "into") || str_eq(w, "through") || str_eq(w, "during")
        || str_eq(w, "before") || str_eq(w, "after") || str_eq(w, "above") || str_eq(w, "below")
        || str_eq(w, "between") || str_eq(w, "and") || str_eq(w, "but") || str_eq(w, "or")
        || str_eq(w, "nor") || str_eq(w, "not") || str_eq(w, "so") || str_eq(w, "yet")
        || str_eq(w, "both") || str_eq(w, "either") || str_eq(w, "neither") || str_eq(w, "each")
        || str_eq(w, "this") || str_eq(w, "that") || str_eq(w, "these") || str_eq(w, "those")
        || str_eq(w, "it") || str_eq(w, "its") || str_eq(w, "my") || str_eq(w, "your")
        || str_eq(w, "his") || str_eq(w, "her") || str_eq(w, "our") || str_eq(w, "their")
        || str_eq(w, "what") || str_eq(w, "which") || str_eq(w, "who") || str_eq(w, "whom")
        || str_eq(w, "whose") || str_eq(w, "i") || str_eq(w, "me") || str_eq(w, "we")
        || str_eq(w, "us") || str_eq(w, "you") || str_eq(w, "he") || str_eq(w, "she")
        || str_eq(w, "they") || str_eq(w, "them") || str_eq(w, "please") || str_eq(w, "help")
        || str_eq(w, "want") || str_eq(w, "need") || str_eq(w, "like") || str_eq(w, "just")
        || str_eq(w, "make") || str_eq(w, "get")
}

/// The characters that separate keywords: all but alphanumerics, `_`, `-`
/// and `.`.
pub open spec fn keyword_sep(c: char) -> bool {
    !(text::alphanumeric(c) || c == '_' || c == '-' || c == '.')
}

/// A piece is a keyword when it has at least 3 bytes and its lowercase form
/// is not a stop word.
pub open spec fn is_keyword(w: Seq<char>) -> bool {
    text::byte_len(w) >= 3 && !stop_word(text::lowercase_of(w))
}

/// The keywords among the pieces, in order.
pub open spec fn keywords_in(ps: Seq<Seq<char>>) -> Seq<Seq<char>>
    decreases ps.len(),
{
    if ps.len() == 0 {
        Seq::empty()
    } else {
        let r = keywords_in(ps.drop_last());
        if is_keyword(ps.last()) { r.push(ps.last()) } else { r }
    }
}

/// The first ten keywords of a message.
pub open spec fn message_keywords(message: Seq<char>) -> Seq<Seq<char>> {
    let k = keywords_in(text::split_by(message, |c: char| keyword_sep(c)));
    if k.len() <= 10 { k } else { k.take(10) }
}

fn add_keyword(out: &mut Vec<String>, piece: &Vec<char>, ghost_all: Ghost<Seq<Seq<char>>>)
    requires
        texts(old(out)@) == (if ghost_all@.len() <= 10 { ghost_all@ } else { ghost_all@.take(10) }),
    ensures
        ({
            let all = if is_keyword(piece@) { ghost_all@.push(piece@) } else { ghost_all@ };
            texts(final(out)@) == (if all.len() <= 10 { all } else { all.take(10) })
        }),
{
    let n = utf8_len(piece.as_slice());
    if n < 3 {
        return;
    }
    let s = string_of(piece.as_slice());
    let lower = to_lowercase(s.as_str());
    if is_stop_word(lower.as_str()) {
        return;
    }
    if out.len() < 10 {
        proof {
            assert(texts(out@).len() == out@.len());
            if ghost_all@.len() > 10 {
                assert(ghost_all@.take(10).len() == 10);
            }
            assert(texts(out@) == ghost_all@);
        }
        out.push(s);
        proof {
            assert(texts(out@) =~= ghost_all@.push(piece@));
        }
    } else {
        proof {
            assert(ghost_all@.push(piece@).take(10) =~= ghost_all@.take(10));
        }
    }
}

/// Extract keywords from a user message for memory/docs lookup: the pieces
/// between separators that have at least 3 bytes and are not stop words,
/// at most ten of them.
pub fn extract_keywords(message: &str) -> (r: Vec<String>)
    ensures
        texts(r@) == message_keywords(message@),
{
    let cs = chars_of(message);
    let ghost sep = |c: char| keyword_sep(c);
    let ghost mut done: Seq<Seq<char>> = Seq::empty();
    let mut cur: Vec<char> = Vec::new();
    let mut out: Vec<String> = Vec::new();
    proof {
        assert(cs@.take(0) == Seq::<char>::empty());
        assert(text::split_by(cs@.take(0), sep) =~= done.push(cur@));
        assert(texts(out@) =~= keywords_in(done));
    }
    let mut i: usize = 0;
    while i < cs.len()
        invariant
            i <= cs.len(),
            sep == (|c: char| keyword_sep(c)),
            text::split_by(cs@.take(i as int), sep) == done.push(cur@),
            texts(out@) == (if keywords_in(done).len() <= 10 { keywords_in(done) } else { keywords_in(done).take(10) }),
        decreases cs.len() - i,
    {
        proof {
            text::lemma_split_by_step(cs@, sep, i as int, done, cur@);
        }
        let c = cs[i];
        if !(is_alphanumeric(c) || c == '_' || c == '-' || c == '.') {
            add_keyword(&mut out, &cur, Ghost(keywords_in(done)));
            proof {
                assert(done.push(cur@).drop_last() == done);
                done = done.push(cur@);
            }
            cur = Vec::new();
            proof {
                assert(cur@ == Seq::<char>::empty());
            }
        } else {
            cur.push(c);
        }
        i = i + 1;
    }
    add_keyword(&mut out, &cur, Ghost(keywords_in(done)));
    proof {
        assert(cs@.take(cs@.len() as int) == cs@);
        assert(done.push(cur@).drop_last() == done);
    }
    out
}

} // verus!
