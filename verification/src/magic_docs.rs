//! On-demand documentation injection for agent prompts.
//!
//! Markdown documents are indexed by the keywords of their headers and file
//! name; a query scores every document by keyword hits and by the query
//! words its text contains, and the best documents are cut to a size budget
//! and rendered for injection. Reading the documents from disk is left to
//! the caller, which hands each one to [`DocIndex::add_entry`].
use vstd::prelude::*;
use crate::text;
use crate::text::{chars_of, is_whitespace, push_str, slice_chars, str_contains, str_eq, string_of, to_lowercase};
use crate::lsp_actions::{fit_chars, last_index_of};
use crate::plan_arg_interceptor::{utf8_len, utf8_width_of};

verus! {

/// A single indexed documentation entry.
#[derive(Debug, Clone)]
pub struct DocEntry {
    pub id: String,
    pub title: String,
    pub headers: Vec<String>,
    pub content: String,
    pub source_path: String,
    pub char_count: usize,
}

/// Configuration for the documentation injection feature.
#[derive(Debug, Clone)]
pub struct MagicDocsConfig {
    pub enabled: bool,
    pub docs_dir: String,
    pub max_injection_chars: usize,
}

impl MagicDocsConfig {
    /// The configuration for documents kept in `docs_dir`: enabled, with a
    /// budget of 4000 bytes.
    pub fn new(docs_dir: String) -> (r: Self)
        ensures
            r.enabled && r.docs_dir == docs_dir && r.max_injection_chars == 4000,
    {
        MagicDocsConfig { enabled: true, docs_dir, max_injection_chars: 4000 }
    }
}

/// The texts of a list of strings.
pub open spec fn texts(v: Seq<String>) -> Seq<Seq<char>> {
    v.map_values(|s: String| s@)
}

// ───────────────────────── headers and keywords ─────────────────────────

/// The header text of a line starting with `#`: the `#`s removed, then trimmed.
pub open spec fn header_text(line: Seq<char>) -> Seq<char> {
    text::trim(text::strip_front(line, |c: char| c == '#'))
}

/// The headers among lines: those starting with `#` whose header text is
/// not empty.
pub open spec fn headers_in(lines: Seq<Seq<char>>) -> Seq<Seq<char>>
    decreases lines.len(),
{
    if lines.len() == 0 {
        Seq::empty()
    } else {
        let h = headers_in(lines.drop_last());
        let l = lines.last();
        if l.len() > 0 && l[0] == '#' && header_text(l).len() > 0 { h.push(header_text(l)) } else { h }
    }
}

/// The Markdown headers of a document, in order.
pub open spec fn doc_headers(content: Seq<char>) -> Seq<Seq<char>> {
    headers_in(text::split_by(content, |c: char| c == '\n'))
}

/// Keywords from words: the lowercase form of each, kept when it has at
/// least 3 bytes; empty words are skipped when `skip_empty` holds.
pub open spec fn keywords_of(words: Seq<Seq<char>>, skip_empty: bool) -> Seq<Seq<char>>
    decreases words.len(),
{
    if words.len() == 0 {
        Seq::empty()
    } else {
        let k = keywords_of(words.drop_last(), skip_empty);
        let w = words.last();
        if (w.len() > 0 || !skip_empty) && text::byte_len(text::lowercase_of(w)) >= 3 {
            k.push(text::lowercase_of(w))
        } else {
            k
        }
    }
}

/// The keywords of a list of headers: those of their whitespace-separated words.
pub open spec fn header_keywords(headers: Seq<Seq<char>>) -> Seq<Seq<char>>
    decreases headers.len(),
{
    if headers.len() == 0 {
        Seq::empty()
    } else {
        header_keywords(headers.drop_last())
            + keywords_of(text::split_by(headers.last(), |c: char| text::is_ws(c)), true)
    }
}

/// The keywords of a document id: those of its parts between `-` and `_`.
pub open spec fn id_keywords(id: Seq<char>) -> Seq<Seq<char>> {
    keywords_of(text::split_by(id, |c: char| c == '-' || c == '_'), false)
}

/// All keywords a document is indexed under, with repetitions.
pub open spec fn doc_keywords(id: Seq<char>, content: Seq<char>) -> Seq<Seq<char>> {
    header_keywords(doc_headers(content)) + id_keywords(id)
}

fn header_of(line: &Vec<char>) -> (r: Vec<char>)
    ensures
        r@ == header_text(line@),
{
    let ghost p = |c: char| c == '#';
    let mut a: usize = 0;
    assert(line@.subrange(0, line@.len() as int) == line@);
    while a < line.len() && line[a] == '#'
        invariant
            a <= line.len(),
            p == (|c: char| c == '#'),
            text::strip_front(line@.subrange(a as int, line@.len() as int), p) == text::strip_front(line@, p),
        decreases line.len() - a,
    {
        proof {
            let sub = line@.subrange(a as int, line@.len() as int);
            assert(sub[0] == line@[a as int]);
            assert(sub.drop_first() == line@.subrange(a + 1, line@.len() as int));
        }
        a = a + 1;
    }
    proof {
        let sub = line@.subrange(a as int, line@.len() as int);
        if a < line.len() {
            assert(sub[0] == line@[a as int]);
        }
        assert(text::strip_front(sub, p) == sub);
    }
    let rest = slice_chars(line.as_slice(), a, line.len());
    text::trim_chars(rest.as_slice())
}

fn add_header(out: &mut Vec<String>, line: &Vec<char>)
    ensures
        texts(final(out)@) == ({
            let l = line@;
            if l.len() > 0 && l[0] == '#' && header_text(l).len() > 0 {
                texts(old(out)@).push(header_text(l))
            } else {
                texts(old(out)@)
            }
        }),
{
    if line.len() > 0 && line[0] == '#' {
        let h = header_of(line);
        if h.len() > 0 {
            out.push(string_of(h.as_slice()));
            proof {
                assert(texts(out@) =~= texts(old(out)@).push(h@));
            }
        }
    }
}

/// The Markdown headers of a document: the lines starting with `#`, with
/// the `#`s removed and trimmed, when not empty.
pub fn extract_headers(content: &str) -> (r: Vec<String>)
    ensures
        texts(r@) == doc_headers(content@),
{
    let cs = chars_of(content);
    let ghost sep = |c: char| c == '\n';
    let ghost mut done: Seq<Seq<char>> = Seq::empty();
    let mut cur: Vec<char> = Vec::new();
    let mut out: Vec<String> = Vec::new();
    proof {
        assert(cs@.take(0) == Seq::<char>::empty());
        assert(text::split_by(cs@.take(0), sep) =~= done.push(cur@));
        assert(texts(out@) =~= headers_in(done));
    }
    let mut i: usize = 0;
    while i < cs.len()
        invariant
            i <= cs.len(),
            sep == (|c: char| c == '\n'),
            text::split_by(cs@.take(i as int), sep) == done.push(cur@),
            texts(out@) == headers_in(done),
        decreases cs.len() - i,
    {
        proof {
            text::lemma_split_by_step(cs@, sep, i as int, done, cur@);
        }
        let c = cs[i];
        if c == '\n' {
            add_header(&mut out, &cur);
            proof {
                assert(done.push(cur@).drop_last() == done);
                done = done.push(cur@);
            }
            cur = Vec::new();
            proof {
                assert(cur@ == Seq::<char>::empty());
            }
        } else {
            cur.push(c);
        }
        i = i + 1;
    }
    add_header(&mut out, &cur);
    proof {
        assert(cs@.take(cs@.len() as int) == cs@);
        assert(done.push(cur@).drop_last() == done);
    }
    out
}

fn add_keyword(out: &mut Vec<String>, word: &Vec<char>, skip_empty: bool)
    ensures
        texts(final(out)@) == ({
            let w = word@;
            if (w.len() > 0 || !skip_empty) && text::byte_len(text::lowercase_of(w)) >= 3 {
                texts(old(out)@).push(text::lowercase_of(w))
            } else {
                texts(old(out)@)
            }
        }),
{
    if word.len() == 0 && skip_empty {
        return;
    }
    let s = string_of(word.as_slice());
    let lower = to_lowercase(s.as_str());
    let lc = chars_of(lower.as_str());
    if utf8_len(lc.as_slice()) >= 3 {
        out.push(lower);
        proof {
            assert(texts(out@) =~= texts(old(out)@).push(text::lowercase_of(word@)));
        }
    }
}

/// Appends the keywords of the words of `t` split by `sep` (whitespace when
/// `by_space`, `-` and `_` otherwise).
fn add_keywords_of(out: &mut Vec<String>, t: &str, by_space: bool)
    ensures
        by_space ==> texts(final(out)@) == texts(old(out)@)
            + keywords_of(text::split_by(t@, |c: char| text::is_ws(c)), true),
        !by_space ==> texts(final(out)@) == texts(old(out)@)
            + keywords_of(text::split_by(t@, |c: char| c == '-' || c == '_'), false),
{
    let cs = chars_of(t);
    let ghost sep = if by_space { |c: char| text::is_ws(c) } else { |c: char| c == '-' || c == '_' };
    let ghost start = texts(out@);
    let ghost mut done: Seq<Seq<char>> = Seq::empty();
    let mut cur: Vec<char> = Vec::new();
    proof {
        assert(cs@.take(0) == Seq::<char>::empty());
        assert(text::split_by(cs@.take(0), sep) =~= done.push(cur@));
        assert(texts(out@) =~= start + keywords_of(done, by_space));
    }
    let mut i: usize = 0;
    while i < cs.len()
        invariant
            i <= cs.len(),
            sep == (if by_space { |c: char| text::is_ws(c) } else { |c: char| c == '-' || c == '_' }),
            text::split_by(cs@.take(i as int), sep) == done.push(cur@),
            texts(out@) == start + keywords_of(done, by_space),
        decreases cs.len() - i,
    {
        proof {
            text::lemma_split_by_step(cs@, sep, i as int, done, cur@);
        }
        let c = cs[i];
        let is_sep = if by_space { is_whitespace(c) } else { c == '-' || c == '_' };
        if is_sep {
            let ghost before = texts(out@);
            add_keyword(out, &cur, by_space);
            proof {
                assert(done.push(cur@).drop_last() == done);
                assert(texts(out@) =~= start + keywords_of(done.push(cur@), by_space));
                done = done.push(cur@);
            }
            cur = Vec::new();
            proof {
                assert(cur@ == Seq::<char>::empty());
            }
        } else {
            cur.push(c);
        }
        i = i + 1;
    }
    add_keyword(out, &cur, by_space);
    proof {
        assert(done.push(cur@).drop_last() == done);
        assert(texts(out@) =~= start + keywords_of(done.push(cur@), by_space));
        assert(cs@.take(cs@.len() as int) == cs@);
    }
}

// ───────────────────────── the index ─────────────────────────

/// Index over loaded documentation files.
pub struct DocIndex {
    entries: Vec<DocEntry>,
    keywords: Vec<Vec<String>>,
}

/// What the index holds about one document.
pub struct IndexedDoc {
    pub entry: DocEntry,
    pub keywords: Seq<Seq<char>>,
}

impl View for DocIndex {
    type V = Seq<IndexedDoc>;

    /// The documents in the order they were added, each with its keywords.
    closed spec fn view(&self) -> Seq<IndexedDoc> {
        Seq::new(self.entries@.len(), |i: int| IndexedDoc { entry: self.entries@[i], keywords: texts(self.keywords@[i]@) })
    }
}

impl DocIndex {
    /// The two lists run in step.
    pub closed spec fn wf(&self) -> bool {
        self.entries@.len() == self.keywords@.len()
    }

    /// An empty index.
    pub fn new() -> (r: Self)
        ensures
            r.wf(),
            r@.len() == 0,
    {
        DocIndex { entries: Vec::new(), keywords: Vec::new() }
    }

    /// Index one document: its headers, its title (the first header, or the
    /// id when it has none), its size in bytes and its keywords.
    pub fn add_entry(&mut self, id: String, content: String, source_path: String)
        requires
            old(self).wf(),
        ensures
            final(self).wf(),
            final(self)@.len() == old(self)@.len() + 1,
            final(self)@.drop_last() == old(self)@,
            ({
                let d = final(self)@.last();
                let hs = doc_headers(content@);
                &&& d.entry.id == id
                &&& d.entry.content == content
                &&& d.entry.source_path == source_path
                &&& texts(d.entry.headers@) == hs
                &&& d.entry.title@ == (if hs.len() > 0 { hs[0] } else { id@ })
                &&& text::byte_len(content@) <= usize::MAX ==> d.entry.char_count == text::byte_len(content@)
                &&& d.keywords == doc_keywords(id@, content@)
            }),
    {
        let headers = extract_headers(content.as_str());
        let title = if headers.len() > 0 { headers[0].clone() } else { id.clone() };
        let cs = chars_of(content.as_str());
        let char_count = utf8_len(cs.as_slice());
        let mut kws: Vec<String> = Vec::new();
        let mut h: usize = 0;
        proof {
            assert(texts(kws@) =~= header_keywords(texts(headers@).take(0)));
        }
        while h < headers.len()
            invariant
                h <= headers.len(),
                texts(kws@) == header_keywords(texts(headers@).take(h as int)),
            decreases headers.len() - h,
        {
            add_keywords_of(&mut kws, headers[h].as_str(), true);
            proof {
                let t = texts(headers@);
                assert(t.take(h + 1).drop_last() == t.take(h as int));
                assert(t.take(h + 1).last() == headers@[h as int]@);
            }
            h = h + 1;
        }
        proof {
            assert(texts(headers@).take(headers@.len() as int) == texts(headers@));
        }
        add_keywords_of(&mut kws, id.as_str(), false);
        let ghost old_view = self@;
        self.entries.push(DocEntry { id, title, headers, content, source_path, char_count });
        self.keywords.push(kws);
        proof {
            assert(self@.drop_last() =~= old_view);
        }
    }

    /// Number of indexed documents.
    pub fn entry_count(&self) -> (r: usize)
        ensures
            r == self@.len(),
    {
        self.entries.len()
    }

    /// Whether no document is indexed.
    pub fn is_empty(&self) -> (r: bool)
        ensures
            r == (self@.len() == 0),
    {
        self.entries.len() == 0
    }
}

// ───────────────────────── search ─────────────────────────

/// The words of a query: its whitespace-separated words in lowercase,
/// those of at least 3 bytes, repetitions kept.
pub open spec fn query_words(query: Seq<char>) -> Seq<Seq<char>> {
    keywords_of(text::split_by(query, |c: char| text::is_ws(c)), true)
}

/// How often `w` occurs in `s`.
pub open spec fn count_of(s: Seq<Seq<char>>, w: Seq<char>) -> nat
    decreases s.len(),
{
    if s.len() == 0 { 0 } else { count_of(s.drop_last(), w) + if s.last() == w { 1nat } else { 0nat } }
}

/// The relevance of a document to query words: for each word, one point
/// per keyword equal to it and one more when the document's lowercase text
/// contains it.
pub open spec fn doc_score(d: IndexedDoc, words: Seq<Seq<char>>) -> nat
    decreases words.len(),
{
    if words.len() == 0 {
        0
    } else {
        let w = words.last();
        doc_score(d, words.drop_last()) + count_of(d.keywords, w)
            + if text::seq_contains(text::lowercase_of(d.entry.content@), w) { 1nat } else { 0nat }
    }
}

/// The score as counted in a machine word.
pub open spec fn capped(n: nat) -> nat {
    if n <= usize::MAX { n } else { usize::MAX as nat }
}

/// `r` lists the documents with a positive score, best first; documents
/// with equal scores keep the order in which they were added.
pub open spec fn is_ranking(r: Seq<usize>, docs: Seq<IndexedDoc>, words: Seq<Seq<char>>) -> bool {
    &&& forall|k: int| 0 <= k < r.len() ==> r[k] < docs.len() && capped(doc_score(docs[r[k] as int], words)) > 0
    &&& forall|i: int| 0 <= i < docs.len() && capped(doc_score(docs[i], words)) > 0
        ==> exists|k: int| 0 <= k < r.len() && r[k] == i
    &&& forall|a: int, b: int| #![trigger r[a], r[b]] 0 <= a < b < r.len() ==> {
        let sa = capped(doc_score(docs[r[a] as int], words));
        let sb = capped(doc_score(docs[r[b] as int], words));
        sa > sb || (sa == sb && r[a] < r[b])
    }
}

/// The ranking for a query; nothing for an empty index or a query without words.
pub open spec fn search_ranking(r: Seq<usize>, docs: Seq<IndexedDoc>, query: Seq<char>) -> bool {
    if docs.len() == 0 || query_words(query).len() == 0 {
        r.len() == 0
    } else {
        is_ranking(r, docs, query_words(query))
    }
}

fn count_in(kws: &Vec<String>, w: &str) -> (r: usize)
    ensures
        r == capped(count_of(texts(kws@), w@)),
{
    let mut n: usize = 0;
    let mut i: usize = 0;
    while i < kws.len()
        invariant
            i <= kws.len(),
            n == capped(count_of(texts(kws@).take(i as int), w@)),
        decreases kws.len() - i,
    {
        proof {
            let t = texts(kws@);
            assert(t.take(i + 1).drop_last() == t.take(i as int));
            assert(t.take(i + 1).last() == kws@[i as int]@);
        }
        if str_eq(kws[i].as_str(), w) && n < usize::MAX {
            n = n + 1;
        }
        i = i + 1;
    }
    proof {
        assert(texts(kws@).take(kws@.len() as int) == texts(kws@));
    }
    n
}

impl DocIndex {
    fn score_of(&self, i: usize, words: &Vec<String>) -> (r: usize)
        requires
            self.wf(),
            i < self@.len(),
        ensures
            r == capped(doc_score(self@[i as int], texts(words@))),
    {
        let lower = to_lowercase(self.entries[i].content.as_str());
        let ghost d = self@[i as int];
        let mut s: usize = 0;
        let mut k: usize = 0;
        while k < words.len()
            invariant
                k <= words.len(),
                self.wf(),
                i < self@.len(),
                d == self@[i as int],
                lower@ == text::lowercase_of(d.entry.content@),
                s == capped(doc_score(d, texts(words@).take(k as int))),
            decreases words.len() - k,
        {
            proof {
                let t = texts(words@);
                assert(t.take(k + 1).drop_last() == t.take(k as int));
                assert(t.take(k + 1).last() == words@[k as int]@);
                assert(d.keywords == texts(self.keywords@[i as int]@));
            }
            let c = count_in(&self.keywords[i], words[k].as_str());
            let hit: usize = if str_contains(lower.as_str(), words[k].as_str()) { 1 } else { 0 };
            s = if s <= usize::MAX - c { s + c } else { usize::MAX };
            s = if s <= usize::MAX - hit { s + hit } else { usize::MAX };
            k = k + 1;
        }
        proof {
            assert(texts(words@).take(words@.len() as int) == texts(words@));
        }
        s
    }

    /// The positions of the documents relevant to a query, best first.
    pub fn rank(&self, query: &str) -> (r: Vec<usize>)
        requires
            self.wf(),
        ensures
            search_ranking(r@, self@, query@),
    {
        if self.entries.len() == 0 {
            return Vec::new();
        }
        let mut words: Vec<String> = Vec::new();
        add_keywords_of(&mut words, query, true);
        proof {
            assert(texts(words@) =~= query_words(query@));
        }
        if words.len() == 0 {
            return Vec::new();
        }
        let ghost docs = self@;
        let ghost qw = texts(words@);
        let mut ranked: Vec<usize> = Vec::new();
        let mut scores: Vec<usize> = Vec::new();
        let mut i: usize = 0;
        while i < self.entries.len()
            invariant
                i <= self.entries.len(),
                self.wf(),
                docs == self@,
                qw == texts(words@),
                qw == query_words(query@),
                ranked@.len() == scores@.len(),
                forall|k: int| 0 <= k < ranked@.len() ==> #[trigger] ranked@[k] < i
                    && scores@[k] == capped(doc_score(docs[ranked@[k] as int], qw)) && scores@[k] > 0,
                forall|j: int| 0 <= j < i && capped(doc_score(docs[j], qw)) > 0
                    ==> exists|k: int| 0 <= k < ranked@.len() && ranked@[k] == j,
                forall|a: int, b: int| 0 <= a < b < ranked@.len()
                    ==> scores@[a] > scores@[b] || (scores@[a] == scores@[b] && ranked@[a] < ranked@[b]),
            decreases self.entries.len() - i,
        {
            let s = self.score_of(i, &words);
            if s > 0 {
                let mut p: usize = 0;
                while p < ranked.len() && scores[p] >= s
                    invariant
                        p <= ranked.len(),
                        ranked@.len() == scores@.len(),
                        forall|k: int| 0 <= k < p ==> scores@[k] >= s,
                    decreases ranked.len() - p,
                {
                    p = p + 1;
                }
                let ghost r0 = ranked@;
                let ghost s0 = scores@;
                ranked.insert(p, i);
                scores.insert(p, s);
                proof {
                    assert forall|k: int| 0 <= k < ranked@.len() implies #[trigger] ranked@[k] < i + 1
                        && scores@[k] == capped(doc_score(docs[ranked@[k] as int], qw)) && scores@[k] > 0 by {
                        if k < p {
                            assert(ranked@[k] == r0[k] && scores@[k] == s0[k]);
                        } else if k == p {
                            assert(ranked@[k] == i && scores@[k] == s);
                        } else {
                            assert(ranked@[k] == r0[k - 1] && scores@[k] == s0[k - 1]);
                        }
                    }
                    assert forall|j: int| 0 <= j < i + 1 && capped(doc_score(docs[j], qw)) > 0
                        implies exists|k: int| 0 <= k < ranked@.len() && ranked@[k] == j by {
                        if j == i {
                            assert(ranked@[p as int] == j);
                        } else {
                            let k0 = choose|k: int| 0 <= k < r0.len() && r0[k] == j;
                            if k0 < p {
                                assert(ranked@[k0] == j);
                            } else {
                                assert(ranked@[k0 + 1] == j);
                            }
                        }
                    }
                    assert forall|a: int, b: int| 0 <= a < b < ranked@.len()
                        implies scores@[a] > scores@[b] || (scores@[a] == scores@[b] && ranked@[a] < ranked@[b]) by {
                        if b < p {
                            assert(scores@[a] == s0[a] && scores@[b] == s0[b]);
                        } else if b == p {
                            assert(scores@[a] == s0[a] && s0[a] >= s);
                        } else if a == p {
                            assert(scores@[b] == s0[b - 1]);
                            assert(ranked@[b] == r0[b - 1] && r0[b - 1] < i);
                            if p < s0.len() {
                                assert(!(s0[p as int] >= s));
                                if b - 1 > p {
                                    assert(s0[p as int] > s0[b - 1] || (s0[p as int] == s0[b - 1]));
                                }
                            }
                        } else if a < p {
                            assert(scores@[a] == s0[a] && scores@[b] == s0[b - 1] && s0[a] >= s);
                            assert(ranked@[a] == r0[a] && ranked@[b] == r0[b - 1]);
                            if p < s0.len() {
                                assert(!(s0[p as int] >= s));
                            }
                        } else {
                            assert(scores@[a] == s0[a - 1] && scores@[b] == s0[b - 1]);
                            assert(ranked@[a] == r0[a - 1] && ranked@[b] == r0[b - 1]);
                        }
                    }
                }
            } else {
                proof {
                    assert(capped(doc_score(docs[i as int], qw)) == 0);
                }
            }
            i = i + 1;
        }
        proof {
            assert forall|a: int, b: int| #![trigger ranked@[a], ranked@[b]] 0 <= a < b < ranked@.len() implies ({
                let sa = capped(doc_score(docs[ranked@[a] as int], qw));
                let sb = capped(doc_score(docs[ranked@[b] as int], qw));
                sa > sb || (sa == sb && ranked@[a] < ranked@[b])
            }) by {
                assert(scores@[a] == capped(doc_score(docs[ranked@[a] as int], qw)));
                assert(scores@[b] == capped(doc_score(docs[ranked@[b] as int], qw)));
            }
        }
        ranked
    }

    /// Find the documents relevant to a query, best first. Documents with
    /// equal scores come in the order they were added.
    pub fn search(&self, query: &str) -> (r: Vec<&DocEntry>)
        requires
            self.wf(),
        ensures
            exists|ix: Seq<usize>| search_ranking(ix, self@, query@) && r@.len() == ix.len()
                && forall|k: int| 0 <= k < ix.len() ==> *r@[k] == #[trigger] self@[ix[k] as int].entry,
    {
        let ix = self.rank(query);
        let mut out: Vec<&DocEntry> = Vec::new();
        let mut k: usize = 0;
        while k < ix.len()
            invariant
                k <= ix.len(),
                self.wf(),
                search_ranking(ix@, self@, query@),
                out@.len() == k,
                forall|j: int| 0 <= j < k ==> *out@[j] == #[trigger] self@[ix@[j] as int].entry,
            decreases ix.len() - k,
        {
            proof {
                if self@.len() == 0 || query_words(query@).len() == 0 {
                    assert(ix@.len() == 0);
                }
                assert(ix@[k as int] < self@.len());
            }
            out.push(&self.entries[ix[k]]);
            k = k + 1;
        }
        out
    }
}

// ───────────────────────── injection ─────────────────────────

/// The heading of an injection.
pub open spec fn injection_head() -> Seq<char> {
    "## Relevant Documentation\n\n"@
}

/// The header line of one document in an injection.
pub open spec fn doc_header(e: DocEntry) -> Seq<char> {
    "### "@ + e.title@ + " ("@ + e.id@ + ")\n\n"@
}

/// What is shown of a document's text with `room` bytes left: all of it
/// when it fits; otherwise the part before the last newline within the
/// first `room` bytes (or all of those bytes when they hold no newline),
/// followed by `...` and a newline.
pub open spec fn doc_snippet(content: Seq<char>, room: nat) -> Seq<char> {
    if text::byte_len(content) <= room {
        content
    } else {
        let k = fit_chars(content, room, 0) as int;
        let cut = match last_index_of(content.take(k), '\n') { Some(j) => j, None => k };
        content.take(cut) + "...\n"@
    }
}

/// Cutting a document's text at `room` bytes falls between two characters.
pub open spec fn snippet_ok(content: Seq<char>, room: nat) -> bool {
    text::byte_len(content) <= room || text::byte_len(content.take(fit_chars(content, room, 0) as int)) == room
}

/// Injection progress: the text so far, the bytes left, whether the budget
/// ran out, and whether every cut fell between characters.
pub struct InjectState {
    pub out: Seq<char>,
    pub remaining: nat,
    pub stopped: bool,
    pub ok: bool,
}

/// One more document added to an injection.
pub open spec fn inject_step(st: InjectState, e: DocEntry) -> InjectState {
    if st.stopped || st.remaining < 100 {
        InjectState { stopped: true, ..st }
    } else {
        let h = doc_header(e);
        if text::byte_len(h) >= st.remaining {
            InjectState { stopped: true, ..st }
        } else {
            let room = (st.remaining - text::byte_len(h)) as nat;
            let snippet = doc_snippet(e.content@, room);
            let left = if text::byte_len(snippet) <= room { (room - text::byte_len(snippet)) as nat } else { 0nat };
            InjectState {
                out: st.out + h + snippet + "\n\n"@,
                remaining: left,
                stopped: false,
                ok: st.ok && snippet_ok(e.content@, room),
            }
        }
    }
}

/// The injection after the given documents, in order.
pub open spec fn inject_all(docs: Seq<DocEntry>, max_chars: nat) -> InjectState
    decreases docs.len(),
{
    if docs.len() == 0 {
        InjectState {
            out: injection_head(),
            remaining: if max_chars >= 27 { (max_chars - 27) as nat } else { 0 },
            stopped: false,
            ok: true,
        }
    } else {
        inject_step(inject_all(docs.drop_last(), max_chars), docs.last())
    }
}

/// The documents of a ranking, in its order.
pub open spec fn ranked_docs(ix: Seq<usize>, docs: Seq<IndexedDoc>) -> Seq<DocEntry> {
    ix.map_values(|i: usize| docs[i as int].entry)
}

/// The injection for a ranking: nothing when it is empty or when the text
/// stays within 40 bytes.
pub open spec fn injection(ix: Seq<usize>, docs: Seq<IndexedDoc>, max_chars: nat) -> Option<Seq<char>> {
    if ix.len() == 0 {
        None
    } else {
        let st = inject_all(ranked_docs(ix, docs), max_chars);
        if text::byte_len(st.out) > 40 { Some(st.out) } else { None }
    }
}

fn last_newline(cs: &Vec<char>) -> (r: Option<usize>)
    ensures
        r matches Some(i) ==> last_index_of(cs@, '\n') == Some(i as int) && i < cs.len(),
        r is None <==> last_index_of(cs@, '\n') is None,
{
    let mut k: usize = cs.len();
    assert(cs@.take(cs.len() as int) == cs@);
    while k > 0
        invariant
            k <= cs.len(),
            last_index_of(cs@, '\n') == last_index_of(cs@.take(k as int), '\n'),
        decreases k,
    {
        proof {
            assert(cs@.take(k as int).drop_last() == cs@.take(k - 1));
        }
        if cs[k - 1] == '\n' {
            return Some(k - 1);
        }
        k = k - 1;
    }
    assert(cs@.take(0) == Seq::<char>::empty());
    None
}

/// Whether the characters `cs` take at most `room` bytes.
pub(crate) fn bytes_within(cs: &[char], room: usize) -> (r: bool)
    ensures
        r == (text::byte_len(cs@) <= room),
{
    let mut acc: usize = 0;
    let mut i: usize = 0;
    while i < cs.len()
        invariant
            i <= cs.len(),
            acc == text::byte_len(cs@.take(i as int)),
            acc <= room,
        decreases cs.len() - i,
    {
        proof {
            assert(cs@.take(i + 1).drop_last() == cs@.take(i as int));
        }
        let w = utf8_width_of(cs[i]);
        if w > room - acc {
            proof {
                lemma_byte_len_prefix(cs@, i + 1);
            }
            return false;
        }
        acc = acc + w;
        i = i + 1;
    }
    proof {
        assert(cs@.take(cs@.len() as int) == cs@);
    }
    true
}

/// The snippet of a document's text for `room` bytes, and its size in bytes
/// (`usize::MAX` when it does not fit a `usize`).
fn snippet_of(content: &str, room: usize) -> (r: (String, usize))
    requires
        snippet_ok(content@, room as nat),
    ensures
        r.0@ == doc_snippet(content@, room as nat),
        r.1 == if text::byte_len(r.0@) <= usize::MAX { text::byte_len(r.0@) } else { usize::MAX as nat },
{
    let cs = chars_of(content);
    if bytes_within(cs.as_slice(), room) {
        let n = utf8_len(cs.as_slice());
        return (string_of(cs.as_slice()), n);
    }
    let mut acc: usize = 0;
    let mut i: usize = 0;
    while i < cs.len() && utf8_width_of(cs[i]) <= room - acc
        invariant
            i <= cs.len(),
            acc == text::byte_len(cs@.take(i as int)),
            acc <= room,
            fit_chars(cs@, room as nat, i as nat) == fit_chars(cs@, room as nat, 0),
        decreases cs.len() - i,
    {
        proof {
            assert(cs@.take(i + 1).drop_last() == cs@.take(i as int));
        }
        acc = acc + utf8_width_of(cs[i]);
        i = i + 1;
    }
    proof {
        if i < cs.len() {
            assert(cs@.take(i + 1).drop_last() == cs@.take(i as int));
        }
    }
    let prefix = slice_chars(cs.as_slice(), 0, i);
    let (cut, cut_bytes) = match last_newline(&prefix) {
        Some(j) => {
            let head = slice_chars(prefix.as_slice(), 0, j);
            let b = utf8_len(head.as_slice());
            proof {
                assert(head@ == cs@.take(j as int));
                lemma_byte_len_prefix(cs@.take(i as int), j as int);
            }
            (head, b)
        },
        None => {
            proof {
                assert(prefix@ == cs@.take(i as int));
            }
            (prefix, acc)
        },
    };
    let mut s = string_of(cut.as_slice());
    push_str(&mut s, "...\n");
    proof {
        lemma_byte_len_concat(cut@, "...\n"@);
        reveal_strlit("...\n");
        reveal_with_fuel(text::byte_len, 5);
        assert(text::byte_len("...\n"@) == 4);
        if i < cs.len() {
            assert(fit_chars(cs@, room as nat, i as nat) == i);
        }
    }
    let sb: usize = if cut_bytes <= usize::MAX - 4 { cut_bytes + 4 } else { usize::MAX };
    (s, sb)
}

proof fn lemma_byte_len_prefix(s: Seq<char>, j: int)
    requires
        0 <= j <= s.len(),
    ensures
        text::byte_len(s.take(j)) <= text::byte_len(s),
    decreases s.len(),
{
    if j < s.len() {
        assert(s.drop_last().take(j) == s.take(j));
        lemma_byte_len_prefix(s.drop_last(), j);
    } else {
        assert(s.take(j) == s);
    }
}

proof fn lemma_byte_len_concat(a: Seq<char>, b: Seq<char>)
    ensures
        text::byte_len(a + b) == text::byte_len(a) + text::byte_len(b),
    decreases b.len(),
{
    if b.len() == 0 {
        assert(a + b == a);
    } else {
        assert((a + b).drop_last() == a + b.drop_last());
        lemma_byte_len_concat(a, b.drop_last());
    }
}

impl DocIndex {
    /// Select and format documentation for injection within `max_chars`
    /// bytes: the ranked documents in order, each as a header line and a
    /// snippet, until the budget runs out.
    pub fn select_for_injection(&self, query: &str, max_chars: usize) -> (r: Option<String>)
        requires
            self.wf(),
            forall|ix: Seq<usize>| search_ranking(ix, self@, query@) ==> #[trigger] inject_all(ranked_docs(ix, self@), max_chars as nat).ok,
        ensures
            exists|ix: Seq<usize>| search_ranking(ix, self@, query@)
                && (match r {
                    Some(s) => injection(ix, self@, max_chars as nat) == Some(s@),
                    None => injection(ix, self@, max_chars as nat) is None,
                }),
    {
        let ix = self.rank(query);
        if ix.len() == 0 {
            proof {
                assert(injection(ix@, self@, max_chars as nat) is None);
            }
            return None;
        }
        let ghost docs = ranked_docs(ix@, self@);
        proof {
            assert(inject_all(docs, max_chars as nat).ok);
        }
        let mut output = String::new();
        push_str(&mut output, "## Relevant Documentation\n\n");
        proof {
            reveal_strlit("## Relevant Documentation\n\n");
            assert(docs.take(0) == Seq::<DocEntry>::empty());
        }
        let mut remaining: usize = if max_chars >= 27 { max_chars - 27 } else { 0 };
        let mut k: usize = 0;
        while k < ix.len()
            invariant
                k <= ix.len(),
                self.wf(),
                search_ranking(ix@, self@, query@),
                docs == ranked_docs(ix@, self@),
                remaining <= max_chars,
                inject_all(docs, max_chars as nat).ok,
                ({
                    let st = inject_all(docs.take(k as int), max_chars as nat);
                    &&& !st.stopped
                    &&& st.out == output@
                    &&& st.remaining == remaining
                }),
                k == ix.len() ==> inject_all(docs, max_chars as nat).out == output@,
            ensures
                inject_all(docs, max_chars as nat).out == output@,
            decreases ix.len() - k,
        {
            proof {
                if self@.len() == 0 || query_words(query@).len() == 0 {
                    assert(ix@.len() == 0);
                }
                assert(ix@[k as int] < self@.len());
            }
            let e = &self.entries[ix[k]];
            proof {
                assert(docs.take(k + 1).drop_last() == docs.take(k as int));
                assert(docs.take(k + 1).last() == *e);
                lemma_inject_ok_prefix(docs, max_chars as nat, k + 1);
            }
            if remaining < 100 {
                proof {
                    lemma_inject_stopped(docs, max_chars as nat, k + 1);
                }
                break;
            }
            let ghost room_before = remaining;
            let mut header = String::new();
            push_str(&mut header, "### ");
            push_str(&mut header, e.title.as_str());
            push_str(&mut header, " (");
            push_str(&mut header, e.id.as_str());
            push_str(&mut header, ")\n\n");
            let hc = chars_of(header.as_str());
            let hb = utf8_len(hc.as_slice());
            if hb >= remaining {
                proof {
                    lemma_inject_stopped(docs, max_chars as nat, k + 1);
                }
                break;
            }
            let room = remaining - hb;
            push_str(&mut output, header.as_str());
            let (snippet, sb) = snippet_of(e.content.as_str(), room);
            remaining = if sb <= room { room - sb } else { 0 };
            push_str(&mut output, snippet.as_str());
            push_str(&mut output, "\n\n");
            proof {
                let st0 = inject_all(docs.take(k as int), max_chars as nat);
                assert(header@ == doc_header(*e));
                assert(hb == text::byte_len(header@));
                assert(output@ =~= st0.out + doc_header(*e) + doc_snippet(e.content@, room as nat) + "\n\n"@);
                if k + 1 == ix.len() {
                    assert(docs.take(k + 1) == docs);
                    assert(inject_all(docs, max_chars as nat) == inject_all(docs.take(k + 1), max_chars as nat));
                }
            }
            k = k + 1;
        }
        proof {
            assert(search_ranking(ix@, self@, query@));
        }
        let oc = chars_of(output.as_str());
        if utf8_len(oc.as_slice()) > 40 {
            proof {
                assert(injection(ix@, self@, max_chars as nat) == Some(output@));
            }
            Some(output)
        } else {
            proof {
                assert(injection(ix@, self@, max_chars as nat) is None);
            }
            None
        }
    }
}

/// Once stopped, an injection stays as it is.
proof fn lemma_inject_stopped(docs: Seq<DocEntry>, max_chars: nat, k: int)
    requires
        0 <= k <= docs.len(),
        inject_all(docs.take(k), max_chars).stopped,
    ensures
        inject_all(docs, max_chars).out == inject_all(docs.take(k), max_chars).out,
        inject_all(docs, max_chars).stopped,
    decreases docs.len() - k,
{
    if k == docs.len() {
        assert(docs.take(k) == docs);
    } else {
        assert(docs.drop_last().take(k) == docs.take(k));
        lemma_inject_stopped(docs.drop_last(), max_chars, k);
    }
}

/// Cuts that fall between characters in the whole injection do so in
/// every prefix of it.
proof fn lemma_inject_ok_prefix(docs: Seq<DocEntry>, max_chars: nat, k: int)
    requires
        0 <= k <= docs.len(),
        inject_all(docs, max_chars).ok,
    ensures
        inject_all(docs.take(k), max_chars).ok,
    decreases docs.len() - k,
{
    if k == docs.len() {
        assert(docs.take(k) == docs);
    } else {
        assert(docs.drop_last().take(k) == docs.take(k));
        lemma_inject_ok_prefix(docs.drop_last(), max_chars, k);
    }
}

} // verus!
