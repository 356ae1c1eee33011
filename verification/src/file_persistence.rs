//! Track files created/modified/deleted by the agent during a session.
//!
//! The tracker keeps the log of every recorded change and, derived from it,
//! one entry per file holding the latest operation. Two path texts name the
//! same file when `Path`'s equality says so; listings are ordered by
//! `Path`'s ordering.
use vstd::prelude::*;
use vstd::seq_lib::{to_multiset_build, to_multiset_insert};
use crate::text;
use crate::text::{push_str, string_from};
use crate::plan_arg_interceptor::{paths_equal, same_path};
use crate::message_queue::now_millis;
use crate::json_args::{array_member_items, json_array_member_items, json_string_member, opt_view, string_member, string_views};

verus! {

/// Type of file operation performed by the agent.
#[derive(Debug, Clone, Copy, PartialEq, Eq, Structural)]
pub enum FileOp {
    Created,
    Modified,
    Deleted,
}

/// The lowercase name of an operation.
pub open spec fn op_label(op: FileOp) -> Seq<char> {
    match op {
        FileOp::Created => "created"@,
        FileOp::Modified => "modified"@,
        FileOp::Deleted => "deleted"@,
    }
}

impl FileOp {
    /// The lowercase name of the operation (`created`, `modified`, `deleted`).
    pub fn as_str(&self) -> (r: &'static str)
        ensures
            r@ == op_label(*self),
    {
        match self {
            FileOp::Created => "created",
            FileOp::Modified => "modified",
            FileOp::Deleted => "deleted",
        }
    }
}

/// A single recorded file change.
#[derive(Debug, Clone)]
pub struct FileChange {
    pub path: String,
    pub op: FileOp,
    pub tool_name: String,
    pub timestamp_ms: u64,
}

/// Persistent artifact record for a file operation within a session.
#[derive(Debug, Clone)]
pub struct FileArtifact {
    pub session_id: String,
    pub path: String,
    pub operation: FileOp,
    pub timestamp_ms: u64,
    pub tool_call_id: String,
    pub bytes: u64,
}

impl FileArtifact {
    /// A record of `operation` on `path`, stamped with the current time.
    pub fn new(session_id: String, path: String, operation: FileOp, tool_call_id: String, bytes: u64) -> (r: Self)
        ensures
            r.session_id == session_id,
            r.path == path,
            r.operation == operation,
            r.tool_call_id == tool_call_id,
            r.bytes == bytes,
    {
        let timestamp_ms = now_millis();
        FileArtifact { session_id, path, operation, timestamp_ms, tool_call_id, bytes }
    }

    /// The lowercase name of the recorded operation.
    pub fn operation_str(&self) -> (r: &'static str)
        ensures
            r@ == op_label(self.operation),
    {
        self.operation.as_str()
    }
}

// ───────────────────────── path order ─────────────────────────

/// The name of the outcome of `Path::new(a) < Path::new(b)`: whether path
/// `a` sorts before path `b` under `Path`'s component-wise ordering.
pub uninterp spec fn path_precedes(a: Seq<char>, b: Seq<char>) -> bool;

/// Compares two paths with `Path`'s ordering (`<`). The result is named
/// `path_precedes`; beside it the contract states that `<` is asymmetric,
/// as `PartialOrd` documents, and that when `a` does not sort before `b`,
/// the two are equal or `b` sorts before `a`, as `Ord` documents for a total
/// order consistent with `==`.
#[verifier::external_body]
fn path_lt(a: &str, b: &str) -> (r: bool)
    ensures
        r == path_precedes(a@, b@),
        r ==> !path_precedes(b@, a@),
        !r ==> same_path(b@, a@) || path_precedes(b@, a@),
{
    std::path::Path::new(a) < std::path::Path::new(b)
}

// ───────────────────────── the file map ─────────────────────────

/// A file and its latest operation.
pub type FileEntryView = (Seq<char>, FileOp);

/// The position of the first entry naming the same path as `p`.
pub open spec fn find_path(files: Seq<FileEntryView>, p: Seq<char>) -> Option<int>
    decreases files.len(),
{
    if files.len() == 0 {
        None
    } else {
        match find_path(files.drop_last(), p) {
            Some(i) => Some(i),
            None => if same_path(files.last().0, p) { Some(files.len() - 1) } else { None },
        }
    }
}

/// What `find_path` finds: an entry naming the same path, with none before
/// it; and when it finds nothing, no entry names the same path.
pub proof fn lemma_find_path(files: Seq<FileEntryView>, p: Seq<char>)
    ensures
        find_path(files, p) matches Some(i) ==> 0 <= i < files.len() && same_path(files[i].0, p)
            && forall|j: int| 0 <= j < i ==> !same_path(#[trigger] files[j].0, p),
        find_path(files, p) is None ==> forall|j: int| 0 <= j < files.len() ==> !same_path(#[trigger] files[j].0, p),
    decreases files.len(),
{
    if files.len() > 0 {
        lemma_find_path(files.drop_last(), p);
        assert forall|j: int| 0 <= j < files.len() - 1 implies files.drop_last()[j] == #[trigger] files[j] by {}
    }
}

/// Finding in a prefix is finding in the whole.
proof fn lemma_find_path_prefix(files: Seq<FileEntryView>, p: Seq<char>, k: int)
    requires
        0 <= k <= files.len(),
        find_path(files.take(k), p) is Some,
    ensures
        find_path(files, p) == find_path(files.take(k), p),
    decreases files.len() - k,
{
    if k == files.len() {
        assert(files.take(k) == files);
    } else {
        assert(files.drop_last().take(k) == files.take(k));
        lemma_find_path_prefix(files.drop_last(), p, k);
    }
}

/// The file map after recording `op` on `p`: an entry for the same path
/// keeps its text and takes the new operation; otherwise a new entry is
/// added at the end.
pub open spec fn upsert(files: Seq<FileEntryView>, p: Seq<char>, op: FileOp) -> Seq<FileEntryView> {
    match find_path(files, p) {
        Some(i) => files.update(i, (files[i].0, op)),
        None => files.push((p, op)),
    }
}

/// The file map that a log of changes builds, change by change.
pub open spec fn replay(changes: Seq<FileChange>) -> Seq<FileEntryView>
    decreases changes.len(),
{
    if changes.len() == 0 {
        Seq::empty()
    } else {
        upsert(replay(changes.drop_last()), changes.last().path@, changes.last().op)
    }
}

/// The file map holds one entry per path: no entry names the same path as
/// an earlier one.
pub proof fn lemma_replay_one_entry_per_path(changes: Seq<FileChange>)
    ensures
        forall|i: int, j: int|
            0 <= i < j < replay(changes).len() ==> !same_path(#[trigger] replay(changes)[i].0, #[trigger] replay(changes)[j].0),
    decreases changes.len(),
{
    if changes.len() > 0 {
        let prev = replay(changes.drop_last());
        let p = changes.last().path@;
        lemma_replay_one_entry_per_path(changes.drop_last());
        lemma_find_path(prev, p);
        let r = replay(changes);
        assert(r == upsert(prev, p, changes.last().op));
        match find_path(prev, p) {
            Some(k) => {
                assert forall|i: int, j: int| 0 <= i < j < r.len() implies !same_path(#[trigger] r[i].0, #[trigger] r[j].0) by {
                    assert(r[i].0 == prev[i].0 && r[j].0 == prev[j].0);
                }
            },
            None => {
                assert forall|i: int, j: int| 0 <= i < j < r.len() implies !same_path(#[trigger] r[i].0, #[trigger] r[j].0) by {
                    if j < prev.len() {
                        assert(r[i] == prev[i] && r[j] == prev[j]);
                    } else {
                        assert(r[i] == prev[i] && r[j].0 == p);
                    }
                }
            },
        }
    }
}

/// The file map names exactly the changed paths: every entry's path is the
/// path of some change, and every change's path is an entry's path or the
/// same path as an entry's (`Path` equality).
pub proof fn lemma_replay_names_changed_paths(changes: Seq<FileChange>)
    ensures
        forall|i: int| 0 <= i < replay(changes).len() ==> exists|j: int| 0 <= j < changes.len()
            && #[trigger] changes[j].path@ == (#[trigger] replay(changes)[i]).0,
        forall|j: int| 0 <= j < changes.len() ==> exists|i: int| 0 <= i < replay(changes).len()
            && ((#[trigger] replay(changes)[i]).0 == (#[trigger] changes[j]).path@
                || same_path(replay(changes)[i].0, changes[j].path@)),
    decreases changes.len(),
{
    if changes.len() > 0 {
        let init = changes.drop_last();
        let prev = replay(init);
        let c = changes.last();
        let p = c.path@;
        lemma_replay_names_changed_paths(init);
        lemma_find_path(prev, p);
        let r = replay(changes);
        assert(r == upsert(prev, p, c.op));
        assert forall|j: int| 0 <= j < init.len() implies #[trigger] changes[j] == init[j] by {}
        assert forall|i: int| 0 <= i < r.len() implies exists|j: int| 0 <= j < changes.len()
            && #[trigger] changes[j].path@ == (#[trigger] r[i]).0 by {
            if i < prev.len() {
                assert(r[i].0 == prev[i].0);
                let j = choose|j: int| 0 <= j < init.len() && #[trigger] init[j].path@ == prev[i].0;
                assert(changes[j] == init[j]);
            } else {
                assert(r[i].0 == p);
                assert(changes[changes.len() - 1] == c);
            }
        }
        assert forall|j: int| 0 <= j < changes.len() implies exists|i: int| 0 <= i < r.len()
            && ((#[trigger] r[i]).0 == (#[trigger] changes[j]).path@ || same_path(r[i].0, changes[j].path@)) by {
            if j < init.len() {
                assert(changes[j] == init[j]);
                let i = choose|i: int| 0 <= i < prev.len()
                    && ((#[trigger] prev[i]).0 == (#[trigger] init[j]).path@ || same_path(prev[i].0, init[j].path@));
                assert(r[i].0 == prev[i].0);
            } else {
                assert(changes[j] == c);
                match find_path(prev, p) {
                    Some(k) => {
                        assert(r[k].0 == prev[k].0);
                    },
                    None => {
                        assert(r[prev.len() as int].0 == p);
                    },
                }
            }
        }
    }
}

/// `l` lists exactly the entries of `files`, each path not sorting before
/// the one listed just before it.
pub open spec fn is_sorted_listing(l: Seq<FileEntryView>, files: Seq<FileEntryView>) -> bool {
    &&& l.to_multiset() == files.to_multiset()
    &&& forall|i: int| 0 <= i < l.len() - 1 ==> !path_precedes(#[trigger] l[i + 1].0, l[i].0)
    &&& forall|i: int| 0 <= i < l.len() - 1 ==> path_precedes(#[trigger] l[i].0, l[i + 1].0)
}

/// The number of entries in `s` with operation `op`.
pub open spec fn op_count(s: Seq<FileEntryView>, op: FileOp) -> nat
    decreases s.len(),
{
    if s.len() == 0 {
        0
    } else {
        op_count(s.drop_last(), op) + if s.last().1 == op { 1nat } else { 0nat }
    }
}

/// The summary line for one entry.
pub open spec fn summary_line(e: FileEntryView) -> Seq<char> {
    match e.1 {
        FileOp::Created => "  + "@ + e.0,
        FileOp::Modified => "  ~ "@ + e.0,
        FileOp::Deleted => "  - "@ + e.0,
    }
}

/// The change summary for a listing of the files.
pub open spec fn summary_text(l: Seq<FileEntryView>) -> Seq<char> {
    "Session file changes: "@ + text::decimal(op_count(l, FileOp::Created)) + " created, "@
        + text::decimal(op_count(l, FileOp::Modified)) + " modified, "@
        + text::decimal(op_count(l, FileOp::Deleted)) + " deleted\n"@
        + text::join(l.map_values(|e: FileEntryView| summary_line(e)), "\n"@)
}

struct FileEntry {
    path: String,
    op: FileOp,
}

/// Tracks all file changes within a session.
pub struct SessionFileTracker {
    changes: Vec<FileChange>,
    file_ops: Vec<FileEntry>,
}

/// The view of a listing handed out by reference.
pub open spec fn listing_view(l: Seq<(&String, &FileOp)>) -> Seq<FileEntryView> {
    l.map_values(|e: (&String, &FileOp)| (e.0@, *e.1))
}

impl View for SessionFileTracker {
    type V = Seq<FileChange>;

    /// The log of recorded changes, oldest first.
    closed spec fn view(&self) -> Seq<FileChange> {
        self.changes@
    }
}

impl SessionFileTracker {
    closed spec fn files(&self) -> Seq<FileEntryView> {
        self.file_ops@.map_values(|e: FileEntry| (e.path@, e.op))
    }

    /// The file map is the one that the change log builds.
    pub closed spec fn wf(&self) -> bool {
        self.files() == replay(self.changes@)
    }

    /// An empty tracker.
    pub fn new() -> (r: Self)
        ensures
            r.wf(),
            r@ == Seq::<FileChange>::empty(),
    {
        let r = SessionFileTracker { changes: Vec::new(), file_ops: Vec::new() };
        assert(r.files() =~= Seq::<FileEntryView>::empty());
        r
    }

    fn upsert_file(&mut self, path: String, op: FileOp)
        ensures
            final(self).files() == upsert(old(self).files(), path@, op),
            final(self).changes == old(self).changes,
    {
        let ghost files = self.files();
        let mut i: usize = 0;
        while i < self.file_ops.len()
            invariant
                i <= self.file_ops.len(),
                self.files() == files,
                self.changes == old(self).changes,
                files == old(self).files(),
                files.len() == self.file_ops.len(),
                find_path(files.take(i as int), path@) is None,
            decreases self.file_ops.len() - i,
        {
            let same = paths_equal(self.file_ops[i].path.as_str(), path.as_str());
            proof {
                assert(files[i as int].0 == self.file_ops@[i as int].path@);
                assert(files.take(i + 1).drop_last() == files.take(i as int));
                assert(files.take(i + 1).last() == files[i as int]);
            }
            if same {
                proof {
                    assert(find_path(files.take(i + 1), path@) == Some(i as int));
                    lemma_find_path_prefix(files, path@, i + 1);
                }
                let kept = self.file_ops[i].path.clone();
                self.file_ops.set(i, FileEntry { path: kept, op });
                proof {
                    assert(self.files() =~= files.update(i as int, (files[i as int].0, op)));
                }
                return;
            }
            i = i + 1;
        }
        proof {
            assert(files.take(files.len() as int) == files);
        }
        self.file_ops.push(FileEntry { path, op });
        proof {
            assert(self.files() =~= files.push((path@, op)));
        }
    }

    /// Record a file operation.
    pub fn record(&mut self, path: String, op: FileOp, tool_name: &str)
        requires
            old(self).wf(),
        ensures
            final(self).wf(),
            final(self)@.len() == old(self)@.len() + 1,
            final(self)@.drop_last() == old(self)@,
            final(self)@.last().path@ == path@,
            final(self)@.last().op == op,
            final(self)@.last().tool_name@ == tool_name@,
    {
        let timestamp_ms = now_millis();
        let change = FileChange { path: path.clone(), op, tool_name: string_from(tool_name), timestamp_ms };
        self.changes.push(change);
        self.upsert_file(path, op);
        proof {
            assert(self.changes@.drop_last() == old(self).changes@);
        }
    }

    /// A tracker holding the given change log, with the file map rebuilt
    /// from it in order.
    pub fn from_changes(changes: Vec<FileChange>) -> (r: Self)
        ensures
            r.wf(),
            r@ == changes@,
    {
        let mut t = SessionFileTracker { changes: Vec::new(), file_ops: Vec::new() };
        let mut i: usize = 0;
        while i < changes.len()
            invariant
                i <= changes.len(),
                t.files() == replay(changes@.take(i as int)),
                t.changes@ == Seq::<FileChange>::empty(),
            decreases changes.len() - i,
        {
            proof {
                assert(changes@.take(i + 1).drop_last() == changes@.take(i as int));
            }
            let p = changes[i].path.clone();
            t.upsert_file(p, changes[i].op);
            i = i + 1;
        }
        proof {
            assert(changes@.take(changes@.len() as int) == changes@);
        }
        SessionFileTracker { changes, file_ops: t.file_ops }
    }

    /// List all unique files affected with their latest operation, ordered
    /// by path.
    pub fn list_session_files(&self) -> (r: Vec<(&String, &FileOp)>)
        requires
            self.wf(),
        ensures
            is_sorted_listing(listing_view(r@), replay(self@)),
    {
        let ghost files = self.files();
        proof {
            lemma_replay_one_entry_per_path(self@);
        }
        let mut out: Vec<(&String, &FileOp)> = Vec::new();
        proof {
            assert(listing_view(out@) =~= files.take(0));
        }
        let mut i: usize = 0;
        while i < self.file_ops.len()
            invariant
                i <= self.file_ops.len(),
                files == self.files(),
                listing_view(out@).to_multiset() == files.take(i as int).to_multiset(),
                forall|k: int| 0 <= k < out@.len() - 1
                    ==> !path_precedes(#[trigger] listing_view(out@)[k + 1].0, listing_view(out@)[k].0),
                forall|k: int| 0 <= k < out@.len() - 1
                    ==> path_precedes(#[trigger] listing_view(out@)[k].0, listing_view(out@)[k + 1].0),
                forall|k: int| 0 <= k < out@.len() ==> exists|j: int| 0 <= j < i && #[trigger] files[j] == #[trigger] listing_view(out@)[k],
                forall|a: int, b: int| 0 <= a < b < files.len() ==> !same_path(#[trigger] files[a].0, #[trigger] files[b].0),
            decreases self.file_ops.len() - i,
        {
            let entry = &self.file_ops[i];
            let ghost before = listing_view(out@);
            assert(forall|k: int| 0 <= k < before.len() - 1 ==> !path_precedes(#[trigger] before[k + 1].0, before[k].0));
            let mut p: usize = 0;
            while p < out.len()
                invariant
                    p <= out.len(),
                    before == listing_view(out@),
                    forall|k: int| 0 <= k < p ==> !path_precedes(entry.path@, #[trigger] before[k].0),
                    forall|k: int| 0 <= k < p ==> same_path(#[trigger] before[k].0, entry.path@) || path_precedes(before[k].0, entry.path@),
                ensures
                    p <= out.len(),
                    forall|k: int| 0 <= k < p ==> !path_precedes(entry.path@, #[trigger] before[k].0),
                    forall|k: int| 0 <= k < p ==> same_path(#[trigger] before[k].0, entry.path@) || path_precedes(before[k].0, entry.path@),
                    p < out.len() ==> path_precedes(entry.path@, before[p as int].0)
                        && !path_precedes(before[p as int].0, entry.path@),
                decreases out.len() - p,
            {
                if path_lt(entry.path.as_str(), out[p].0.as_str()) {
                    break;
                }
                p = p + 1;
            }
            out.insert(p, (&entry.path, &entry.op));
            proof {
                let x: FileEntryView = (entry.path@, entry.op);
                assert(listing_view(out@) =~= before.insert(p as int, x));
                to_multiset_insert(before, p as int, x);
                assert(files.take(i + 1) =~= files.take(i as int).push(x));
                to_multiset_build(files.take(i as int), x);
                let l = listing_view(out@);
                assert forall|k: int| 0 <= k < l.len() - 1 implies !path_precedes(#[trigger] l[k + 1].0, l[k].0) by {
                    if k + 1 < p {
                        assert(l[k + 1] == before[k + 1] && l[k] == before[k]);
                        assert(!path_precedes(before[k + 1].0, before[k].0));
                    } else if k + 1 == p {
                        assert(l[k + 1] == x && l[k] == before[k]);
                        assert(!path_precedes(entry.path@, before[k].0));
                    } else if k == p {
                        assert(l[k] == x && l[k + 1] == before[k]);
                        assert(!path_precedes(before[p as int].0, entry.path@));
                    } else {
                        assert(l[k + 1] == before[k] && l[k] == before[k - 1]);
                        let m = k - 1;
                        assert(!path_precedes(before[m + 1].0, before[m].0));
                    }
                }
                assert(files[i as int] == x);
                assert forall|k: int| 0 <= k < l.len() implies exists|j: int| 0 <= j < i + 1 && #[trigger] files[j] == #[trigger] l[k] by {
                    if k < p {
                        assert(l[k] == before[k]);
                        let j = choose|j: int| 0 <= j < i && #[trigger] files[j] == before[k];
                        assert(files[j] == l[k]);
                    } else if k == p {
                        assert(files[i as int] == l[k]);
                    } else {
                        assert(l[k] == before[k - 1]);
                        let j = choose|j: int| 0 <= j < i && #[trigger] files[j] == before[k - 1];
                        assert(files[j] == l[k]);
                    }
                }
                assert forall|k: int| 0 <= k < l.len() - 1 implies path_precedes(#[trigger] l[k].0, l[k + 1].0) by {
                    if k + 1 < p {
                        assert(l[k + 1] == before[k + 1] && l[k] == before[k]);
                        assert(path_precedes(before[k].0, before[k + 1].0));
                    } else if k + 1 == p {
                        assert(l[k + 1] == x && l[k] == before[k]);
                        let j = choose|j: int| 0 <= j < i && #[trigger] files[j] == before[k];
                        assert(!same_path(files[j].0, files[i as int].0));
                        assert(same_path(before[k].0, entry.path@) || path_precedes(before[k].0, entry.path@));
                    } else if k == p {
                        assert(l[k] == x && l[k + 1] == before[k]);
                    } else {
                        assert(l[k + 1] == before[k] && l[k] == before[k - 1]);
                        let m = k - 1;
                        assert(path_precedes(before[m].0, before[m + 1].0));
                    }
                }
            }
            i = i + 1;
        }
        proof {
            assert(files.take(files.len() as int) == files);
        }
        out
    }

    /// Get all changes in chronological order.
    pub fn all_changes(&self) -> (r: &[FileChange])
        ensures
            r@ == self@,
    {
        self.changes.as_slice()
    }

    /// Generate a human-readable change summary.
    pub fn change_summary(&self) -> (r: String)
        requires
            self.wf(),
        ensures
            replay(self@).len() == 0 ==> r@ == "No file changes in this session."@,
            replay(self@).len() > 0 ==> exists|l: Seq<FileEntryView>|
                is_sorted_listing(l, replay(self@)) && r@ == summary_text(l),
    {
        if self.file_ops.len() == 0 {
            return string_from("No file changes in this session.");
        }
        let sorted = self.list_session_files();
        let ghost l = listing_view(sorted@);
        let mut created: usize = 0;
        let mut modified: usize = 0;
        let mut deleted: usize = 0;
        let mut i: usize = 0;
        while i < sorted.len()
            invariant
                i <= sorted.len(),
                l == listing_view(sorted@),
                created <= i && modified <= i && deleted <= i,
                created == op_count(l.take(i as int), FileOp::Created),
                modified == op_count(l.take(i as int), FileOp::Modified),
                deleted == op_count(l.take(i as int), FileOp::Deleted),
            decreases sorted.len() - i,
        {
            proof {
                assert(l.take(i + 1).drop_last() == l.take(i as int));
            }
            match sorted[i].1 {
                FileOp::Created => created = created + 1,
                FileOp::Modified => modified = modified + 1,
                FileOp::Deleted => deleted = deleted + 1,
            }
            i = i + 1;
        }
        proof {
            assert(l.take(l.len() as int) == l);
        }
        let mut out = String::new();
        push_str(&mut out, "Session file changes: ");
        crate::text::push_u64(&mut out, created as u64);
        push_str(&mut out, " created, ");
        crate::text::push_u64(&mut out, modified as u64);
        push_str(&mut out, " modified, ");
        crate::text::push_u64(&mut out, deleted as u64);
        push_str(&mut out, " deleted\n");
        let ghost head = out@;
        let ghost lines = l.map_values(|e: FileEntryView| summary_line(e));
        let mut k: usize = 0;
        while k < sorted.len()
            invariant
                k <= sorted.len(),
                l == listing_view(sorted@),
                lines == l.map_values(|e: FileEntryView| summary_line(e)),
                out@ == head + text::join(lines.take(k as int), "\n"@),
            decreases sorted.len() - k,
        {
            let ghost before = out@;
            if k > 0 {
                push_str(&mut out, "\n");
            }
            let marker = match sorted[k].1 {
                FileOp::Created => "  + ",
                FileOp::Modified => "  ~ ",
                FileOp::Deleted => "  - ",
            };
            push_str(&mut out, marker);
            push_str(&mut out, sorted[k].0.as_str());
            proof {
                let t = lines.take(k + 1);
                assert(t.drop_last() == lines.take(k as int));
                assert(t.last() == summary_line(l[k as int]));
                if k == 0 {
                    assert(text::join(t, "\n"@) == t[0]);
                    assert(out@ =~= head + t[0]);
                } else {
                    assert(text::join(t, "\n"@) == text::join(lines.take(k as int), "\n"@) + "\n"@ + t.last());
                    assert(out@ =~= before + "\n"@ + summary_line(l[k as int]));
                }
            }
            k = k + 1;
        }
        proof {
            assert(lines.take(lines.len() as int) == lines);
            assert(replay(self@) == self.files());
            assert(is_sorted_listing(l, replay(self@)) && out@ == summary_text(l));
        }
        out
    }

    /// Number of unique files affected.
    pub fn file_count(&self) -> (r: usize)
        requires
            self.wf(),
        ensures
            r == replay(self@).len(),
    {
        self.file_ops.len()
    }

    /// Total number of recorded operations (may be more than the number of
    /// files when one file is changed several times).
    pub fn operation_count(&self) -> (r: usize)
        ensures
            r == self@.len(),
    {
        self.changes.len()
    }
}

impl Default for SessionFileTracker {
    fn default() -> (r: Self)
        ensures
            r.wf(),
            r@ == Seq::<FileChange>::empty(),
    {
        SessionFileTracker::new()
    }
}

// ───────────────────────── laws ─────────────────────────

/// A file map never has more entries than there were changes.
pub proof fn lemma_files_within_changes(changes: Seq<FileChange>)
    ensures
        replay(changes).len() <= changes.len(),
    decreases changes.len(),
{
    if changes.len() > 0 {
        lemma_files_within_changes(changes.drop_last());
        lemma_find_path(replay(changes.drop_last()), changes.last().path@);
    }
}

/// The latest operation wins: after recording `op` on `p`, the entry for
/// that file holds `op`. It is the existing entry for the same path, kept
/// under its text, or a new last entry for `p`; no other entry changes.
pub proof fn lemma_latest_op_wins(files: Seq<FileEntryView>, p: Seq<char>, op: FileOp)
    ensures
        ({
            let r = upsert(files, p, op);
            match find_path(files, p) {
                Some(i) => r.len() == files.len() && r[i] == (files[i].0, op) && same_path(files[i].0, p)
                    && forall|j: int| 0 <= j < files.len() && j != i ==> r[j] == files[j],
                None => r.len() == files.len() + 1 && r.last() == (p, op) && r.drop_last() == files,
            }
        }),
{
    lemma_find_path(files, p);
    match find_path(files, p) {
        Some(i) => {},
        None => {
            assert(files.push((p, op)).drop_last() == files);
        },
    }
}

/// The first of `a` and `b` that is present.
pub open spec fn first_present(a: Option<Seq<char>>, b: Option<Seq<char>>) -> Option<Seq<char>> {
    match a {
        Some(x) => Some(x),
        None => b,
    }
}

/// The file path a tool call's arguments name: the first of the members
/// `path`, `file_path`, `file`, `target_path` and `filename` that is a
/// string.
pub open spec fn path_argument(arguments: Seq<char>) -> Option<Seq<char>> {
    first_present(
        json_string_member(arguments, "path"@),
        first_present(
            json_string_member(arguments, "file_path"@),
            first_present(
                json_string_member(arguments, "file"@),
                first_present(
                    json_string_member(arguments, "target_path"@),
                    json_string_member(arguments, "filename"@),
                ),
            ),
        ),
    )
}

/// The file path that a tool call's JSON arguments name, if any.
pub fn extract_file_path_from_args(arguments: &str) -> (r: Option<String>)
    ensures
        opt_view(r) == path_argument(arguments@),
{
    let keys: [&str; 5] = ["path", "file_path", "file", "target_path", "filename"];
    let mut i: usize = 0;
    while i < 5
        invariant
            i <= 5,
            keys@ == seq!["path", "file_path", "file", "target_path", "filename"],
            path_argument(arguments@) == (if i == 0 {
                path_argument(arguments@)
            } else if i == 1 {
                first_present(
                    json_string_member(arguments@, "file_path"@),
                    first_present(
                        json_string_member(arguments@, "file"@),
                        first_present(
                            json_string_member(arguments@, "target_path"@),
                            json_string_member(arguments@, "filename"@),
                        ),
                    ),
                )
            } else if i == 2 {
                first_present(
                    json_string_member(arguments@, "file"@),
                    first_present(
                        json_string_member(arguments@, "target_path"@),
                        json_string_member(arguments@, "filename"@),
                    ),
                )
            } else if i == 3 {
                first_present(
                    json_string_member(arguments@, "target_path"@),
                    json_string_member(arguments@, "filename"@),
                )
            } else if i == 4 {
                json_string_member(arguments@, "filename"@)
            } else {
                None
            }),
        decreases 5 - i,
    {
        let found = string_member(arguments, keys[i]);
        if found.is_some() {
            return found;
        }
        i = i + 1;
    }
    None
}

/// The paths that the entries `items` of a `multi_edit` call's `edits` name,
/// in order, leaving out entries that name none.
pub open spec fn edit_paths(items: Seq<Seq<char>>) -> Seq<Seq<char>>
    decreases items.len(),
{
    if items.len() == 0 {
        Seq::empty()
    } else {
        match path_argument(items.last()) {
            Some(p) => edit_paths(items.drop_last()).push(p),
            None => edit_paths(items.drop_last()),
        }
    }
}

/// The files that a call of tool `tool_name` with JSON arguments `arguments`
/// touches: for `multi_edit`, the path of each entry of its `edits` array;
/// for another tool, the one path its arguments name.
pub open spec fn affected_paths(tool_name: Seq<char>, arguments: Seq<char>) -> Seq<Seq<char>> {
    if tool_name == "multi_edit"@ {
        match json_array_member_items(arguments, "edits"@) {
            Some(items) => edit_paths(items),
            None => Seq::empty(),
        }
    } else {
        match path_argument(arguments) {
            Some(p) => seq![p],
            None => Seq::empty(),
        }
    }
}

/// All file paths that a file tool call touches.
pub fn extract_file_paths_from_args(tool_name: &str, arguments: &str) -> (r: Vec<String>)
    ensures
        string_views(r@) == affected_paths(tool_name@, arguments@),
{
    let mut out: Vec<String> = Vec::new();
    if text::str_eq(tool_name, "multi_edit") {
        match array_member_items(arguments, "edits") {
            Some(items) => {
                let ghost seen = string_views(items@);
                let mut i: usize = 0;
                while i < items.len()
                    invariant
                        i <= items.len(),
                        seen == string_views(items@),
                        string_views(out@) == edit_paths(seen.take(i as int)),
                    decreases items.len() - i,
                {
                    proof {
                        assert(seen.take(i + 1).drop_last() =~= seen.take(i as int));
                        assert(seen.take(i + 1).last() == items@[i as int]@);
                    }
                    match extract_file_path_from_args(items[i].as_str()) {
                        Some(p) => {
                            let ghost before = out@;
                            out.push(p);
                            proof {
                                assert(string_views(out@) =~= string_views(before).push(p@));
                            }
                        },
                        None => {},
                    }
                    i = i + 1;
                }
                proof {
                    assert(seen.take(items.len() as int) =~= seen);
                }
            },
            None => {},
        }
    } else {
        match extract_file_path_from_args(arguments) {
            Some(p) => {
                out.push(p);
                proof {
                    assert(string_views(out@) =~= seq![p@]);
                }
            },
            None => {},
        }
    }
    out
}

} // verus!
