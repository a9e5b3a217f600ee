//! The decisions of indexing: which extractor reads a file, what a fresh
//! file entry holds, whether a file must be re-indexed, how a re-index run
//! counts its files, and the status summary of a project's index.
use vstd::prelude::*;

use crate::common::{
    error_message, ts_later, ts_le, FileEntry, FileType, IndexFileResult, IndexFileStatus,
    IndexStats, IndexStatus, KnowlixError, Timestamp,
};
use crate::filetypes::{
    detect_file_type, detect_language, extract_kind, spec_extract_kind, spec_file_type,
    spec_language, ExtractKind,
};
use crate::ids::new_id;
use crate::text::{
    lower_extension, path_extension, spec_lower_ext, spec_path_extension, spec_to_lowercase,
    str_eq,
};

verus! {

/// How to read the text of a file, from its lowercased extension; an
/// unsupported extension is refused with that extension.
pub fn extraction_plan(file_path: &str) -> (r: Result<ExtractKind, KnowlixError>)
    ensures
        match spec_extract_kind(spec_lower_ext(file_path@)) {
            Some(k) => r == Ok::<ExtractKind, KnowlixError>(k),
            None => r matches Err(KnowlixError::UnsupportedFileType(e)) && e@ == spec_lower_ext(
                file_path@,
            ),
        },
{
    let ext = lower_extension(file_path);
    match extract_kind(ext.as_str()) {
        Some(k) => Ok(k),
        None => Err(KnowlixError::UnsupportedFileType(ext)),
    }
}

/// The language recorded for a file: for code, the highlighting language of
/// its extension (lowercased); otherwise none.
pub open spec fn spec_entry_language(path: Seq<char>, file_type: FileType) -> Option<Seq<char>> {
    if file_type == FileType::Code {
        match spec_path_extension(path) {
            Some(e) => Some(spec_language(spec_to_lowercase(e))),
            None => None,
        }
    } else {
        None
    }
}

/// A file entry for a file just indexed, under a fresh id.
pub fn new_file_entry(
    project_id: &str,
    file_path: &str,
    size: u64,
    content_hash: String,
    now: Timestamp,
) -> (e: FileEntry)
    ensures
        e.id@.len() == 36,
        e.project_id@ == project_id@,
        e.path@ == file_path@,
        e.file_type == spec_file_type(spec_lower_ext(file_path@)),
        match spec_entry_language(file_path@, e.file_type) {
            Some(l) => e.language matches Some(x) && x@ == l,
            None => e.language is None,
        },
        e.size_bytes == size as i64,
        e.content_hash == content_hash,
        e.last_indexed == now,
        e.indexed,
{
    let file_type = detect_file_type(file_path);
    let language = if file_type == FileType::Code {
        match path_extension(file_path) {
            Some(ext) => Some(String::from_str(detect_language(ext.as_str()))),
            None => None,
        }
    } else {
        None
    };
    FileEntry {
        id: new_id(),
        project_id: String::from_str(project_id),
        path: String::from_str(file_path),
        file_type,
        language,
        size_bytes: size as i64,
        content_hash,
        last_indexed: now,
        indexed: true,
    }
}

/// What indexing a file must do, given the entry already stored for its
/// path and the hash of its current content.
pub enum FilePlan {
    /// The stored entry has the same content hash: nothing to do.
    Unchanged,
    /// The stored entry is out of date: drop the index data of that file id first.
    Replace { old_file_id: String },
    /// No entry is stored for the path.
    Fresh,
}

pub fn plan_file_index(existing: Option<&FileEntry>, content_hash: &str) -> (r: FilePlan)
    ensures
        match existing {
            None => r is Fresh,
            Some(e) => if e.content_hash@ == content_hash@ {
                r is Unchanged
            } else {
                r matches FilePlan::Replace { old_file_id } && old_file_id@ == e.id@
            },
        },
{
    match existing {
        None => FilePlan::Fresh,
        Some(e) => if str_eq(e.content_hash.as_str(), content_hash) {
            FilePlan::Unchanged
        } else {
            FilePlan::Replace { old_file_id: e.id.clone() }
        },
    }
}

/// What hashing a known file gave.
pub enum HashOutcome {
    /// The hex SHA-256 of its content.
    Hashed(String),
    /// The file no longer exists.
    Missing,
    /// The file exists but could not be read.
    Failed(KnowlixError),
}

/// What a re-index run does with a file it already tracks.
pub enum TrackedAction {
    /// The file is gone: drop it from the index.
    Remove,
    /// It could not be hashed: count it as failed with this message.
    Fail(String),
    /// Unchanged and indexed: skip it.
    Skip,
    /// Index it again.
    Reindex,
}

pub fn decide_tracked(entry: &FileEntry, outcome: HashOutcome) -> (r: TrackedAction)
    ensures
        match outcome {
            HashOutcome::Missing => r is Remove,
            HashOutcome::Failed(e) => r matches TrackedAction::Fail(m) && m@ == error_message(e),
            HashOutcome::Hashed(h) => if h@ == entry.content_hash@ && entry.indexed {
                r is Skip
            } else {
                r is Reindex
            },
        },
{
    match outcome {
        HashOutcome::Missing => TrackedAction::Remove,
        HashOutcome::Failed(e) => TrackedAction::Fail(e.message()),
        HashOutcome::Hashed(h) => if str_eq(h.as_str(), entry.content_hash.as_str())
            && entry.indexed {
            TrackedAction::Skip
        } else {
            TrackedAction::Reindex
        },
    }
}

/// Whether `path` is the path of one of the entries.
fn is_tracked(known: &Vec<FileEntry>, path: &str) -> (r: bool)
    ensures
        r == exists|i: int| 0 <= i < known@.len() && (#[trigger] known@[i]).path@ == path@,
{
    let mut i: usize = 0;
    while i < known.len()
        invariant
            i <= known@.len(),
            forall|k: int| 0 <= k < i ==> (#[trigger] known@[k]).path@ != path@,
        decreases known@.len() - i,
    {
        if str_eq(known[i].path.as_str(), path) {
            return true;
        }
        i = i + 1;
    }
    false
}

/// The paths among `found` that no known entry has, in order.
pub open spec fn spec_untracked(known: Seq<FileEntry>, found: Seq<Seq<char>>) -> Seq<Seq<char>>
    decreases found.len(),
{
    if found.len() == 0 {
        Seq::empty()
    } else if exists|i: int| 0 <= i < known.len() && (#[trigger] known[i]).path@ == found.last() {
        spec_untracked(known, found.drop_last())
    } else {
        spec_untracked(known, found.drop_last()).push(found.last())
    }
}

/// The paths found in a project's folders that the index does not track yet.
pub fn untracked_paths(known: &Vec<FileEntry>, found: &Vec<String>) -> (r: Vec<String>)
    ensures
        r.deep_view() == spec_untracked(known@, found.deep_view()),
{
    let ghost all = found.deep_view();
    let mut out: Vec<String> = Vec::new();
    let mut i: usize = 0;
    proof {
        assert(out.deep_view() =~= Seq::<Seq<char>>::empty());
    }
    while i < found.len()
        invariant
            all == found.deep_view(),
            all.len() == found@.len(),
            i <= found@.len(),
            out.deep_view() == spec_untracked(known@, all.take(i as int)),
        decreases found@.len() - i,
    {
        proof {
            assert(all.take(i + 1).drop_last() =~= all.take(i as int));
            assert(all.take(i + 1).last() == all[i as int]);
            assert(all[i as int] == found@[i as int]@);
        }
        if !is_tracked(known, found[i].as_str()) {
            let ghost before = out.deep_view();
            out.push(found[i].clone());
            proof {
                assert(out.deep_view() =~= before.push(found@[i as int]@));
            }
        }
        i = i + 1;
    }
    proof {
        assert(all.take(i as int) =~= all);
    }
    out
}

/// Whether some known entry has exactly this path.
pub open spec fn path_is_known(known: Seq<FileEntry>, p: Seq<char>) -> bool {
    exists|i: int| 0 <= i < known.len() && (#[trigger] known[i]).path@ == p
}

/// A found path is left to index exactly when no known entry has that very
/// path (full paths compared, so a file of the same name in another folder
/// does not hide it); nothing else is ever listed.
pub proof fn lemma_untracked_members(known: Seq<FileEntry>, found: Seq<Seq<char>>, p: Seq<char>)
    ensures
        spec_untracked(known, found).contains(p) <==> (found.contains(p) && !path_is_known(known, p)),
    decreases found.len(),
{
    if found.len() > 0 {
        let t = found.drop_last();
        let x = found.last();
        lemma_untracked_members(known, t, p);
        let r = spec_untracked(known, t);
        assert(found == t.push(x));
        if found.contains(p) && !t.contains(p) {
            let k = choose|k: int| 0 <= k < found.len() && found[k] == p;
            if k < t.len() {
                assert(t[k] == p);
            }
            assert(x == p);
        }
        if t.contains(p) {
            let k = choose|k: int| 0 <= k < t.len() && t[k] == p;
            assert(found[k] == p);
        }
        if path_is_known(known, x) {
            assert(spec_untracked(known, found) == r);
        } else {
            assert(spec_untracked(known, found) == r.push(x));
            assert(r.push(x)[r.len() as int] == x);
            if r.push(x).contains(p) && p != x {
                let k = choose|k: int| 0 <= k < r.push(x).len() && r.push(x)[k] == p;
                assert(r[k] == p);
            }
            if r.contains(p) {
                let k = choose|k: int| 0 <= k < r.len() && r[k] == p;
                assert(r.push(x)[k] == p);
            }
        }
    }
}

/// The paths left to index are the found paths, in the order found,
/// without those that a known entry has.
pub proof fn lemma_untracked_is_filter(known: Seq<FileEntry>, found: Seq<Seq<char>>)
    ensures
        spec_untracked(known, found) == found.filter(|p: Seq<char>| !path_is_known(known, p)),
    decreases found.len(),
{
    reveal(Seq::filter);
    let pred = |p: Seq<char>| !path_is_known(known, p);
    if found.len() == 0 {
        assert(found.filter(pred) == found);
    } else {
        lemma_untracked_is_filter(known, found.drop_last());
        let sub = found.drop_last().filter(pred);
        if pred(found.last()) {
            assert(found.filter(pred) == sub.push(found.last()));
        } else {
            assert(found.filter(pred) == sub);
        }
    }
}

/// How many results have the given status.
pub open spec fn count_status(rs: Seq<IndexFileResult>, st: IndexFileStatus) -> nat
    decreases rs.len(),
{
    if rs.len() == 0 {
        0
    } else {
        count_status(rs.drop_last(), st) + if rs.last().status == st {
            1nat
        } else {
            0nat
        }
    }
}

proof fn lemma_counts_sum(rs: Seq<IndexFileResult>)
    ensures
        count_status(rs, IndexFileStatus::Indexed) + count_status(rs, IndexFileStatus::Skipped)
            + count_status(rs, IndexFileStatus::Failed) + count_status(
            rs,
            IndexFileStatus::Removed,
        ) == rs.len(),
    decreases rs.len(),
{
    if rs.len() > 0 {
        lemma_counts_sum(rs.drop_last());
    }
}

/// The per-file results of a re-index run so far, with one counter per status.
pub struct ReindexTally {
    pub indexed: usize,
    pub skipped: usize,
    pub failed: usize,
    pub removed: usize,
    pub file_results: Vec<IndexFileResult>,
}

impl ReindexTally {
    /// Each counter is the number of results with its status.
    pub open spec fn wf(&self) -> bool {
        &&& self.indexed == count_status(self.file_results@, IndexFileStatus::Indexed)
        &&& self.skipped == count_status(self.file_results@, IndexFileStatus::Skipped)
        &&& self.failed == count_status(self.file_results@, IndexFileStatus::Failed)
        &&& self.removed == count_status(self.file_results@, IndexFileStatus::Removed)
    }

    pub fn new() -> (t: Self)
        ensures
            t.wf(),
            t.file_results@.len() == 0,
    {
        ReindexTally { indexed: 0, skipped: 0, failed: 0, removed: 0, file_results: Vec::new() }
    }

    /// Records the result of one file.
    pub fn record(&mut self, path: String, status: IndexFileStatus, error: Option<String>)
        requires
            old(self).wf(),
            old(self).file_results@.len() < usize::MAX,
        ensures
            final(self).wf(),
            final(self).file_results@ == old(self).file_results@.push(
                IndexFileResult { path, status, error },
            ),
    {
        let ghost before = self.file_results@;
        proof {
            lemma_counts_sum(before);
        }
        match status {
            IndexFileStatus::Indexed => self.indexed = self.indexed + 1,
            IndexFileStatus::Skipped => self.skipped = self.skipped + 1,
            IndexFileStatus::Failed => self.failed = self.failed + 1,
            IndexFileStatus::Removed => self.removed = self.removed + 1,
        }
        self.file_results.push(IndexFileResult { path, status, error });
        proof {
            assert(self.file_results@.drop_last() =~= before);
        }
    }

    /// Records what indexing one file gave: indexed, or failed with the
    /// error's message.
    pub fn record_index_result(&mut self, path: String, result: Result<(), KnowlixError>)
        requires
            old(self).wf(),
            old(self).file_results@.len() < usize::MAX,
        ensures
            final(self).wf(),
            final(self).file_results@.len() == old(self).file_results@.len() + 1,
            final(self).file_results@.drop_last() == old(self).file_results@,
            final(self).file_results@.last().path == path,
            match result {
                Ok(()) => final(self).file_results@.last().status == IndexFileStatus::Indexed
                    && final(self).file_results@.last().error is None,
                Err(e) => final(self).file_results@.last().status == IndexFileStatus::Failed
                    && (final(self).file_results@.last().error matches Some(m) && m@
                    == error_message(e)),
            },
    {
        match result {
            Ok(()) => self.record(path, IndexFileStatus::Indexed, None),
            Err(e) => self.record(path, IndexFileStatus::Failed, Some(e.message())),
        }
        proof {
            assert(self.file_results@.drop_last() =~= old(self).file_results@);
        }
    }

    /// The statistics of the finished run.
    pub fn into_stats(self, total_files: usize, duration_ms: u64) -> (s: IndexStats)
        requires
            self.wf(),
        ensures
            s.total_files == total_files,
            s.duration_ms == duration_ms,
            s.file_results@ == self.file_results@,
            s.indexed == count_status(s.file_results@, IndexFileStatus::Indexed),
            s.skipped == count_status(s.file_results@, IndexFileStatus::Skipped),
            s.failed == count_status(s.file_results@, IndexFileStatus::Failed),
            s.removed == count_status(s.file_results@, IndexFileStatus::Removed),
            s.indexed + s.skipped + s.failed + s.removed == s.file_results@.len(),
    {
        proof {
            lemma_counts_sum(self.file_results@);
        }
        IndexStats {
            total_files,
            indexed: self.indexed,
            skipped: self.skipped,
            failed: self.failed,
            removed: self.removed,
            duration_ms,
            file_results: self.file_results,
        }
    }
}

/// Every file of a re-index run gets exactly one result, and the four
/// counters add up to the number of results.
pub proof fn lemma_tally_counts(t: ReindexTally)
    requires
        t.wf(),
    ensures
        t.indexed + t.skipped + t.failed + t.removed == t.file_results@.len(),
{
    lemma_counts_sum(t.file_results@);
}

/// What a re-index run waits for after a decision on a known file.
#[derive(Clone, Copy, Debug, PartialEq, Eq, Structural)]
pub enum Pending {
    /// Nothing: the run can take its next step.
    Idle,
    /// The file is being dropped from the index.
    Removal,
    /// The file is being indexed again.
    Indexing,
}

/// The next thing a re-index run asks for.
pub enum ReindexStep {
    /// Hash the known file at `path`, the `current`-th of the run.
    Hash { path: String, current: usize },
    /// Index the new file at `path`, the `current`-th of the run.
    IndexNew { path: String, current: usize },
    /// Every file has its result.
    Done,
}

/// What to do with a known file once it is hashed.
pub enum HashFollowUp {
    /// Its result is recorded already.
    Nothing,
    /// Drop it from the index, then report `on_removed`.
    RemoveFile(String),
    /// Index it again, then report `on_indexed`.
    IndexFile(String),
}

/// A re-index run over the files a project tracks, then the files found in
/// its folders that it does not track yet, one file at a time.
pub struct ReindexRun {
    pub known: Vec<FileEntry>,
    pub new_paths: Vec<String>,
    pub total: usize,
    pub pos: usize,
    pub pending: Pending,
    pub tally: ReindexTally,
}

impl ReindexRun {
    /// The paths of the run in the order it takes them.
    pub open spec fn run_paths(&self) -> Seq<Seq<char>> {
        self.known@.map_values(|e: FileEntry| e.path@) + self.new_paths.deep_view()
    }

    /// The files before `pos` have their results, in run order.
    pub open spec fn wf(&self) -> bool {
        &&& self.tally.wf()
        &&& self.total == self.known@.len() + self.new_paths@.len()
        &&& self.pos <= self.total
        &&& self.tally.file_results@.len() == self.pos
        &&& forall|i: int|
            0 <= i < self.pos ==> (#[trigger] self.tally.file_results@[i]).path@
                == self.run_paths()[i]
        &&& self.pending != Pending::Idle ==> self.pos < self.known@.len()
        &&& forall|i: int|
            0 <= i < self.pos ==> ((#[trigger] self.tally.file_results@[i]).error is Some
                <==> self.tally.file_results@[i].status == IndexFileStatus::Failed)
    }

    /// A run over the known files and the found paths they do not cover.
    pub fn start(known: Vec<FileEntry>, found: &Vec<String>) -> (r: Self)
        requires
            known@.len() + found@.len() <= usize::MAX,
        ensures
            r.wf(),
            r.known@ == known@,
            r.new_paths.deep_view() == spec_untracked(known@, found.deep_view()),
            r.pos == 0,
            r.pending == Pending::Idle,
    {
        let new_paths = untracked_paths(&known, found);
        proof {
            lemma_untracked_len(known@, found.deep_view());
        }
        let total = known.len() + new_paths.len();
        ReindexRun { known, new_paths, total, pos: 0, pending: Pending::Idle, tally: ReindexTally::new() }
    }

    /// What the run needs next: the next known file to hash, then the
    /// next new file to index, then nothing.
    pub fn next_step(&self) -> (s: ReindexStep)
        requires
            self.wf(),
            self.pending == Pending::Idle,
        ensures
            self.pos < self.known@.len() ==> (s matches ReindexStep::Hash { path, current }
                && path@ == self.known@[self.pos as int].path@ && current == self.pos + 1),
            self.known@.len() <= self.pos < self.total ==> (s matches ReindexStep::IndexNew {
                path,
                current,
            } && path@ == self.new_paths@[self.pos - self.known@.len()]@ && current == self.pos
                + 1),
            self.pos == self.total ==> s is Done,
    {
        if self.pos < self.known.len() {
            ReindexStep::Hash { path: self.known[self.pos].path.clone(), current: self.pos + 1 }
        } else if self.pos < self.total {
            ReindexStep::IndexNew {
                path: self.new_paths[self.pos - self.known.len()].clone(),
                current: self.pos + 1,
            }
        } else {
            ReindexStep::Done
        }
    }

    proof fn lemma_path_at(&self)
        requires
            self.wf(),
            self.pos < self.total,
        ensures
            self.pos < self.known@.len() ==> self.run_paths()[self.pos as int]
                == self.known@[self.pos as int].path@,
            self.pos >= self.known@.len() ==> self.run_paths()[self.pos as int]
                == self.new_paths@[self.pos - self.known@.len()]@,
    {
        let a = self.known@.map_values(|e: FileEntry| e.path@);
        assert(a.len() == self.known@.len());
        if self.pos >= self.known@.len() {
            assert(self.new_paths.deep_view()[self.pos - self.known@.len()]
                == self.new_paths@[self.pos - self.known@.len()]@);
        }
    }

    fn push_result(&mut self, status: IndexFileStatus, error: Option<String>)
        requires
            old(self).wf(),
            old(self).pos < old(self).total,
            error is Some <==> status == IndexFileStatus::Failed,
        ensures
            final(self).wf(),
            final(self).pos == old(self).pos + 1,
            final(self).pending == Pending::Idle,
            final(self).known == old(self).known,
            final(self).new_paths == old(self).new_paths,
            final(self).tally.file_results@.drop_last() == old(self).tally.file_results@,
            final(self).tally.file_results@.last().status == status,
            final(self).tally.file_results@.last().error == error,
    {
        proof {
            self.lemma_path_at();
        }
        let path = if self.pos < self.known.len() {
            self.known[self.pos].path.clone()
        } else {
            self.new_paths[self.pos - self.known.len()].clone()
        };
        let ghost before = self.tally.file_results@;
        self.tally.record(path, status, error);
        self.pos = self.pos + 1;
        self.pending = Pending::Idle;
        proof {
            assert forall|i: int| 0 <= i < self.pos implies (#[trigger] self.tally.file_results@[i]).path@
                == self.run_paths()[i] && (self.tally.file_results@[i].error is Some
                <==> self.tally.file_results@[i].status == IndexFileStatus::Failed) by {
                if i < before.len() {
                    assert(self.tally.file_results@[i] == before[i]);
                }
            }
        }
    }

    /// Takes the hash of the current known file and decides (see
    /// `decide_tracked`): unchanged files are skipped and unreadable ones
    /// fail at once; a missing file is to be removed and a changed one
    /// indexed, and the run waits for that.
    pub fn on_hash(&mut self, outcome: HashOutcome) -> (f: HashFollowUp)
        requires
            old(self).wf(),
            old(self).pending == Pending::Idle,
            old(self).pos < old(self).known@.len(),
        ensures
            final(self).wf(),
            final(self).known == old(self).known,
            final(self).new_paths == old(self).new_paths,
            hash_effect(*old(self), *final(self), outcome, f),
    {
        let path = self.known[self.pos].path.clone();
        match decide_tracked(&self.known[self.pos], outcome) {
            TrackedAction::Remove => {
                self.pending = Pending::Removal;
                HashFollowUp::RemoveFile(path)
            },
            TrackedAction::Fail(m) => {
                self.push_result(IndexFileStatus::Failed, Some(m));
                HashFollowUp::Nothing
            },
            TrackedAction::Skip => {
                self.push_result(IndexFileStatus::Skipped, None);
                HashFollowUp::Nothing
            },
            TrackedAction::Reindex => {
                self.pending = Pending::Indexing;
                HashFollowUp::IndexFile(path)
            },
        }
    }

    /// The file waiting for removal is gone from the index: it counts as
    /// removed, whatever the removal itself reported.
    pub fn on_removed(&mut self)
        requires
            old(self).wf(),
            old(self).pending == Pending::Removal,
        ensures
            final(self).wf(),
            final(self).pos == old(self).pos + 1,
            final(self).pending == Pending::Idle,
            final(self).known == old(self).known,
            final(self).new_paths == old(self).new_paths,
            final(self).tally.file_results@.drop_last() == old(self).tally.file_results@,
            final(self).tally.file_results@.last().status == IndexFileStatus::Removed,
            final(self).tally.file_results@.last().error is None,
    {
        self.push_result(IndexFileStatus::Removed, None);
    }

    /// What indexing the current file gave: indexed, or failed with the
    /// error's message.
    pub fn on_indexed(&mut self, result: Result<(), KnowlixError>)
        requires
            old(self).wf(),
            old(self).pending == Pending::Indexing || (old(self).pending == Pending::Idle
                && old(self).known@.len() <= old(self).pos < old(self).total),
        ensures
            final(self).wf(),
            final(self).pos == old(self).pos + 1,
            final(self).pending == Pending::Idle,
            final(self).known == old(self).known,
            final(self).new_paths == old(self).new_paths,
            final(self).tally.file_results@.drop_last() == old(self).tally.file_results@,
            match result {
                Ok(()) => final(self).tally.file_results@.last().status == IndexFileStatus::Indexed
                    && final(self).tally.file_results@.last().error is None,
                Err(e) => final(self).tally.file_results@.last().status == IndexFileStatus::Failed
                    && (final(self).tally.file_results@.last().error matches Some(m) && m@
                    == error_message(e)),
            },
    {
        match result {
            Ok(()) => self.push_result(IndexFileStatus::Indexed, None),
            Err(e) => self.push_result(IndexFileStatus::Failed, Some(e.message())),
        }
    }

    /// The statistics of a finished run: one result per file, in run order.
    pub fn finish(self, duration_ms: u64) -> (s: IndexStats)
        requires
            self.wf(),
            self.pos == self.total,
        ensures
            s.total_files == self.total,
            s.total_files == self.known@.len() + self.new_paths@.len(),
            s.duration_ms == duration_ms,
            s.file_results@ == self.tally.file_results@,
            s.file_results@.len() == s.total_files,
            forall|i: int|
                0 <= i < s.total_files ==> ((#[trigger] s.file_results@[i]).error is Some
                    <==> s.file_results@[i].status == IndexFileStatus::Failed),
            forall|i: int|
                0 <= i < s.total_files ==> (#[trigger] s.file_results@[i]).path@
                    == self.run_paths()[i],
            s.indexed == count_status(s.file_results@, IndexFileStatus::Indexed),
            s.skipped == count_status(s.file_results@, IndexFileStatus::Skipped),
            s.failed == count_status(s.file_results@, IndexFileStatus::Failed),
            s.removed == count_status(s.file_results@, IndexFileStatus::Removed),
            s.indexed + s.skipped + s.failed + s.removed == s.total_files,
    {
        let total = self.total;
        self.tally.into_stats(total, duration_ms)
    }
}

/// What taking a hash does to a run (see `ReindexRun::on_hash`).
pub open spec fn hash_effect(before: ReindexRun, after: ReindexRun, outcome: HashOutcome, f: HashFollowUp) -> bool {
    let e = before.known@[before.pos as int];
    let last = after.tally.file_results@.last();
    match outcome {
        HashOutcome::Missing => {
            &&& f matches HashFollowUp::RemoveFile(p) && p@ == e.path@
            &&& after.pending == Pending::Removal
            &&& after.pos == before.pos
            &&& after.tally == before.tally
        },
        HashOutcome::Failed(err) => {
            &&& f is Nothing
            &&& after.pos == before.pos + 1
            &&& after.tally.file_results@.drop_last() == before.tally.file_results@
            &&& last.status == IndexFileStatus::Failed
            &&& last.error matches Some(m) && m@ == error_message(err)
        },
        HashOutcome::Hashed(h) => if h@ == e.content_hash@ && e.indexed {
            &&& f is Nothing
            &&& after.pos == before.pos + 1
            &&& after.tally.file_results@.drop_last() == before.tally.file_results@
            &&& last.status == IndexFileStatus::Skipped
            &&& last.error is None
        } else {
            &&& f matches HashFollowUp::IndexFile(p) && p@ == e.path@
            &&& after.pending == Pending::Indexing
            &&& after.pos == before.pos
            &&& after.tally == before.tally
        },
    }
}

proof fn lemma_untracked_len(known: Seq<FileEntry>, found: Seq<Seq<char>>)
    ensures
        spec_untracked(known, found).len() <= found.len(),
    decreases found.len(),
{
    if found.len() > 0 {
        lemma_untracked_len(known, found.drop_last());
    }
}

/// How many entries are marked indexed.
pub open spec fn count_indexed(files: Seq<FileEntry>) -> nat
    decreases files.len(),
{
    if files.len() == 0 {
        0
    } else {
        count_indexed(files.drop_last()) + if files.last().indexed {
            1nat
        } else {
            0nat
        }
    }
}

/// The latest indexing time among the indexed entries.
pub open spec fn latest_indexed(files: Seq<FileEntry>) -> Option<Timestamp>
    decreases files.len(),
{
    if files.len() == 0 {
        None
    } else {
        let rest = latest_indexed(files.drop_last());
        let f = files.last();
        if !f.indexed {
            rest
        } else {
            match rest {
                None => Some(f.last_indexed),
                Some(m) => if ts_le(f.last_indexed, m) && !ts_le(m, f.last_indexed) {
                    Some(m)
                } else {
                    Some(f.last_indexed)
                },
            }
        }
    }
}

proof fn lemma_count_indexed_le(files: Seq<FileEntry>)
    ensures
        count_indexed(files) <= files.len(),
    decreases files.len(),
{
    if files.len() > 0 {
        lemma_count_indexed_le(files.drop_last());
    }
}

/// The index status of a project from the entries of its files.
pub fn summarize_index_status(files: &Vec<FileEntry>, in_progress: bool) -> (s: IndexStatus)
    ensures
        s.total_files == files@.len(),
        s.indexed_files == count_indexed(files@),
        s.in_progress == in_progress,
        s.last_indexed == latest_indexed(files@),
{
    let mut count: usize = 0;
    let mut latest: Option<Timestamp> = None;
    let mut i: usize = 0;
    while i < files.len()
        invariant
            i <= files@.len(),
            count == count_indexed(files@.take(i as int)),
            latest == latest_indexed(files@.take(i as int)),
        decreases files@.len() - i,
    {
        proof {
            assert(files@.take(i + 1).drop_last() =~= files@.take(i as int));
            assert(files@.take(i + 1).last() == files@[i as int]);
            lemma_count_indexed_le(files@.take(i as int));
        }
        let f = &files[i];
        if f.indexed {
            count = count + 1;
            latest = match latest {
                None => Some(f.last_indexed),
                Some(m) => if ts_later(m, f.last_indexed) {
                    Some(m)
                } else {
                    Some(f.last_indexed)
                },
            };
        }
        i = i + 1;
    }
    proof {
        assert(files@.take(i as int) =~= files@);
    }
    IndexStatus { total_files: files.len(), indexed_files: count, in_progress, last_indexed: latest }
}

/// The status never counts more indexed files than files; there is a
/// latest indexing time exactly when some file is indexed, and it is that of
/// an indexed file and no earlier than any other.
pub proof fn lemma_latest_indexed(files: Seq<FileEntry>)
    ensures
        count_indexed(files) <= files.len(),
        latest_indexed(files) is None <==> (forall|i: int|
            0 <= i < files.len() ==> !(#[trigger] files[i]).indexed),
        latest_indexed(files) matches Some(m) ==> (exists|i: int|
            0 <= i < files.len() && (#[trigger] files[i]).indexed && files[i].last_indexed == m),
        latest_indexed(files) matches Some(m) ==> (forall|i: int|
            0 <= i < files.len() && (#[trigger] files[i]).indexed ==> ts_le(
                files[i].last_indexed,
                m,
            )),
    decreases files.len(),
{
    lemma_count_indexed_le(files);
    if files.len() > 0 {
        let rest = files.drop_last();
        let f = files.last();
        lemma_latest_indexed(rest);
        assert(files[files.len() - 1] == f);
        assert forall|i: int| 0 <= i < rest.len() implies #[trigger] rest[i] == files[i] by {}
        match latest_indexed(rest) {
            None => {
                if !f.indexed {
                    assert forall|i: int| 0 <= i < files.len() implies !(
                    #[trigger] files[i]).indexed by {
                        if i < rest.len() {
                            assert(files[i] == rest[i]);
                        }
                    }
                } else {
                    assert forall|i: int|
                        0 <= i < files.len() && (#[trigger] files[i]).indexed implies ts_le(
                        files[i].last_indexed,
                        f.last_indexed,
                    ) by {
                        if i < rest.len() {
                            assert(files[i] == rest[i]);
                            assert(!rest[i].indexed);
                        }
                    }
                }
            },
            Some(mr) => {
                let j = choose|i: int|
                    0 <= i < rest.len() && (#[trigger] rest[i]).indexed && rest[i].last_indexed
                        == mr;
                assert(files[j] == rest[j]);
                if let Some(m) = latest_indexed(files) {
                    assert forall|i: int|
                        0 <= i < files.len() && (#[trigger] files[i]).indexed implies ts_le(
                        files[i].last_indexed,
                        m,
                    ) by {
                        if i < rest.len() {
                            assert(files[i] == rest[i]);
                            assert(ts_le(rest[i].last_indexed, mr));
                        }
                    }
                }
            },
        }
    }
}

} // verus!
