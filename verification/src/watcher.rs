//! What the file watcher reports: a change seen on disk turned into a file
//! event, and what a periodic rescan announces.
use vstd::prelude::*;

use crate::common::{IndexFileResult, IndexFileStatus};

verus! {

/// A file that was created, modified or deleted.
pub enum FileEvent {
    Created(String),
    Modified(String),
    Deleted(String),
}

/// The kind of a change reported by the file system watcher.
#[derive(Clone, Copy, Debug, PartialEq, Eq, Structural)]
pub enum ChangeKind {
    /// Something was created.
    Create,
    /// A rename reported with both the old and the new path.
    RenameBoth,
    /// A rename reported with its new path.
    RenameTo,
    /// A rename reported with its old path.
    RenameFrom,
    /// A rename of another or unknown form.
    RenameOther,
    /// Any other modification (data, metadata).
    Modify,
    /// Something was removed.
    Remove,
    /// Access and other kinds of change.
    Other,
}

/// The file event of a change, from its kind and the paths it names: the
/// first path for a creation, a plain modification, a rename to a new path
/// or from an old one, and a removal; the second (new) path for a rename
/// that names both; nothing for other changes or when the path is missing.
pub open spec fn spec_file_event(kind: ChangeKind, paths: Seq<Seq<char>>) -> Option<(int, Seq<char>)> {
    match kind {
        ChangeKind::Create => if paths.len() > 0 {
            Some((0, paths[0]))
        } else {
            None
        },
        ChangeKind::RenameBoth => if paths.len() > 1 {
            Some((1, paths[1]))
        } else {
            None
        },
        ChangeKind::RenameTo | ChangeKind::Modify => if paths.len() > 0 {
            Some((1, paths[0]))
        } else {
            None
        },
        ChangeKind::RenameFrom | ChangeKind::Remove => if paths.len() > 0 {
            Some((2, paths[0]))
        } else {
            None
        },
        _ => None,
    }
}

/// The event as a pair: 0 for created, 1 for modified, 2 for deleted, and the path.
pub open spec fn event_pair(e: FileEvent) -> (int, Seq<char>) {
    match e {
        FileEvent::Created(p) => (0, p@),
        FileEvent::Modified(p) => (1, p@),
        FileEvent::Deleted(p) => (2, p@),
    }
}

/// The file event of a change (see `spec_file_event`).
pub fn file_event(kind: ChangeKind, mut paths: Vec<String>) -> (r: Option<FileEvent>)
    ensures
        match spec_file_event(kind, paths.deep_view()) {
            Some(p) => r matches Some(e) && event_pair(e) == p,
            None => r is None,
        },
{
    let ghost v = paths.deep_view();
    match kind {
        ChangeKind::Create => if paths.len() > 0 {
            let p = paths.swap_remove(0);
            proof {
                assert(p@ == v[0]);
            }
            Some(FileEvent::Created(p))
        } else {
            None
        },
        ChangeKind::RenameBoth => if paths.len() > 1 {
            let p = paths.swap_remove(1);
            proof {
                assert(p@ == v[1]);
            }
            Some(FileEvent::Modified(p))
        } else {
            None
        },
        ChangeKind::RenameTo | ChangeKind::Modify => if paths.len() > 0 {
            let p = paths.swap_remove(0);
            proof {
                assert(p@ == v[0]);
            }
            Some(FileEvent::Modified(p))
        } else {
            None
        },
        ChangeKind::RenameFrom | ChangeKind::Remove => if paths.len() > 0 {
            let p = paths.swap_remove(0);
            proof {
                assert(p@ == v[0]);
            }
            Some(FileEvent::Deleted(p))
        } else {
            None
        },
        _ => None,
    }
}

/// Whether a periodic rescan runs: only when the project's index status is
/// known and no indexing is in progress.
pub fn rescan_due(in_progress: Option<bool>) -> (r: bool)
    ensures
        r == (in_progress == Some(false)),
{
    match in_progress {
        Some(false) => true,
        _ => false,
    }
}

/// An announcement after a rescan: a file was indexed, or removed.
pub enum ScanNotice {
    FileIndexed(String),
    FileRemoved(String),
}

/// The announcements of one result: indexed and removed files only.
pub open spec fn notice_of(r: IndexFileResult) -> Option<(bool, Seq<char>)> {
    match r.status {
        IndexFileStatus::Indexed => Some((true, r.path@)),
        IndexFileStatus::Removed => Some((false, r.path@)),
        _ => None,
    }
}

pub open spec fn notices_of(rs: Seq<IndexFileResult>) -> Seq<(bool, Seq<char>)>
    decreases rs.len(),
{
    if rs.len() == 0 {
        Seq::empty()
    } else {
        let p = notices_of(rs.drop_last());
        match notice_of(rs.last()) {
            Some(n) => p.push(n),
            None => p,
        }
    }
}

pub open spec fn notice_pair(n: ScanNotice) -> (bool, Seq<char>) {
    match n {
        ScanNotice::FileIndexed(p) => (true, p@),
        ScanNotice::FileRemoved(p) => (false, p@),
    }
}

/// What a rescan announces, in the order of its results.
pub fn scan_notices(results: &Vec<IndexFileResult>) -> (r: Vec<ScanNotice>)
    ensures
        r@.map_values(|n: ScanNotice| notice_pair(n)) == notices_of(results@),
{
    let mut out: Vec<ScanNotice> = Vec::new();
    let mut i: usize = 0;
    while i < results.len()
        invariant
            i <= results@.len(),
            out@.map_values(|n: ScanNotice| notice_pair(n)) == notices_of(results@.take(i as int)),
        decreases results@.len() - i,
    {
        proof {
            assert(results@.take(i + 1).drop_last() =~= results@.take(i as int));
            assert(results@.take(i + 1).last() == results@[i as int]);
        }
        let r = &results[i];
        let ghost before = out@;
        match r.status {
            IndexFileStatus::Indexed => {
                out.push(ScanNotice::FileIndexed(r.path.clone()));
                proof {
                    assert(out@.map_values(|n: ScanNotice| notice_pair(n)) =~= before.map_values(
                        |n: ScanNotice| notice_pair(n),
                    ).push((true, r.path@)));
                }
            },
            IndexFileStatus::Removed => {
                out.push(ScanNotice::FileRemoved(r.path.clone()));
                proof {
                    assert(out@.map_values(|n: ScanNotice| notice_pair(n)) =~= before.map_values(
                        |n: ScanNotice| notice_pair(n),
                    ).push((false, r.path@)));
                }
            },
            _ => {},
        }
        i = i + 1;
    }
    proof {
        assert(results@.take(i as int) =~= results@);
    }
    out
}

} // verus!
