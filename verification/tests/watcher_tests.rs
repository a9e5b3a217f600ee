use knowlix::common::{IndexFileResult, IndexFileStatus};
use knowlix::watcher::{file_event, rescan_due, scan_notices, ChangeKind, FileEvent, ScanNotice};

fn paths(ps: &[&str]) -> Vec<String> {
    ps.iter().map(|p| p.to_string()).collect()
}

#[test]
fn change_kinds_become_file_events() {
    assert!(matches!(file_event(ChangeKind::Create, paths(&["/a"])), Some(FileEvent::Created(p)) if p == "/a"));
    assert!(matches!(file_event(ChangeKind::RenameBoth, paths(&["/old", "/new"])), Some(FileEvent::Modified(p)) if p == "/new"));
    assert!(file_event(ChangeKind::RenameBoth, paths(&["/old"])).is_none());
    assert!(matches!(file_event(ChangeKind::RenameTo, paths(&["/n"])), Some(FileEvent::Modified(p)) if p == "/n"));
    assert!(matches!(file_event(ChangeKind::RenameFrom, paths(&["/o"])), Some(FileEvent::Deleted(p)) if p == "/o"));
    assert!(file_event(ChangeKind::RenameOther, paths(&["/o"])).is_none());
    assert!(matches!(file_event(ChangeKind::Modify, paths(&["/m", "/x"])), Some(FileEvent::Modified(p)) if p == "/m"));
    assert!(matches!(file_event(ChangeKind::Remove, paths(&["/r"])), Some(FileEvent::Deleted(p)) if p == "/r"));
    assert!(file_event(ChangeKind::Other, paths(&["/a"])).is_none());
    assert!(file_event(ChangeKind::Create, vec![]).is_none());
}

#[test]
fn rescans_run_only_when_idle() {
    assert!(rescan_due(Some(false)));
    assert!(!rescan_due(Some(true)));
    assert!(!rescan_due(None));
}

#[test]
fn rescans_announce_indexed_and_removed_files() {
    let r = |p: &str, status| IndexFileResult { path: p.into(), status, error: None };
    let results = vec![
        r("a", IndexFileStatus::Indexed),
        r("b", IndexFileStatus::Skipped),
        r("c", IndexFileStatus::Removed),
        r("d", IndexFileStatus::Failed),
    ];
    let notices = scan_notices(&results);
    assert_eq!(notices.len(), 2);
    assert!(matches!(&notices[0], ScanNotice::FileIndexed(p) if p == "a"));
    assert!(matches!(&notices[1], ScanNotice::FileRemoved(p) if p == "c"));
}
