use knowlix::chunking::{chunk_text, estimate_tokens, try_chunk_text};
use knowlix::common::{FileEntry, FileType, IndexFileStatus, KnowlixError, Timestamp};
use knowlix::digest::{sha256_hex, text_hash};
use knowlix::filetypes::{
    detect_file_type, detect_language, extract_kind, is_supported_extension, ExtractKind,
};
use knowlix::indexer::{
    decide_tracked, extraction_plan, new_file_entry, plan_file_index, summarize_index_status,
    untracked_paths, FilePlan, HashFollowUp, HashOutcome, ReindexRun, ReindexStep, ReindexTally,
    TrackedAction,
};

#[test]
fn test_chunk_text_small() {
    let text = "hello world";
    let chunks = chunk_text(text, "file-1");
    assert_eq!(chunks.len(), 1);
    assert_eq!(chunks[0].content, "hello world");
    assert_eq!(chunks[0].chunk_index, 0);
    assert_eq!(chunks[0].start_byte, 0);
    assert_eq!(chunks[0].end_byte, 11);
}

#[test]
fn test_chunk_text_large() {
    let text = "The quick brown fox jumps over the lazy dog.\n".repeat(100);
    let chunks = chunk_text(&text, "file-2");
    assert!(chunks.len() >= 2);
    assert_eq!(chunks[0].start_byte, 0);
    for (i, c) in chunks.iter().enumerate() {
        assert_eq!(c.chunk_index, i as i32);
    }
}

#[test]
fn test_chunk_text_overlap() {
    let line = "word ".repeat(1000);
    let chunks = chunk_text(&line, "file-3");
    assert!(chunks.len() >= 2);
    let end1 = chunks[0].end_byte as usize;
    let start2 = chunks[1].start_byte as usize;
    assert!(start2 < end1, "Chunks should overlap");
}

#[test]
fn test_detect_file_type() {
    assert_eq!(detect_file_type("foo.rs"), FileType::Code);
    assert_eq!(detect_file_type("README.md"), FileType::Markdown);
    assert_eq!(detect_file_type("notes.txt"), FileType::Text);
    assert_eq!(detect_file_type("doc.pdf"), FileType::Pdf);
    assert_eq!(detect_file_type("img.png"), FileType::Image);
    assert_eq!(detect_file_type("data.xyz"), FileType::Unknown);
}

#[test]
fn test_detect_language() {
    assert_eq!(detect_language("rs"), "rust");
    assert_eq!(detect_language("py"), "python");
    assert_eq!(detect_language("tsx"), "typescript");
    assert_eq!(detect_language("go"), "go");
    assert_eq!(detect_language("xyz"), "plaintext");
}

#[test]
fn test_hash_file() {
    // The hash of a file is the SHA-256 of its bytes in hex.
    let data = b"test content\n";
    let hash = sha256_hex(data);
    assert_eq!(hash.len(), 64);
    let hash2 = sha256_hex(data);
    assert_eq!(hash, hash2);
}

#[test]
fn test_estimate_tokens() {
    assert_eq!(estimate_tokens(""), 1);
    assert_eq!(estimate_tokens("hello world"), 2);
    assert_eq!(estimate_tokens("a".repeat(400).as_str()), 100);
}

#[test]
fn test_is_supported_extension() {
    assert!(is_supported_extension("md"));
    assert!(is_supported_extension("rs"));
    assert!(is_supported_extension("ts"));
    assert!(is_supported_extension("py"));
    assert!(is_supported_extension("txt"));
    assert!(is_supported_extension("pdf"));
    assert!(is_supported_extension("docx"));
    assert!(is_supported_extension("xlsx"));
    assert!(is_supported_extension("pptx"));
    assert!(is_supported_extension("csv"));
    assert!(!is_supported_extension("png"));
    assert!(!is_supported_extension("xyz"));
    assert!(!is_supported_extension(""));
}

#[test]
fn sha256_of_known_text() {
    assert_eq!(
        sha256_hex(b"abc"),
        "ba7816bf8f01cfea414140de5dae2223b00361a396177a9cb410ff61f20015ad"
    );
    assert_eq!(text_hash("abc"), sha256_hex(b"abc"));
}

#[test]
fn chunks_cover_text_with_overlap_and_newline_ends() {
    let text = "The quick brown fox jumps over the lazy dog.\n".repeat(200);
    let chunks = chunk_text(&text, "f");
    assert_eq!(chunks[0].start_byte, 0);
    assert_eq!(chunks.last().unwrap().end_byte as usize, text.len());
    for w in chunks.windows(2) {
        assert!(w[1].start_byte < w[0].end_byte);
        assert!(w[1].start_byte > w[0].start_byte);
    }
    for c in &chunks {
        assert!(c.end_byte - c.start_byte <= 3600);
        assert_eq!(c.content, &text[c.start_byte as usize..c.end_byte as usize]);
        assert_eq!(c.file_id, "f");
        assert_eq!(c.token_count as usize, estimate_tokens(&c.content));
        if (c.end_byte as usize) < text.len() {
            assert!(c.content.ends_with('\n'));
        }
    }
}

#[test]
fn chunking_always_moves_forward() {
    // the overlap would step back to the first chunk's start: the next chunk
    // starts where the first ends
    let text = format!("a\n{}", "b".repeat(3600));
    let chunks = chunk_text(&text, "f");
    assert_eq!(chunks.len(), 2);
    assert_eq!((chunks[0].start_byte, chunks[0].end_byte), (0, 2));
    assert_eq!((chunks[1].start_byte, chunks[1].end_byte), (2, 3602));
    assert_eq!(chunks[1].chunk_index, 1);
    let longer = format!("a\n{}", "b".repeat(4000));
    let chunks = try_chunk_text(&longer, "f").unwrap();
    let spans: Vec<(i64, i64)> = chunks.iter().map(|c| (c.start_byte, c.end_byte)).collect();
    assert_eq!(spans, vec![(0, 2), (2, 3602), (3202, 4002)]);
    let ok = "x".repeat(5000);
    assert!(try_chunk_text(&ok, "f").is_some());
}

#[test]
fn chunk_boundaries_respect_multibyte_characters() {
    let text = "é".repeat(3000);
    let chunks = chunk_text(&text, "f");
    for c in &chunks {
        assert!(text.is_char_boundary(c.start_byte as usize));
        assert!(text.is_char_boundary(c.end_byte as usize));
    }
}

#[test]
fn extraction_plan_by_extension() {
    assert!(matches!(extraction_plan("/a/b.DOCX"), Ok(ExtractKind::Docx)));
    assert!(matches!(extraction_plan("x.odp"), Ok(ExtractKind::OpenDocument)));
    assert!(matches!(extraction_plan("x.pdf"), Ok(ExtractKind::Pdf)));
    assert!(matches!(extraction_plan("x.ods"), Ok(ExtractKind::Spreadsheet)));
    assert!(matches!(extraction_plan("x.pptx"), Ok(ExtractKind::Slides)));
    assert!(matches!(extraction_plan("x.csv"), Ok(ExtractKind::PlainText)));
    match extraction_plan("x.PNG") {
        Err(KnowlixError::UnsupportedFileType(e)) => assert_eq!(e, "png"),
        _ => panic!("png is not extractable"),
    }
    match extraction_plan("noext") {
        Err(KnowlixError::UnsupportedFileType(e)) => assert_eq!(e, ""),
        _ => panic!("no extension is not extractable"),
    }
    assert!(extract_kind("h").is_some());
}

fn ts(secs: i64) -> Timestamp {
    Timestamp { secs, nanos: 0 }
}

fn entry(path: &str, hash: &str, indexed: bool, secs: i64) -> FileEntry {
    FileEntry {
        id: format!("id-{path}"),
        project_id: "p".to_string(),
        path: path.to_string(),
        file_type: FileType::Text,
        language: None,
        size_bytes: 1,
        content_hash: hash.to_string(),
        last_indexed: ts(secs),
        indexed,
    }
}

#[test]
fn new_file_entry_fields() {
    let e = new_file_entry("proj", "/src/Main.RS", 42, "h".to_string(), ts(7));
    assert_eq!(e.id.len(), 36);
    assert_eq!(e.project_id, "proj");
    assert_eq!(e.path, "/src/Main.RS");
    assert_eq!(e.file_type, FileType::Code);
    assert_eq!(e.language.as_deref(), Some("rust"));
    assert_eq!(e.size_bytes, 42);
    assert!(e.indexed);
    let t = new_file_entry("proj", "notes.md", 1, "h".to_string(), ts(7));
    assert_eq!(t.file_type, FileType::Markdown);
    assert!(t.language.is_none());
}

#[test]
fn file_plan_decisions() {
    let e = entry("a.txt", "h1", true, 1);
    assert!(matches!(plan_file_index(None, "h1"), FilePlan::Fresh));
    assert!(matches!(plan_file_index(Some(&e), "h1"), FilePlan::Unchanged));
    match plan_file_index(Some(&e), "h2") {
        FilePlan::Replace { old_file_id } => assert_eq!(old_file_id, "id-a.txt"),
        _ => panic!("changed content must be replaced"),
    }
}

#[test]
fn tracked_file_decisions() {
    let e = entry("a.txt", "h1", true, 1);
    assert!(matches!(decide_tracked(&e, HashOutcome::Hashed("h1".into())), TrackedAction::Skip));
    assert!(matches!(decide_tracked(&e, HashOutcome::Hashed("h2".into())), TrackedAction::Reindex));
    assert!(matches!(decide_tracked(&e, HashOutcome::Missing), TrackedAction::Remove));
    match decide_tracked(&e, HashOutcome::Failed(KnowlixError::Io("denied".into()))) {
        TrackedAction::Fail(m) => assert_eq!(m, "IO error: denied"),
        _ => panic!("a failed hash is a failure"),
    }
    let not_indexed = entry("b.txt", "h1", false, 1);
    assert!(matches!(
        decide_tracked(&not_indexed, HashOutcome::Hashed("h1".into())),
        TrackedAction::Reindex
    ));
}

#[test]
fn untracked_paths_keep_order() {
    let known = vec![entry("a", "h", true, 1), entry("b", "h", true, 1)];
    let found = vec!["c".to_string(), "a".to_string(), "d".to_string(), "b".to_string()];
    assert_eq!(untracked_paths(&known, &found), vec!["c".to_string(), "d".to_string()]);
}

#[test]
fn tally_counts_every_result() {
    let mut t = ReindexTally::new();
    t.record("a".into(), IndexFileStatus::Skipped, None);
    t.record_index_result("b".into(), Ok(()));
    t.record_index_result("c".into(), Err(KnowlixError::Index("boom".into())));
    t.record("d".into(), IndexFileStatus::Removed, None);
    let s = t.into_stats(4, 12);
    assert_eq!(s.total_files, 4);
    assert_eq!((s.indexed, s.skipped, s.failed, s.removed), (1, 1, 1, 1));
    assert_eq!(s.duration_ms, 12);
    assert_eq!(s.file_results.len(), 4);
    assert_eq!(s.file_results[2].error.as_deref(), Some("Index error: boom"));
    assert_eq!(s.file_results[1].status, IndexFileStatus::Indexed);
}

#[test]
fn index_status_summary() {
    let files = vec![
        entry("a", "h", true, 5),
        entry("b", "h", false, 9),
        entry("c", "h", true, 7),
    ];
    let s = summarize_index_status(&files, true);
    assert_eq!(s.total_files, 3);
    assert_eq!(s.indexed_files, 2);
    assert!(s.in_progress);
    assert_eq!(s.last_indexed, Some(ts(7)));
    let none = summarize_index_status(&vec![entry("x", "h", false, 3)], false);
    assert_eq!(none.last_indexed, None);
}

#[test]
fn reindex_run_gives_every_file_one_result_in_order() {
    let known = vec![entry("a", "h1", true, 1), entry("b", "h1", true, 1), entry("c", "h1", true, 1)];
    let found = vec!["a".to_string(), "d".to_string(), "b".to_string(), "e".to_string()];
    let mut run = ReindexRun::start(known, &found);
    assert_eq!(run.total, 5);

    assert!(matches!(run.next_step(), ReindexStep::Hash { path, current: 1 } if path == "a"));
    assert!(matches!(run.on_hash(HashOutcome::Hashed("h1".into())), HashFollowUp::Nothing));

    assert!(matches!(run.next_step(), ReindexStep::Hash { path, current: 2 } if path == "b"));
    assert!(matches!(run.on_hash(HashOutcome::Missing), HashFollowUp::RemoveFile(p) if p == "b"));
    run.on_removed();

    assert!(matches!(run.next_step(), ReindexStep::Hash { path, current: 3 } if path == "c"));
    assert!(matches!(run.on_hash(HashOutcome::Hashed("h2".into())), HashFollowUp::IndexFile(p) if p == "c"));
    run.on_indexed(Err(KnowlixError::Index("bad".into())));

    assert!(matches!(run.next_step(), ReindexStep::IndexNew { path, current: 4 } if path == "d"));
    run.on_indexed(Ok(()));
    assert!(matches!(run.next_step(), ReindexStep::IndexNew { path, current: 5 } if path == "e"));
    run.on_indexed(Ok(()));
    assert!(matches!(run.next_step(), ReindexStep::Done));

    let stats = run.finish(9);
    let paths: Vec<&str> = stats.file_results.iter().map(|r| r.path.as_str()).collect();
    assert_eq!(paths, vec!["a", "b", "c", "d", "e"]);
    assert_eq!((stats.indexed, stats.skipped, stats.failed, stats.removed), (2, 1, 1, 1));
    assert_eq!(stats.total_files, 5);
    assert_eq!(stats.file_results[2].error.as_deref(), Some("Index error: bad"));
}

#[test]
fn supported_extensions_are_exactly_the_extractable_ones() {
    for ext in ["txt", "md", "rs", "h", "csv", "docx", "odt", "odp", "pdf", "xls", "pptx", "png", "svg", "zip", ""] {
        assert_eq!(is_supported_extension(ext), extract_kind(ext).is_some(), "{ext}");
    }
}
