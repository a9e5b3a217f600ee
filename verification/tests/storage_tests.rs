use knowlix::common::{AiConfig, AiProvider, Chunk, FileEntry, FileType, KnowlixError, Project, Timestamp, WikiPage};
use knowlix::storage::{
    ai_config_from_row, ai_config_to_row, ai_provider_to_str, chunk_to_row, file_entry_to_row,
    project_to_row, wiki_page_to_row, chunk_from_row, duplicate_project_error,
    file_entry_from_row, file_type_to_str, fts_fetch_limit, fts_hit, insert_project_error,
    make_snippet, project_from_row, str_to_ai_provider, str_to_file_type, wiki_page_from_row,
    AiConfigRow, ChunkRow, FileEntryRow, ProjectRow, WikiPageRow,
};

#[test]
fn test_make_snippet_short() {
    let s = make_snippet("hello world", 300);
    assert_eq!(s, "hello world");
}

#[test]
fn test_make_snippet_truncates() {
    let long = "a".repeat(400);
    let snippet = make_snippet(&long, 300);
    assert!(snippet.len() <= 304);
}

#[test]
fn snippet_cuts_before_last_whitespace() {
    let s = make_snippet("hello brave new world", 14);
    assert_eq!(s, "hello brave\u{2026}");
    let t = make_snippet("abcdefghij", 4);
    assert_eq!(t, "abcd\u{2026}");
    assert_eq!(make_snippet("exact", 5), "exact");
}

#[test]
fn snippet_cut_moves_back_to_a_character_boundary() {
    // byte 300 falls inside a two-byte character: the cut moves back to 299
    let content = format!("a{}", "\u{e9}".repeat(200));
    let s = make_snippet(&content, 300);
    assert_eq!(s, format!("a{}\u{2026}", "\u{e9}".repeat(149)));
    assert!(s.len() <= 303);
    let h = fts_hit("c".into(), "f".into(), "/p".into(), 0, &content);
    assert_eq!(h.snippet, s);
}

#[test]
fn file_types_round_trip_through_their_names() {
    for ft in [
        FileType::Text,
        FileType::Markdown,
        FileType::Code,
        FileType::Pdf,
        FileType::Word,
        FileType::Excel,
        FileType::Image,
        FileType::Unknown,
    ] {
        assert_eq!(str_to_file_type(file_type_to_str(ft)), ft);
    }
    assert_eq!(file_type_to_str(FileType::Excel), "excel");
    assert_eq!(str_to_file_type("spreadsheet"), FileType::Unknown);
}

#[test]
fn providers_round_trip_through_their_names() {
    for p in [AiProvider::Disabled, AiProvider::Ollama, AiProvider::Api] {
        assert_eq!(str_to_ai_provider(ai_provider_to_str(p)), p);
    }
    assert_eq!(ai_provider_to_str(AiProvider::Disabled), "none");
    assert_eq!(str_to_ai_provider("openai"), AiProvider::Disabled);
}

#[test]
fn insert_errors_from_database_messages() {
    match insert_project_error("UNIQUE constraint failed: projects.name", "Docs") {
        KnowlixError::Duplicate(m) => assert_eq!(m, "Project 'Docs' already exists"),
        _ => panic!("a unique violation means a duplicate name"),
    }
    match insert_project_error("disk I/O error", "Docs") {
        KnowlixError::Storage(m) => assert_eq!(m, "disk I/O error"),
        _ => panic!("other failures are storage errors"),
    }
    assert_eq!(duplicate_project_error("X").message(), "Duplicate: Project 'X' already exists");
}

#[test]
fn default_ai_config_when_no_row() {
    let c = ai_config_from_row(None);
    assert_eq!(c.provider, AiProvider::Disabled);
    assert_eq!(c.ollama_model.as_deref(), Some("phi3.5"));
    assert_eq!(c.ollama_url, "http://localhost:11434");
    assert_eq!(c.api_base_url, "https://api.openai.com/v1");
    assert!(c.api_key.is_none() && c.api_model.is_none());
    let row = AiConfigRow {
        provider: "api".into(),
        ollama_model: None,
        ollama_url: "u".into(),
        api_key: Some("k".into()),
        api_base_url: "b".into(),
        api_model: Some("m".into()),
    };
    let c2 = ai_config_from_row(Some(row));
    assert_eq!(c2.provider, AiProvider::Api);
    assert_eq!(c2.api_key.as_deref(), Some("k"));
}

#[test]
fn project_rows_parse_json_and_times() {
    let row = ProjectRow {
        id: "p1".into(),
        name: "Docs".into(),
        description: Some("d".into()),
        folders: r#"["/a","/b \"q\""]"#.into(),
        created_at: "2024-01-02T03:04:05.5+00:00".into(),
        updated_at: "1970-01-01T00:00:10Z".into(),
    };
    let p = project_from_row(row).ok().unwrap();
    assert_eq!(p.folders, vec!["/a".to_string(), "/b \"q\"".to_string()]);
    assert_eq!(p.created_at.secs, 1704164645);
    assert_eq!(p.created_at.nanos, 500_000_000);
    assert_eq!(p.updated_at.secs, 10);
    let bad = ProjectRow {
        id: "p".into(),
        name: "n".into(),
        description: None,
        folders: "not json".into(),
        created_at: "2024-01-02T03:04:05Z".into(),
        updated_at: "2024-01-02T03:04:05Z".into(),
    };
    assert!(matches!(project_from_row(bad), Err(KnowlixError::Storage(_))));
    let bad_time = ProjectRow {
        id: "p".into(),
        name: "n".into(),
        description: None,
        folders: "[]".into(),
        created_at: "yesterday".into(),
        updated_at: "2024-01-02T03:04:05Z".into(),
    };
    assert!(matches!(project_from_row(bad_time), Err(KnowlixError::Storage(_))));
}

#[test]
fn file_entry_and_chunk_rows() {
    let row = FileEntryRow {
        id: "f".into(),
        project_id: "p".into(),
        path: "/x.rs".into(),
        file_type: "code".into(),
        language: Some("rust".into()),
        size_bytes: 12,
        content_hash: "h".into(),
        last_indexed: "2024-01-02T03:04:05Z".into(),
        indexed: 1,
    };
    let e = file_entry_from_row(row).ok().unwrap();
    assert_eq!(e.file_type, FileType::Code);
    assert!(e.indexed);
    assert_eq!(e.size_bytes, 12);
    let c = chunk_from_row(ChunkRow {
        id: "c".into(),
        file_id: "f".into(),
        chunk_index: 2,
        content: "hello".into(),
        token_count: 1,
        start_byte: 5,
        end_byte: 10,
    });
    assert_eq!((c.chunk_index, c.start_byte, c.end_byte), (2, 5, 10));
}

#[test]
fn wiki_rows_parse_lists() {
    let row = WikiPageRow {
        id: "w".into(),
        project_id: None,
        title: "T".into(),
        content: "C".into(),
        tags: "[]".into(),
        source_hashes: r#"["abc"]"#.into(),
        created_at: "2024-01-02T03:04:05Z".into(),
        updated_at: "2024-01-02T03:04:05Z".into(),
    };
    let w = wiki_page_from_row(row).ok().unwrap();
    assert!(w.tags.is_empty());
    assert_eq!(w.source_hashes, vec!["abc".to_string()]);
}

#[test]
fn hits_carry_snippets_of_three_hundred_bytes() {
    let content = "word ".repeat(100);
    let h = fts_hit("c".into(), "f".into(), "/p".into(), 1.5f32.to_bits(), &content);
    assert_eq!(h.snippet, make_snippet(&content, 300));
    assert!(h.snippet.ends_with('\u{2026}'));
    assert!(h.snippet.len() <= 303);
    assert_eq!(fts_fetch_limit(0), 1);
    assert_eq!(fts_fetch_limit(7), 7);
}

#[test]
fn stored_project_reads_back() {
    let p = Project {
        id: "p1".into(),
        name: "Docs".into(),
        description: None,
        folders: vec!["/a".into(), "/b \"quoted\" ü".into()],
        created_at: Timestamp { secs: 1_704_164_645, nanos: 123_000_000 },
        updated_at: Timestamp { secs: 0, nanos: 0 },
    };
    let row = project_to_row(&p).ok().unwrap();
    assert_eq!(row.folders, r#"["/a","/b \"quoted\" ü"]"#);
    assert_eq!(row.created_at, "2024-01-02T03:04:05.123+00:00");
    let back = project_from_row(row).ok().unwrap();
    assert_eq!(back.folders, p.folders);
    assert_eq!(back.created_at, p.created_at);
    assert_eq!(back.updated_at, p.updated_at);
    assert_eq!(back.name, "Docs");
    let out_of_range = Project {
        created_at: Timestamp { secs: i64::MAX, nanos: 0 },
        ..back
    };
    match project_to_row(&out_of_range) {
        Err(KnowlixError::Storage(m)) => assert_eq!(m, "timestamp out of range"),
        _ => panic!("no date holds that instant"),
    }
}

#[test]
fn stored_entries_pages_and_config_read_back() {
    let e = FileEntry {
        id: "f".into(),
        project_id: "p".into(),
        path: "/x.md".into(),
        file_type: FileType::Markdown,
        language: None,
        size_bytes: 3,
        content_hash: "h".into(),
        last_indexed: Timestamp { secs: 86_400, nanos: 5 },
        indexed: false,
    };
    let row = file_entry_to_row(&e).ok().unwrap();
    assert_eq!(row.file_type, "markdown");
    assert_eq!(row.indexed, 0);
    let back = file_entry_from_row(row).ok().unwrap();
    assert_eq!(back.last_indexed, e.last_indexed);
    assert_eq!(back.file_type, FileType::Markdown);
    assert!(!back.indexed);

    let w = WikiPage {
        id: "w".into(),
        project_id: Some("p".into()),
        title: "T".into(),
        content: "C".into(),
        tags: vec!["x".into()],
        source_hashes: vec!["abc".into()],
        created_at: Timestamp { secs: 10, nanos: 0 },
        updated_at: Timestamp { secs: 20, nanos: 0 },
    };
    let wrow = wiki_page_to_row(&w).ok().unwrap();
    let wback = wiki_page_from_row(wrow).ok().unwrap();
    assert_eq!(wback.tags, w.tags);
    assert_eq!(wback.source_hashes, w.source_hashes);
    assert_eq!(wback.updated_at, w.updated_at);

    let mut c = AiConfig::default();
    c.provider = AiProvider::Ollama;
    let crow = ai_config_to_row(&c);
    assert_eq!(crow.provider, "ollama");
    assert_eq!(ai_config_from_row(Some(crow)).provider, AiProvider::Ollama);

    let chunk = chunk_from_row(chunk_to_row(&Chunk {
        id: "c".into(),
        file_id: "f".into(),
        chunk_index: 1,
        content: "x".into(),
        token_count: 1,
        start_byte: 0,
        end_byte: 1,
    }));
    assert_eq!(chunk.content, "x");
}
