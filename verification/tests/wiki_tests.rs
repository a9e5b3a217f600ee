use knowlix::common::{AiTier, Chunk, FileEntry, FileType, KnowlixError, Timestamp, WikiPage};
use knowlix::digest::text_hash;
use knowlix::wiki::{
    add_project_wikis, batch_chunks, ensure_ai_available, global_content_hash, global_context,
    global_fallback_title, global_wiki_id, global_wiki_prompt, indexed_files, needs_generation,
    new_wiki_page,
    page_fallback_title, page_title, project_content_hash, project_section_text,
    project_wiki_prompt, wiki_is_current, wiki_progress, ProjectWikiRun, ProjectWikis, WikiAction,
    WikiStage,
};

fn chunk(content: &str) -> Chunk {
    Chunk {
        id: "c".into(),
        file_id: "f".into(),
        chunk_index: 0,
        content: content.into(),
        token_count: 1,
        start_byte: 0,
        end_byte: 0,
    }
}

fn page(title: &str, content: &str, hashes: &[&str]) -> WikiPage {
    WikiPage {
        id: "w".into(),
        project_id: Some("p".into()),
        title: title.into(),
        content: content.into(),
        tags: vec![],
        source_hashes: hashes.iter().map(|h| h.to_string()).collect(),
        created_at: Timestamp { secs: 0, nanos: 0 },
        updated_at: Timestamp { secs: 0, nanos: 0 },
    }
}

#[test]
fn wiki_needs_ai() {
    assert!(matches!(ensure_ai_available(AiTier::Disabled), Err(KnowlixError::AiNotConfigured)));
    assert!(ensure_ai_available(AiTier::Local).is_ok());
}

#[test]
fn only_indexed_files_feed_the_wiki() {
    let mk = |p: &str, indexed: bool| FileEntry {
        id: p.into(),
        project_id: "p".into(),
        path: p.into(),
        file_type: FileType::Text,
        language: None,
        size_bytes: 0,
        content_hash: "h".into(),
        last_indexed: Timestamp { secs: 0, nanos: 0 },
        indexed,
    };
    let kept = indexed_files(vec![mk("a", true), mk("b", false), mk("c", true)]);
    let paths: Vec<&str> = kept.iter().map(|f| f.path.as_str()).collect();
    assert_eq!(paths, vec!["a", "c"]);
}

#[test]
fn content_hash_of_all_chunks() {
    match project_content_hash(&vec![]) {
        Err(KnowlixError::Ai(m)) => {
            assert_eq!(m, "No indexed content found for this project. Index the project first.")
        }
        _ => panic!("no content"),
    }
    let h = project_content_hash(&vec![chunk("ab"), chunk("c")]).ok().unwrap();
    assert_eq!(h, text_hash("abc"));
}

#[test]
fn batches_group_chunks_up_to_the_limit() {
    let a = "a".repeat(7000);
    let b = "b".repeat(5000);
    let c = "c".repeat(100);
    let batches = batch_chunks(&vec![chunk(&a), chunk(&b), chunk(&c)]);
    assert_eq!(batches.len(), 2);
    assert_eq!(batches[0], format!("{a}\n\n---\n\n{b}"));
    assert_eq!(batches[1], c);
    let single = batch_chunks(&vec![chunk(&"x".repeat(20000))]);
    assert_eq!(single.len(), 1);
    assert!(batch_chunks(&vec![]).is_empty());
    // joined back, the batches hold every chunk in order
    let parts = vec![chunk(&a), chunk(&b), chunk(&c), chunk("tail")];
    let joined = batch_chunks(&parts).join("\n\n---\n\n");
    assert_eq!(joined, [a.as_str(), b.as_str(), c.as_str(), "tail"].join("\n\n---\n\n"));
}

#[test]
fn titles_come_from_the_first_line() {
    assert_eq!(page_title("## Getting Started \nbody", "F".into()), "Getting Started");
    assert_eq!(page_title("#\nbody", "Wiki Page 2".into()), "Wiki Page 2");
    assert_eq!(page_title("", "F".into()), "F");
    assert_eq!(page_title("Plain\r\nx", "F".into()), "Plain");
    assert_eq!(page_fallback_title(0), "Wiki Page 1");
    assert_eq!(page_fallback_title(11), "Wiki Page 12");
    assert_eq!(global_fallback_title(), "Global Knowledge Base");
    assert_eq!(global_wiki_id(), "global-wiki-1");
}

#[test]
fn freshly_generated_wiki_is_current() {
    let p = new_wiki_page(
        "id".into(),
        Some("proj".into()),
        "T".into(),
        "C".into(),
        "hash1".into(),
        Timestamp { secs: 5, nanos: 0 },
    );
    assert!(p.tags.is_empty());
    assert_eq!(p.created_at, p.updated_at);
    let pages = vec![page("x", "y", &["other"]), p];
    assert!(wiki_is_current(&pages, "hash1"));
    assert!(!wiki_is_current(&pages, "hash2"));
    assert!(!wiki_is_current(&vec![], "hash1"));
}

#[test]
fn prompts() {
    let p = project_wiki_prompt("SRC");
    assert!(p.starts_with("You are a technical documentation writer."));
    assert!(p.contains("Sources:\nSRC\n\nWrite with # Title"));
    let g = global_wiki_prompt("CTX");
    assert_eq!(
        g,
        "Synthesize these project wikis into a global overview.\n\nCTX\n\nWrite # Global Knowledge Base, then: Executive Summary, Projects Overview, Cross-Project Patterns. Start with # Global Knowledge Base."
    );
    let pr = wiki_progress(WikiStage::Generating, 2, 5);
    assert_eq!((pr.stage.as_str(), pr.current, pr.total), ("generating", 2, 5));
}

#[test]
fn global_context_of_project_wikis() {
    let mut list = Vec::new();
    add_project_wikis(&mut list, "Empty".into(), vec![]);
    assert!(list.is_empty());
    assert!(matches!(global_content_hash(&list), Err(KnowlixError::Ai(_))));
    add_project_wikis(&mut list, "A".into(), vec![page("T1", "one", &[]), page("T2", "two", &[])]);
    add_project_wikis(&mut list, "B".into(), vec![page("T3", "three", &[])]);
    assert_eq!(list.len(), 2);
    assert_eq!(
        global_context(&list),
        "# Project: A\n## T1\none\n\n## T2\ntwo\n\n---\n\n# Project: B\n## T3\nthree"
    );
    assert_eq!(global_content_hash(&list).ok().unwrap(), text_hash("onetwothree"));
}

#[test]
fn long_project_sections_are_cut_on_a_character_boundary() {
    let pages = vec![page("T", &"é".repeat(3000), &[])];
    let s = project_section_text("P", &pages);
    let body = s.strip_prefix("# Project: P\n").unwrap();
    assert!(body.ends_with('\u{2026}'));
    let cut = body.strip_suffix('\u{2026}').unwrap();
    assert!(cut.len() <= 4000);
    assert!(cut.len() >= 3999);
    assert!(cut.starts_with("## T\n"));
    let short = vec![page("T", "short", &[])];
    let _ = ProjectWikis { name: "P".into(), pages: vec![] };
    assert_eq!(project_section_text("P", &short), "# Project: P\n## T\nshort");
}

#[test]
fn regeneration_only_when_forced_or_changed() {
    let pages = vec![page("t", "c", &["h1"])];
    assert!(!needs_generation(false, &pages, "h1"));
    assert!(needs_generation(true, &pages, "h1"));
    assert!(needs_generation(false, &pages, "h2"));
    assert!(needs_generation(false, &vec![], "h1"));
}

#[test]
fn project_wiki_run_makes_one_page_per_batch() {
    let batches = vec!["one".to_string(), "two".to_string()];
    let mut run = ProjectWikiRun::new("p1".into(), "h".into(), batches);
    let now = Timestamp { secs: 1_700_000_000, nanos: 0 };
    let mut seen = Vec::new();
    loop {
        match run.next_action() {
            WikiAction::Generate { prompt, progress } => {
                seen.push((progress.stage.clone(), progress.current, progress.total));
                let reply = if progress.current == 1 {
                    assert_eq!(prompt, project_wiki_prompt("one"));
                    "# First\nbody".to_string()
                } else {
                    assert_eq!(prompt, project_wiki_prompt("two"));
                    "no heading line".to_string()
                };
                let page = run.on_reply(reply.clone(), now);
                assert_eq!(page.content, reply);
                assert_eq!(page.project_id.as_deref(), Some("p1"));
                assert_eq!(page.source_hashes, vec!["h".to_string()]);
                assert_eq!(page.id.len(), 36);
                assert_eq!(page.created_at, now);
                if progress.current == 1 {
                    assert_eq!(page.title, "First");
                } else {
                    assert_eq!(page.title, "no heading line");
                }
            }
            WikiAction::Finish { progress } => {
                seen.push((progress.stage.clone(), progress.current, progress.total));
                break;
            }
        }
    }
    assert_eq!(
        seen,
        vec![
            ("generating".to_string(), 1, 2),
            ("generating".to_string(), 2, 2),
            ("saving".to_string(), 2, 2)
        ]
    );
    let empty = ProjectWikiRun::new("p".into(), "h".into(), vec![]);
    assert!(matches!(empty.next_action(), WikiAction::Finish { progress } if progress.current == 0 && progress.total == 0));
}
