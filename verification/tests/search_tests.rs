use knowlix::common::{SearchResult, SearchSource};
use knowlix::search::{
    keyword_results, merge_rrf, rank_fused, rrf_fraction, search_fetch_limit, vector_results,
    RrfEntry,
};
use knowlix::storage::FtsHit;

fn result(chunk: &str, snippet: &str, source: SearchSource) -> SearchResult {
    SearchResult {
        file_id: format!("file-{chunk}"),
        file_path: format!("/docs/{chunk}.md"),
        chunk_id: chunk.to_string(),
        snippet: snippet.to_string(),
        score_bits: 0,
        rank_bm25: None,
        rank_vec: None,
        source,
    }
}

fn hit(chunk: &str, score: f32) -> FtsHit {
    FtsHit {
        chunk_id: chunk.to_string(),
        file_id: format!("file-{chunk}"),
        file_path: format!("/docs/{chunk}.md"),
        score_bits: score.to_bits(),
        snippet: format!("snippet {chunk}"),
    }
}

#[test]
fn test_search_result_fields() {
    let r = SearchResult {
        file_id: "fid".into(),
        file_path: "/tmp/f.txt".into(),
        chunk_id: "cid".into(),
        snippet: "hello".into(),
        score_bits: 0.9f32.to_bits(),
        rank_bm25: Some(1),
        rank_vec: None,
        source: SearchSource::Bm25,
    };
    assert_eq!(r.rank_bm25, Some(1));
    assert!(r.rank_vec.is_none());
}

#[test]
fn test_rrf_score_formula() {
    let k = 60.0f32;
    let (n1, d1) = rrf_fraction(Some(1), None);
    let (n10, d10) = rrf_fraction(Some(10), None);
    let rank1_score = n1 as f32 / d1 as f32;
    let rank10_score = n10 as f32 / d10 as f32;
    assert_eq!(rank1_score, 1.0 / (k + 1.0));
    assert_eq!(rank10_score, 1.0 / (k + 10.0));
    assert!(rank1_score > rank10_score, "higher rank should yield higher RRF score");
    let (nb, db) = rrf_fraction(Some(1), Some(1));
    let combined = nb as f32 / db as f32;
    assert!((combined - 2.0 / 61.0).abs() < 1e-6);
    assert_eq!((nb, db), (122, 3721));
}

#[test]
fn keyword_results_are_ranked_from_one() {
    let hits = vec![hit("a", 3.5), hit("b", 1.25)];
    let rs = keyword_results(&hits);
    assert_eq!(rs.len(), 2);
    assert_eq!(rs[0].chunk_id, "a");
    assert_eq!(rs[0].rank_bm25, Some(1));
    assert_eq!(rs[1].rank_bm25, Some(2));
    assert!(rs[1].rank_vec.is_none());
    assert_eq!(rs[0].source, SearchSource::Bm25);
    assert_eq!(f32::from_bits(rs[0].score_bits), 3.5);
    assert_eq!(rs[1].snippet, "snippet b");
    assert!(keyword_results(&vec![]).is_empty());
}

#[test]
fn vector_results_are_ranked_from_one() {
    let hits = vec![hit("x", 0.5), hit("y", 0.25), hit("z", 0.125)];
    let rs = vector_results(&hits);
    assert_eq!(rs.len(), 3);
    assert_eq!(rs[2].rank_vec, Some(3));
    assert!(rs[2].rank_bm25.is_none());
    assert_eq!(rs[2].source, SearchSource::Vector);
    assert_eq!(rs[1].file_path, "/docs/y.md");
}

#[test]
fn fetch_limit_is_twice_the_limit_but_at_least_twenty() {
    assert_eq!(search_fetch_limit(3), 20);
    assert_eq!(search_fetch_limit(10), 20);
    assert_eq!(search_fetch_limit(11), 22);
    assert_eq!(search_fetch_limit(0), 20);
}

/// The score the application gives a fused entry.
fn score_of(e: &RrfEntry) -> u32 {
    let mut s = 0.0f32;
    for &r in e.bm25_ranks.iter().chain(e.vec_ranks.iter()) {
        s += 1.0 / (60.0 + (r - 1) as f32 + 1.0);
    }
    s.to_bits()
}

fn fuse(bm: &Vec<SearchResult>, vecs: &Vec<SearchResult>, limit: usize) -> Option<Vec<SearchResult>> {
    let entries = merge_rrf(bm, vecs)?;
    let scores: Vec<u32> = entries.iter().map(score_of).collect();
    Some(rank_fused(&entries, &scores, limit))
}

#[test]
fn fusion_without_vector_results_keeps_keyword_results() {
    let bm = vec![result("a", "s", SearchSource::Bm25)];
    assert!(merge_rrf(&bm, &vec![]).is_none());
    assert!(fuse(&vec![], &bm, 5).is_some());
}

#[test]
fn fusion_merges_each_chunk_once_by_score() {
    // keyword: a, b, c ; vector: c, d, a
    let bm = vec![
        result("a", "sa", SearchSource::Bm25),
        result("b", "sb", SearchSource::Bm25),
        result("c", "", SearchSource::Bm25),
    ];
    let vecs = vec![
        result("c", "vc", SearchSource::Vector),
        result("d", "vd", SearchSource::Vector),
        result("a", "va", SearchSource::Vector),
    ];
    let entries = merge_rrf(&bm, &vecs).unwrap();
    let ids: Vec<&str> = entries.iter().map(|e| e.chunk_id.as_str()).collect();
    assert_eq!(ids, vec!["a", "b", "c", "d"]);
    assert_eq!(entries[0].bm25_ranks, vec![1]);
    assert_eq!(entries[0].vec_ranks, vec![3]);
    assert_eq!(entries[3].bm25_ranks, Vec::<i32>::new());
    let fused = fuse(&bm, &vecs, 10).unwrap();
    let ids: Vec<&str> = fused.iter().map(|e| e.chunk_id.as_str()).collect();
    // a: 1/61 + 1/63, c: 1/63 + 1/61 (tie, a first), b: 1/62, d: 1/62 (tie, b first)
    assert_eq!(ids, vec!["a", "c", "b", "d"]);
    assert_eq!(fused[0].rank_bm25, Some(1));
    assert_eq!(fused[0].rank_vec, Some(3));
    assert_eq!(fused[1].rank_bm25, Some(3));
    assert_eq!(fused[1].rank_vec, Some(1));
    // an empty keyword snippet is filled from the vector result
    assert_eq!(fused[1].snippet, "vc");
    assert_eq!(fused[0].snippet, "sa");
    assert_eq!(fused[3].rank_bm25, None);
    assert_eq!(fused[3].rank_vec, Some(2));
    assert!(fused.iter().all(|r| r.source == SearchSource::Hybrid));
    assert_eq!(f32::from_bits(fused[2].score_bits), 1.0 / 62.0);
    let limited = fuse(&bm, &vecs, 2).unwrap();
    assert_eq!(limited.len(), 2);
    assert_eq!(limited[1].chunk_id, "c");
}

#[test]
fn fused_entry_becomes_hybrid_result() {
    let bm = vec![result("a", "sa", SearchSource::Bm25)];
    let vecs = vec![result("a", "va", SearchSource::Vector)];
    let fused = fuse(&bm, &vecs, 5).unwrap();
    assert_eq!(fused.len(), 1);
    let r = &fused[0];
    assert_eq!(r.source, SearchSource::Hybrid);
    assert_eq!(r.rank_bm25, Some(1));
    assert_eq!(r.rank_vec, Some(1));
    assert_eq!(r.chunk_id, "a");
    assert!((f32::from_bits(r.score_bits) - 2.0 / 61.0).abs() < 1e-6);
}

#[test]
fn repeated_chunk_ids_add_up_their_ranks() {
    // keyword: a, b, a ; vector: a
    let bm = vec![
        result("a", "first", SearchSource::Bm25),
        result("b", "", SearchSource::Bm25),
        result("a", "second", SearchSource::Bm25),
    ];
    let vecs = vec![result("a", "v", SearchSource::Vector)];
    let entries = merge_rrf(&bm, &vecs).unwrap();
    assert_eq!(entries.len(), 2);
    assert_eq!(entries[0].bm25_ranks, vec![1, 3]);
    assert_eq!(entries[0].vec_ranks, vec![1]);
    assert_eq!(entries[0].snippet, "first");
    let fused = fuse(&bm, &vecs, 10).unwrap();
    assert_eq!(fused.len(), 2);
    assert_eq!(fused[0].chunk_id, "a");
    assert_eq!(fused[0].rank_bm25, Some(3));
    assert_eq!(fused[0].rank_vec, Some(1));
    let expected = 1.0f32 / 61.0 + 1.0 / 63.0 + 1.0 / 61.0;
    assert_eq!(f32::from_bits(fused[0].score_bits), expected);
    assert_eq!(fused[1].chunk_id, "b");
    assert_eq!(fused[1].rank_bm25, Some(2));
    assert_eq!(fused[1].rank_vec, None);
}
