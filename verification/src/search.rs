//! Ranking of search results: keyword and vector hits turned into ranked
//! results, and reciprocal rank fusion of the two lists.
use vstd::prelude::*;

use crate::common::{SearchResult, SearchSource};
use crate::storage::FtsHit;

verus! {

broadcast use vstd::seq_lib::group_to_multiset_ensures;

/// Constant of reciprocal rank fusion: a result at rank `k` (from 1)
/// contributes `1 / (RRF_K + k)`.
pub const RRF_K: u128 = 60;

pub open spec fn chunk_ids(s: Seq<SearchResult>) -> Seq<Seq<char>> {
    s.map_values(|r: SearchResult| r.chunk_id@)
}

/// No chunk occurs twice in the list.
pub open spec fn unique_ids(s: Seq<SearchResult>) -> bool {
    forall|i: int, j: int|
        0 <= i < j < s.len() ==> (#[trigger] s[i]).chunk_id@ != (#[trigger] s[j]).chunk_id@
}

/// The first position of `id` in `ids`.
pub open spec fn position_of(ids: Seq<Seq<char>>, id: Seq<char>) -> Option<int>
    decreases ids.len(),
{
    if ids.len() == 0 {
        None
    } else {
        match position_of(ids.drop_last(), id) {
            Some(k) => Some(k),
            None => if ids.last() == id {
                Some(ids.len() - 1)
            } else {
                None
            },
        }
    }
}

/// The smaller of a length and a limit.
pub open spec fn min_len(n: nat, limit: int) -> int {
    if limit < n {
        limit
    } else {
        n as int
    }
}

/// The result of a keyword hit at position `i`.
pub open spec fn keyword_result_matches(r: SearchResult, h: FtsHit, i: int) -> bool {
    &&& r.file_id@ == h.file_id@
    &&& r.file_path@ == h.file_path@
    &&& r.chunk_id@ == h.chunk_id@
    &&& r.snippet@ == h.snippet@
    &&& r.score_bits == h.score_bits
    &&& r.rank_bm25 == Some((i + 1) as i32)
    &&& r.rank_vec is None
    &&& r.source == SearchSource::Bm25
}

/// The result of a vector hit at position `i`.
pub open spec fn vector_result_matches(r: SearchResult, h: FtsHit, i: int) -> bool {
    &&& r.file_id@ == h.file_id@
    &&& r.file_path@ == h.file_path@
    &&& r.chunk_id@ == h.chunk_id@
    &&& r.snippet@ == h.snippet@
    &&& r.score_bits == h.score_bits
    &&& r.rank_bm25 is None
    &&& r.rank_vec == Some((i + 1) as i32)
    &&& r.source == SearchSource::Vector
}

/// Keyword hits as ranked results, best first: rank `i + 1` for the hit at `i`.
pub fn keyword_results(hits: &Vec<FtsHit>) -> (r: Vec<SearchResult>)
    requires
        hits.len() < i32::MAX,
    ensures
        r.len() == hits.len(),
        forall|i: int| 0 <= i < r.len() ==> keyword_result_matches(#[trigger] r@[i], hits@[i], i),
{
    let mut out: Vec<SearchResult> = Vec::new();
    let mut i: usize = 0;
    while i < hits.len()
        invariant
            i <= hits.len() < i32::MAX,
            out.len() == i,
            forall|k: int| 0 <= k < i ==> keyword_result_matches(#[trigger] out@[k], hits@[k], k),
        decreases hits.len() - i,
    {
        let h = &hits[i];
        let rank: i32 = (i + 1) as i32;
        out.push(
            SearchResult {
                file_id: h.file_id.clone(),
                file_path: h.file_path.clone(),
                chunk_id: h.chunk_id.clone(),
                snippet: h.snippet.clone(),
                score_bits: h.score_bits,
                rank_bm25: Some(rank),
                rank_vec: None,
                source: SearchSource::Bm25,
            },
        );
        i = i + 1;
    }
    out
}

/// Vector hits as ranked results, nearest first: rank `i + 1` for the hit at `i`.
pub fn vector_results(hits: &Vec<FtsHit>) -> (r: Vec<SearchResult>)
    requires
        hits.len() < i32::MAX,
    ensures
        r.len() == hits.len(),
        forall|i: int| 0 <= i < r.len() ==> vector_result_matches(#[trigger] r@[i], hits@[i], i),
{
    let mut out: Vec<SearchResult> = Vec::new();
    let mut i: usize = 0;
    while i < hits.len()
        invariant
            i <= hits.len() < i32::MAX,
            out.len() == i,
            forall|k: int| 0 <= k < i ==> vector_result_matches(#[trigger] out@[k], hits@[k], k),
        decreases hits.len() - i,
    {
        let h = &hits[i];
        let rank: i32 = (i + 1) as i32;
        out.push(
            SearchResult {
                file_id: h.file_id.clone(),
                file_path: h.file_path.clone(),
                chunk_id: h.chunk_id.clone(),
                snippet: h.snippet.clone(),
                score_bits: h.score_bits,
                rank_bm25: None,
                rank_vec: Some(rank),
                source: SearchSource::Vector,
            },
        );
        i = i + 1;
    }
    out
}

/// How many results each list is asked for before fusion: twice the
/// limit, and at least 20.
pub fn search_fetch_limit(limit: usize) -> (r: usize)
    requires
        limit <= usize::MAX / 2,
    ensures
        r == if 2 * limit >= 20 {
            2 * limit
        } else {
            20
        },
{
    let twice = limit * 2;
    if twice >= 20 {
        twice
    } else {
        20
    }
}

/// The fused score of a pair of ranks as numerator and denominator.
pub fn rrf_fraction(rank_bm25: Option<i32>, rank_vec: Option<i32>) -> (r: (u128, u128))
    requires
        rank_ok(rank_bm25),
        rank_ok(rank_vec),
    ensures
        r.0 == rrf_num(rank_bm25, rank_vec),
        r.1 == rrf_den(rank_bm25, rank_vec),
        0 < r.1 < 0x1_0000_0000_0000_0000,
        r.0 < 0x2_0000_0000,
{
    match (rank_bm25, rank_vec) {
        (Some(a), Some(b)) => {
            let x: u128 = RRF_K + a as u128;
            let y: u128 = RRF_K + b as u128;
            assert(x * y < 0x1_0000_0000_0000_0000) by (nonlinear_arith)
                requires
                    0 < x < 0x1_0000_0000,
                    0 < y < 0x1_0000_0000,
            ;
            assert(x * y > 0) by (nonlinear_arith)
                requires
                    0 < x,
                    0 < y,
            ;
            (2 * RRF_K + a as u128 + b as u128, x * y)
        },
        (Some(a), None) => (1, RRF_K + a as u128),
        (None, Some(b)) => (1, RRF_K + b as u128),
        (None, None) => (0, 1),
    }
}


/// A rank taken from a position in a list: present and from 1 up.
pub open spec fn rank_ok(r: Option<i32>) -> bool {
    r matches Some(k) ==> 1 <= k
}

/// Numerator of the fused score `1/(60+a) + 1/(60+b)` over the ranks that
/// are present, written as one fraction.
pub open spec fn rrf_num(rank_bm25: Option<i32>, rank_vec: Option<i32>) -> int {
    match (rank_bm25, rank_vec) {
        (Some(a), Some(b)) => 2 * RRF_K + a + b,
        (Some(_), None) => 1,
        (None, Some(_)) => 1,
        (None, None) => 0,
    }
}

/// Denominator of the fused score.
pub open spec fn rrf_den(rank_bm25: Option<i32>, rank_vec: Option<i32>) -> int {
    match (rank_bm25, rank_vec) {
        (Some(a), Some(b)) => (RRF_K + a) * (RRF_K + b),
        (Some(a), None) => RRF_K + a,
        (None, Some(b)) => RRF_K + b,
        (None, None) => 1,
    }
}


proof fn lemma_position_prefix(ids: Seq<Seq<char>>, id: Seq<char>, n: int)
    requires
        0 < n <= ids.len(),
        position_of(ids.take(n), id) is Some,
    ensures
        position_of(ids, id) == position_of(ids.take(n), id),
    decreases ids.len() - n,
{
    if n < ids.len() {
        assert(ids.take(n + 1).drop_last() =~= ids.take(n));
        lemma_position_prefix(ids, id, n + 1);
    } else {
        assert(ids.take(n) =~= ids);
    }
}

proof fn lemma_position_range(ids: Seq<Seq<char>>, id: Seq<char>)
    ensures
        position_of(ids, id) matches Some(k) ==> 0 <= k < ids.len() && ids[k] == id,
        position_of(ids, id) is None <==> !ids.contains(id),
    decreases ids.len(),
{
    if ids.len() > 0 {
        let t = ids.drop_last();
        lemma_position_range(t, id);
        if position_of(t, id) is None && !t.contains(id) && ids.last() != id {
            assert forall|k: int| 0 <= k < ids.len() implies ids[k] != id by {
                if k < t.len() {
                    assert(t[k] == ids[k]);
                }
            }
        }
        if t.contains(id) {
            let k = choose|k: int| 0 <= k < t.len() && t[k] == id;
            assert(ids[k] == id);
        }
        if ids.last() == id {
            assert(ids[ids.len() - 1] == id);
        }
    }
}

/// One chunk of the fused ranking, before its floating-point score is
/// attached: its fields, and every rank (from 1) at which it occurs in the
/// keyword list and in the vector list, in list order.
pub struct RrfEntry {
    pub chunk_id: String,
    pub file_id: String,
    pub file_path: String,
    pub snippet: String,
    pub bm25_ranks: Vec<i32>,
    pub vec_ranks: Vec<i32>,
}

/// What a fused entry holds, with its text as character sequences.
pub struct RrfEntryView {
    pub chunk_id: Seq<char>,
    pub file_id: Seq<char>,
    pub file_path: Seq<char>,
    pub snippet: Seq<char>,
    pub bm25_ranks: Seq<i32>,
    pub vec_ranks: Seq<i32>,
}

impl View for RrfEntry {
    type V = RrfEntryView;

    open spec fn view(&self) -> RrfEntryView {
        RrfEntryView {
            chunk_id: self.chunk_id@,
            file_id: self.file_id@,
            file_path: self.file_path@,
            snippet: self.snippet@,
            bm25_ranks: self.bm25_ranks@,
            vec_ranks: self.vec_ranks@,
        }
    }
}

pub open spec fn views(s: Seq<RrfEntry>) -> Seq<RrfEntryView> {
    s.map_values(|e: RrfEntry| e@)
}

/// The chunk ids of fused entries, in order.
pub open spec fn entry_ids(s: Seq<RrfEntryView>) -> Seq<Seq<char>> {
    s.map_values(|e: RrfEntryView| e.chunk_id)
}

/// A new entry for a result: its fields, no ranks yet.
pub open spec fn fresh_entry(r: SearchResult) -> RrfEntryView {
    RrfEntryView {
        chunk_id: r.chunk_id@,
        file_id: r.file_id@,
        file_path: r.file_path@,
        snippet: r.snippet@,
        bm25_ranks: Seq::empty(),
        vec_ranks: Seq::empty(),
    }
}

/// An entry after one more occurrence of its chunk at `rank`: a keyword
/// occurrence adds a keyword rank; a vector occurrence adds a vector rank and
/// fills an empty snippet with its own.
pub open spec fn bump_entry(e: RrfEntryView, r: SearchResult, rank: i32, from_vec: bool) -> RrfEntryView {
    if from_vec {
        RrfEntryView {
            snippet: if e.snippet.len() == 0 {
                r.snippet@
            } else {
                e.snippet
            },
            vec_ranks: e.vec_ranks.push(rank),
            ..e
        }
    } else {
        RrfEntryView { bm25_ranks: e.bm25_ranks.push(rank), ..e }
    }
}

/// The entries after one occurrence of a result: the entry of its chunk is
/// bumped, or a new one is added at the end.
pub open spec fn add_hit(es: Seq<RrfEntryView>, r: SearchResult, rank: i32, from_vec: bool) -> Seq<RrfEntryView> {
    match position_of(entry_ids(es), r.chunk_id@) {
        Some(k) => es.update(k, bump_entry(es[k], r, rank, from_vec)),
        None => es.push(bump_entry(fresh_entry(r), r, rank, from_vec)),
    }
}

/// The entries after every result of a list, the one at position `i`
/// counted at rank `i + 1`.
pub open spec fn merge_list(es: Seq<RrfEntryView>, list: Seq<SearchResult>, from_vec: bool) -> Seq<RrfEntryView>
    decreases list.len(),
{
    if list.len() == 0 {
        es
    } else {
        add_hit(merge_list(es, list.drop_last(), from_vec), list.last(), list.len() as i32, from_vec)
    }
}

/// Every chunk of either list once, in order of first occurrence, with all
/// its keyword ranks, then all its vector ranks; its fields come from its
/// first occurrence, an empty snippet being filled from its vector results.
pub open spec fn merged(bm: Seq<SearchResult>, v: Seq<SearchResult>) -> Seq<RrfEntryView> {
    merge_list(merge_list(Seq::empty(), bm, false), v, true)
}

fn copy_ranks(v: &Vec<i32>) -> (r: Vec<i32>)
    ensures
        r@ == v@,
{
    let mut out: Vec<i32> = Vec::new();
    let mut i: usize = 0;
    while i < v.len()
        invariant
            i <= v@.len(),
            out@ == v@.take(i as int),
        decreases v@.len() - i,
    {
        out.push(v[i]);
        i = i + 1;
        proof {
            assert(out@ =~= v@.take(i as int));
        }
    }
    proof {
        assert(v@.take(i as int) =~= v@);
    }
    out
}

/// The first position of `id` among the chunk ids of the entries.
fn find_entry(es: &Vec<RrfEntry>, id: &String) -> (r: Option<usize>)
    ensures
        match position_of(entry_ids(views(es@)), id@) {
            Some(k) => r == Some(k as usize),
            None => r is None,
        },
{
    let ghost ids = entry_ids(views(es@));
    let mut i: usize = 0;
    while i < es.len()
        invariant
            i <= es@.len(),
            ids == entry_ids(views(es@)),
            ids.len() == es@.len(),
            position_of(ids.take(i as int), id@) is None,
        decreases es@.len() - i,
    {
        proof {
            assert(ids.take(i + 1).drop_last() =~= ids.take(i as int));
            assert(ids[i as int] == es@[i as int].chunk_id@);
        }
        if es[i].chunk_id == *id {
            proof {
                lemma_position_prefix(ids, id@, i as int + 1);
            }
            return Some(i);
        }
        i = i + 1;
    }
    proof {
        assert(ids.take(i as int) =~= ids);
    }
    None
}

fn new_entry(r: &SearchResult) -> (e: RrfEntry)
    ensures
        e@ == fresh_entry(*r),
{
    RrfEntry {
        chunk_id: r.chunk_id.clone(),
        file_id: r.file_id.clone(),
        file_path: r.file_path.clone(),
        snippet: r.snippet.clone(),
        bm25_ranks: Vec::new(),
        vec_ranks: Vec::new(),
    }
}

fn bump(e: &mut RrfEntry, r: &SearchResult, rank: i32, from_vec: bool)
    ensures
        final(e)@ == bump_entry(old(e)@, *r, rank, from_vec),
{
    if from_vec {
        if e.snippet.as_str().is_empty() {
            e.snippet = r.snippet.clone();
        }
        e.vec_ranks.push(rank);
    } else {
        e.bm25_ranks.push(rank);
    }
}

fn add_hit_exec(es: &mut Vec<RrfEntry>, r: &SearchResult, rank: i32, from_vec: bool)
    ensures
        views(final(es)@) == add_hit(views(old(es)@), *r, rank, from_vec),
{
    let ghost before = views(es@);
    match find_entry(es, &r.chunk_id) {
        Some(k) => {
            proof {
                lemma_position_range(entry_ids(before), r.chunk_id@);
            }
            let ghost old_seq = es@;
            let mut e = es.remove(k);
            bump(&mut e, r, rank, from_vec);
            let ghost ev = e@;
            es.insert(k, e);
            proof {
                assert(views(es@) =~= before.update(k as int, ev));
                assert(add_hit(before, *r, rank, from_vec) == before.update(
                    k as int,
                    bump_entry(before[k as int], *r, rank, from_vec),
                ));
            }
        },
        None => {
            let mut e = new_entry(r);
            bump(&mut e, r, rank, from_vec);
            let ghost ev = e@;
            es.push(e);
            proof {
                assert(views(es@) =~= before.push(ev));
                assert(add_hit(before, *r, rank, from_vec) == before.push(
                    bump_entry(fresh_entry(*r), *r, rank, from_vec),
                ));
            }
        },
    }
}

fn merge_list_exec(es: &mut Vec<RrfEntry>, list: &Vec<SearchResult>, from_vec: bool)
    requires
        list@.len() < i32::MAX,
    ensures
        views(final(es)@) == merge_list(views(old(es)@), list@, from_vec),
{
    let ghost start = views(es@);
    let mut i: usize = 0;
    proof {
        assert(list@.take(0) =~= Seq::<SearchResult>::empty());
    }
    while i < list.len()
        invariant
            i <= list@.len() < i32::MAX,
            views(es@) == merge_list(start, list@.take(i as int), from_vec),
        decreases list@.len() - i,
    {
        proof {
            let t = list@.take(i + 1);
            assert(t.drop_last() =~= list@.take(i as int));
            assert(t.last() == list@[i as int]);
            assert(t.len() == i + 1);
        }
        add_hit_exec(es, &list[i], (i + 1) as i32, from_vec);
        i = i + 1;
    }
    proof {
        assert(list@.take(i as int) =~= list@);
    }
}

/// Gathers the keyword and vector results for reciprocal rank fusion. When
/// the vector list is empty there is nothing to fuse and the keyword
/// results stand as they are (`None`); otherwise the entries of `merged`.
pub fn merge_rrf(bm25: &Vec<SearchResult>, vec: &Vec<SearchResult>) -> (r: Option<Vec<RrfEntry>>)
    requires
        bm25@.len() < i32::MAX,
        vec@.len() < i32::MAX,
    ensures
        (r is None) == (vec@.len() == 0),
        r matches Some(es) ==> views(es@) == merged(bm25@, vec@),
{
    if vec.len() == 0 {
        return None;
    }
    let mut es: Vec<RrfEntry> = Vec::new();
    proof {
        assert(views(es@) =~= Seq::<RrfEntryView>::empty());
    }
    merge_list_exec(&mut es, bm25, false);
    merge_list_exec(&mut es, vec, true);
    Some(es)
}

/// The ranks (from 1) at which chunk `id` occurs in `list`, in list order.
pub open spec fn ranks_in(list: Seq<SearchResult>, id: Seq<char>) -> Seq<i32>
    decreases list.len(),
{
    if list.len() == 0 {
        Seq::empty()
    } else if list.last().chunk_id@ == id {
        ranks_in(list.drop_last(), id).push(list.len() as i32)
    } else {
        ranks_in(list.drop_last(), id)
    }
}

/// The ranks an entry has from the vector list (`from_vec`) or from the
/// keyword list.
pub open spec fn side_ranks(e: RrfEntryView, from_vec: bool) -> Seq<i32> {
    if from_vec {
        e.vec_ranks
    } else {
        e.bm25_ranks
    }
}

proof fn lemma_ranks_absent(list: Seq<SearchResult>, id: Seq<char>)
    requires
        forall|i: int| 0 <= i < list.len() ==> (#[trigger] list[i]).chunk_id@ != id,
    ensures
        ranks_in(list, id) == Seq::<i32>::empty(),
    decreases list.len(),
{
    if list.len() > 0 {
        let t = list.drop_last();
        assert forall|i: int| 0 <= i < t.len() implies (#[trigger] t[i]).chunk_id@ != id by {
            assert(t[i] == list[i]);
        }
        lemma_ranks_absent(t, id);
        assert(list[list.len() - 1] == list.last());
    }
}

proof fn lemma_merge_list(es: Seq<RrfEntryView>, list: Seq<SearchResult>, from_vec: bool)
    requires
        distinct_chunks(es),
        list.len() < i32::MAX,
    ensures
        distinct_chunks(merge_list(es, list, from_vec)),
        merge_list(es, list, from_vec).len() >= es.len(),
        forall|k: int|
            0 <= k < es.len() ==> {
                let e = #[trigger] merge_list(es, list, from_vec)[k];
                &&& e.chunk_id == es[k].chunk_id
                &&& side_ranks(e, from_vec) == side_ranks(es[k], from_vec) + ranks_in(list, es[k].chunk_id)
                &&& side_ranks(e, !from_vec) == side_ranks(es[k], !from_vec)
            },
        forall|k: int|
            es.len() <= k < merge_list(es, list, from_vec).len() ==> {
                let e = #[trigger] merge_list(es, list, from_vec)[k];
                &&& side_ranks(e, from_vec) == ranks_in(list, e.chunk_id)
                &&& side_ranks(e, !from_vec).len() == 0
                &&& !entry_ids(es).contains(e.chunk_id)
                &&& chunk_ids(list).contains(e.chunk_id)
            },
        forall|i: int|
            0 <= i < list.len() ==> entry_ids(merge_list(es, list, from_vec)).contains(
                (#[trigger] list[i]).chunk_id@,
            ),
    decreases list.len(),
{
    if list.len() == 0 {
        assert forall|k: int| 0 <= k < es.len() implies side_ranks(es[k], from_vec) + ranks_in(
            list,
            es[k].chunk_id,
        ) == side_ranks(#[trigger] es[k], from_vec) by {
            assert(side_ranks(es[k], from_vec) + Seq::<i32>::empty() =~= side_ranks(es[k], from_vec));
        }
    } else {
        let t = list.drop_last();
        let x = list.last();
        let n = list.len() as i32;
        lemma_merge_list(es, t, from_vec);
        let r = merge_list(es, t, from_vec);
        let out = merge_list(es, list, from_vec);
        assert(out == add_hit(r, x, n, from_vec));
        let ids = entry_ids(r);
        lemma_position_range(ids, x.chunk_id@);
        assert(list[list.len() - 1] == x);
        assert forall|i: int| 0 <= i < t.len() implies #[trigger] t[i] == list[i] by {}
        match position_of(ids, x.chunk_id@) {
            Some(p) => {
                assert(ids[p] == r[p].chunk_id);
                let b = bump_entry(r[p], x, n, from_vec);
                assert(out == r.update(p, b));
                assert forall|k: int| 0 <= k < out.len() implies (#[trigger] out[k]).chunk_id
                    == r[k].chunk_id by {}
                assert(entry_ids(out) =~= ids);
                assert forall|k: int| 0 <= k < out.len() && k != p implies (#[trigger] out[k]) == r[k]
                    && ranks_in(list, r[k].chunk_id) == ranks_in(t, r[k].chunk_id) by {
                    if k < p {
                        assert(r[k].chunk_id != r[p].chunk_id);
                    } else {
                        assert(r[p].chunk_id != r[k].chunk_id);
                    }
                }
                assert(ranks_in(list, r[p].chunk_id) == ranks_in(t, r[p].chunk_id).push(n));
                assert forall|k: int| 0 <= k < es.len() implies {
                    let e = #[trigger] out[k];
                    &&& e.chunk_id == es[k].chunk_id
                    &&& side_ranks(e, from_vec) == side_ranks(es[k], from_vec) + ranks_in(list, es[k].chunk_id)
                    &&& side_ranks(e, !from_vec) == side_ranks(es[k], !from_vec)
                } by {
                    assert(r[k].chunk_id == es[k].chunk_id);
                    if k == p {
                        assert((side_ranks(es[k], from_vec) + ranks_in(t, es[k].chunk_id)).push(n)
                            =~= side_ranks(es[k], from_vec) + ranks_in(t, es[k].chunk_id).push(n));
                    }
                }
                assert forall|k: int| es.len() <= k < out.len() implies {
                    let e = #[trigger] out[k];
                    &&& side_ranks(e, from_vec) == ranks_in(list, e.chunk_id)
                    &&& side_ranks(e, !from_vec).len() == 0
                    &&& !entry_ids(es).contains(e.chunk_id)
                    &&& chunk_ids(list).contains(e.chunk_id)
                } by {
                    assert(side_ranks(r[k], from_vec) == ranks_in(t, r[k].chunk_id));
                    assert(chunk_ids(t).contains(r[k].chunk_id));
                    let i = choose|i: int| 0 <= i < chunk_ids(t).len() && chunk_ids(t)[i] == r[k].chunk_id;
                    assert(chunk_ids(list)[i] == r[k].chunk_id);
                }
                assert forall|i: int| 0 <= i < list.len() implies entry_ids(out).contains(
                    (#[trigger] list[i]).chunk_id@,
                ) by {
                    if i < t.len() {
                        assert(ids.contains(t[i].chunk_id@));
                    } else {
                        assert(ids[p] == x.chunk_id@);
                    }
                }
            },
            None => {
                let b = bump_entry(fresh_entry(x), x, n, from_vec);
                assert(out == r.push(b));
                assert forall|k: int| 0 <= k < r.len() implies (#[trigger] r[k]).chunk_id != x.chunk_id@
                    by {
                    assert(ids[k] == r[k].chunk_id);
                }
                assert forall|i: int| 0 <= i < t.len() implies (#[trigger] t[i]).chunk_id@ != x.chunk_id@
                    by {
                    assert(ids.contains(t[i].chunk_id@));
                }
                lemma_ranks_absent(t, x.chunk_id@);
                assert(ranks_in(list, x.chunk_id@) =~= seq![n]);
                assert forall|k: int| 0 <= k < r.len() implies ranks_in(list, (#[trigger] r[k]).chunk_id)
                    == ranks_in(t, r[k].chunk_id) by {}
                assert(entry_ids(out) =~= ids.push(x.chunk_id@));
                assert forall|k: int| 0 <= k < es.len() implies {
                    let e = #[trigger] out[k];
                    &&& e.chunk_id == es[k].chunk_id
                    &&& side_ranks(e, from_vec) == side_ranks(es[k], from_vec) + ranks_in(list, es[k].chunk_id)
                    &&& side_ranks(e, !from_vec) == side_ranks(es[k], !from_vec)
                } by {
                    assert(out[k] == r[k]);
                }
                assert forall|k: int| es.len() <= k < out.len() implies {
                    let e = #[trigger] out[k];
                    &&& side_ranks(e, from_vec) == ranks_in(list, e.chunk_id)
                    &&& side_ranks(e, !from_vec).len() == 0
                    &&& !entry_ids(es).contains(e.chunk_id)
                    &&& chunk_ids(list).contains(e.chunk_id)
                } by {
                    if k < r.len() {
                        assert(out[k] == r[k]);
                        assert(chunk_ids(t).contains(r[k].chunk_id));
                        let i = choose|i: int| 0 <= i < chunk_ids(t).len() && chunk_ids(t)[i] == r[k].chunk_id;
                        assert(chunk_ids(list)[i] == r[k].chunk_id);
                    } else {
                        assert(out[k] == b);
                        assert(chunk_ids(list)[list.len() - 1] == x.chunk_id@);
                        if entry_ids(es).contains(x.chunk_id@) {
                            let j = choose|j: int| 0 <= j < entry_ids(es).len() && entry_ids(es)[j] == x.chunk_id@;
                            assert(r[j].chunk_id == es[j].chunk_id);
                        }
                    }
                }
                assert forall|i: int| 0 <= i < list.len() implies entry_ids(out).contains(
                    (#[trigger] list[i]).chunk_id@,
                ) by {
                    if i < t.len() {
                        let j = choose|j: int| 0 <= j < ids.len() && ids[j] == t[i].chunk_id@;
                        assert(entry_ids(out)[j] == ids[j]);
                    } else {
                        assert(entry_ids(out)[r.len() as int] == x.chunk_id@);
                    }
                }
            },
        }
    }
}

/// Reciprocal rank fusion keeps every chunk of either list, once, and
/// nothing else; each fused entry carries exactly the ranks at which its
/// chunk occurs in the keyword list and in the vector list.
pub proof fn lemma_merged_ranks(bm: Seq<SearchResult>, v: Seq<SearchResult>)
    requires
        bm.len() < i32::MAX,
        v.len() < i32::MAX,
    ensures
        distinct_chunks(merged(bm, v)),
        forall|k: int|
            0 <= k < merged(bm, v).len() ==> (#[trigger] merged(bm, v)[k]).bm25_ranks == ranks_in(
                bm,
                merged(bm, v)[k].chunk_id,
            ) && merged(bm, v)[k].vec_ranks == ranks_in(v, merged(bm, v)[k].chunk_id),
        forall|id: Seq<char>|
            #[trigger] entry_ids(merged(bm, v)).contains(id) <==> chunk_ids(bm).contains(id)
                || chunk_ids(v).contains(id),
{
    let e0 = Seq::<RrfEntryView>::empty();
    lemma_merge_list(e0, bm, false);
    let r1 = merge_list(e0, bm, false);
    lemma_merge_list(r1, v, true);
    let out = merged(bm, v);
    assert forall|k: int| 0 <= k < out.len() implies (#[trigger] out[k]).bm25_ranks == ranks_in(
        bm,
        out[k].chunk_id,
    ) && out[k].vec_ranks == ranks_in(v, out[k].chunk_id) by {
        if k < r1.len() {
            assert(side_ranks(r1[k], false) == ranks_in(bm, r1[k].chunk_id));
            assert(r1[k].vec_ranks.len() == 0);
            assert(r1[k].vec_ranks + ranks_in(v, r1[k].chunk_id) =~= ranks_in(v, r1[k].chunk_id));
        } else {
            assert(!entry_ids(r1).contains(out[k].chunk_id));
            assert forall|i: int| 0 <= i < bm.len() implies (#[trigger] bm[i]).chunk_id@ != out[k].chunk_id
                by {
                assert(entry_ids(r1).contains(bm[i].chunk_id@));
            }
            lemma_ranks_absent(bm, out[k].chunk_id);
            assert(out[k].bm25_ranks =~= Seq::<i32>::empty());
        }
    }
    assert forall|id: Seq<char>|
        #[trigger] entry_ids(out).contains(id) <==> chunk_ids(bm).contains(id) || chunk_ids(v).contains(id) by {
        if entry_ids(out).contains(id) {
            let k = choose|k: int| 0 <= k < entry_ids(out).len() && entry_ids(out)[k] == id;
            assert(out[k].chunk_id == id);
            if k >= r1.len() {
                assert(chunk_ids(v).contains(out[k].chunk_id));
            } else {
                assert(r1[k].chunk_id == id);
                assert(chunk_ids(bm).contains(r1[k].chunk_id));
            }
        }
        if chunk_ids(bm).contains(id) {
            let i = choose|i: int| 0 <= i < chunk_ids(bm).len() && chunk_ids(bm)[i] == id;
            assert(bm[i].chunk_id@ == id);
            assert(entry_ids(r1).contains(bm[i].chunk_id@));
            let k = choose|k: int| 0 <= k < entry_ids(r1).len() && entry_ids(r1)[k] == id;
            assert(entry_ids(out)[k] == id);
        }
        if chunk_ids(v).contains(id) {
            let i = choose|i: int| 0 <= i < chunk_ids(v).len() && chunk_ids(v)[i] == id;
            assert(v[i].chunk_id@ == id);
        }
    }
}

/// An entry with the score the caller gave it, as the bit pattern of a
/// non-negative `f32` (whose bit patterns order as the values do).
pub open spec fn scored(es: Seq<RrfEntryView>, scores: Seq<u32>) -> Seq<(RrfEntryView, u32)> {
    Seq::new(es.len(), |i: int| (es[i], scores[i]))
}

/// `e` placed into the score-descending `s` after every entry that scores
/// at least as high.
pub open spec fn insert_desc(s: Seq<(RrfEntryView, u32)>, e: (RrfEntryView, u32)) -> Seq<(RrfEntryView, u32)>
    decreases s.len(),
{
    if s.len() == 0 {
        seq![e]
    } else if e.1 > s.last().1 {
        insert_desc(s.drop_last(), e).push(s.last())
    } else {
        s.push(e)
    }
}

/// `s` ordered by descending score; entries of equal score keep their order.
pub open spec fn sort_desc(s: Seq<(RrfEntryView, u32)>) -> Seq<(RrfEntryView, u32)>
    decreases s.len(),
{
    if s.len() == 0 {
        s
    } else {
        insert_desc(sort_desc(s.drop_last()), s.last())
    }
}

pub open spec fn sorted_desc(s: Seq<(RrfEntryView, u32)>) -> bool {
    forall|i: int, j: int| 0 <= i < j < s.len() ==> (#[trigger] s[i]).1 >= (#[trigger] s[j]).1
}

/// No chunk occurs twice among the entries.
pub open spec fn distinct_chunks(s: Seq<RrfEntryView>) -> bool {
    forall|i: int, j: int| 0 <= i < j < s.len() ==> (#[trigger] s[i]).chunk_id != (#[trigger] s[j]).chunk_id
}

pub open spec fn distinct_scored(s: Seq<(RrfEntryView, u32)>) -> bool {
    forall|i: int, j: int| 0 <= i < j < s.len() ==> (#[trigger] s[i]).0.chunk_id != (#[trigger] s[j]).0.chunk_id
}

/// The last rank in a list of ranks, if any.
pub open spec fn last_rank(rs: Seq<i32>) -> Option<i32> {
    if rs.len() == 0 {
        None
    } else {
        Some(rs.last())
    }
}

/// The hybrid result of a scored entry: its fields, its score, and the last
/// rank it has in each list.
pub open spec fn hybrid_matches(r: SearchResult, p: (RrfEntryView, u32)) -> bool {
    &&& r.chunk_id@ == p.0.chunk_id
    &&& r.file_id@ == p.0.file_id
    &&& r.file_path@ == p.0.file_path
    &&& r.snippet@ == p.0.snippet
    &&& r.score_bits == p.1
    &&& r.rank_bm25 == last_rank(p.0.bm25_ranks)
    &&& r.rank_vec == last_rank(p.0.vec_ranks)
    &&& r.source == SearchSource::Hybrid
}

pub open spec fn pair_views(s: Seq<(RrfEntry, u32)>) -> Seq<(RrfEntryView, u32)> {
    s.map_values(|p: (RrfEntry, u32)| (p.0@, p.1))
}

proof fn lemma_insert_desc_at(s: Seq<(RrfEntryView, u32)>, e: (RrfEntryView, u32), p: int)
    requires
        0 <= p <= s.len(),
        forall|q: int| p <= q < s.len() ==> e.1 > (#[trigger] s[q]).1,
        p == 0 || !(e.1 > s[p - 1].1),
    ensures
        insert_desc(s, e) == s.take(p).push(e) + s.skip(p),
    decreases s.len(),
{
    if s.len() == 0 {
        assert(s.take(p).push(e) + s.skip(p) =~= seq![e]);
    } else if p == s.len() {
        assert(s.take(p).push(e) + s.skip(p) =~= s.push(e));
    } else {
        let t = s.drop_last();
        assert(e.1 > s[s.len() - 1].1);
        assert forall|q: int| p <= q < t.len() implies e.1 > (#[trigger] t[q]).1 by {
            assert(t[q] == s[q]);
        }
        if p > 0 {
            assert(t[p - 1] == s[p - 1]);
        }
        lemma_insert_desc_at(t, e, p);
        assert((t.take(p).push(e) + t.skip(p)).push(s.last()) =~= s.take(p).push(e) + s.skip(p));
    }
}

fn insert_by_score(sorted: &mut Vec<(RrfEntry, u32)>, e: (RrfEntry, u32))
    ensures
        pair_views(final(sorted)@) == insert_desc(pair_views(old(sorted)@), (e.0@, e.1)),
{
    let ghost s = pair_views(sorted@);
    let mut p = sorted.len();
    while p > 0 && e.1 > sorted[p - 1].1
        invariant
            p <= sorted.len(),
            s == pair_views(sorted@),
            forall|q: int| p <= q < s.len() ==> e.1 > (#[trigger] s[q]).1,
        decreases p,
    {
        p = p - 1;
    }
    let ghost ev = (e.0@, e.1);
    proof {
        lemma_insert_desc_at(s, ev, p as int);
    }
    let ghost old_seq = sorted@;
    sorted.insert(p, e);
    proof {
        assert(pair_views(sorted@) =~= s.take(p as int).push(ev) + s.skip(p as int)) by {
            assert(sorted@ == old_seq.insert(p as int, e));
        }
    }
}

fn copy_entry(e: &RrfEntry) -> (c: RrfEntry)
    ensures
        c@ == e@,
{
    RrfEntry {
        chunk_id: e.chunk_id.clone(),
        file_id: e.file_id.clone(),
        file_path: e.file_path.clone(),
        snippet: e.snippet.clone(),
        bm25_ranks: copy_ranks(&e.bm25_ranks),
        vec_ranks: copy_ranks(&e.vec_ranks),
    }
}

fn last_of(rs: &Vec<i32>) -> (r: Option<i32>)
    ensures
        r == last_rank(rs@),
{
    if rs.len() == 0 {
        None
    } else {
        Some(rs[rs.len() - 1])
    }
}

/// The hybrid results of fused entries with their scores: ordered by
/// descending score, entries of equal score in their order, cut to
/// `limit`. Each carries its score and the last rank it has in each list.
pub fn rank_fused(entries: &Vec<RrfEntry>, scores: &Vec<u32>, limit: usize) -> (r: Vec<SearchResult>)
    requires
        scores@.len() == entries@.len(),
    ensures
        r@.len() == min_len(entries@.len(), limit as int),
        forall|i: int|
            0 <= i < r@.len() ==> hybrid_matches(
                #[trigger] r@[i],
                sort_desc(scored(views(entries@), scores@))[i],
            ),
        forall|i: int, j: int| 0 <= i < j < r@.len() ==> (#[trigger] r@[i]).score_bits >= (
        #[trigger] r@[j]).score_bits,
{
    let ghost m = scored(views(entries@), scores@);
    let mut sorted: Vec<(RrfEntry, u32)> = Vec::new();
    let mut k: usize = 0;
    proof {
        assert(pair_views(sorted@) =~= sort_desc(m.take(0)));
    }
    while k < entries.len()
        invariant
            k <= entries@.len(),
            scores@.len() == entries@.len(),
            m == scored(views(entries@), scores@),
            pair_views(sorted@) == sort_desc(m.take(k as int)),
        decreases entries@.len() - k,
    {
        let e = copy_entry(&entries[k]);
        proof {
            assert(m.take(k + 1).drop_last() =~= m.take(k as int));
            assert(m.take(k + 1).last() == (e@, scores@[k as int]));
        }
        insert_by_score(&mut sorted, (e, scores[k]));
        k = k + 1;
    }
    proof {
        assert(m.take(k as int) =~= m);
        lemma_sort_desc_props(m);
    }
    let ghost full = pair_views(sorted@);
    let n = if limit < sorted.len() {
        limit
    } else {
        sorted.len()
    };
    let mut out: Vec<SearchResult> = Vec::new();
    let mut i: usize = 0;
    while i < n
        invariant
            n <= sorted@.len(),
            n == min_len(entries@.len(), limit as int),
            full == pair_views(sorted@),
            full == sort_desc(m),
            sorted_desc(full),
            i <= n,
            out@.len() == i,
            forall|q: int| 0 <= q < i ==> hybrid_matches(#[trigger] out@[q], full[q]),
        decreases n - i,
    {
        let p = &sorted[i];
        proof {
            assert(full[i as int] == (p.0@, p.1));
        }
        out.push(
            SearchResult {
                file_id: p.0.file_id.clone(),
                file_path: p.0.file_path.clone(),
                chunk_id: p.0.chunk_id.clone(),
                snippet: p.0.snippet.clone(),
                score_bits: p.1,
                rank_bm25: last_of(&p.0.bm25_ranks),
                rank_vec: last_of(&p.0.vec_ranks),
                source: SearchSource::Hybrid,
            },
        );
        i = i + 1;
    }
    proof {
        assert forall|a: int, b: int| 0 <= a < b < out@.len() implies (#[trigger] out@[a]).score_bits
            >= (#[trigger] out@[b]).score_bits by {
            assert(hybrid_matches(out@[a], full[a]));
            assert(hybrid_matches(out@[b], full[b]));
        }
    }
    out
}

/// Where `insert_desc` puts the new entry.
proof fn lemma_insert_desc_split(s: Seq<(RrfEntryView, u32)>, e: (RrfEntryView, u32)) -> (p: int)
    ensures
        0 <= p <= s.len(),
        insert_desc(s, e) == s.take(p).push(e) + s.skip(p),
        forall|q: int| p <= q < s.len() ==> e.1 > (#[trigger] s[q]).1,
        p == 0 || !(e.1 > s[p - 1].1),
    decreases s.len(),
{
    if s.len() == 0 {
        assert(s.take(0).push(e) + s.skip(0) =~= seq![e]);
        0
    } else if e.1 > s.last().1 {
        let t = s.drop_last();
        let p = lemma_insert_desc_split(t, e);
        assert((t.take(p).push(e) + t.skip(p)).push(s.last()) =~= s.take(p).push(e) + s.skip(p));
        assert forall|q: int| p <= q < s.len() implies e.1 > (#[trigger] s[q]).1 by {
            if q < t.len() {
                assert(t[q] == s[q]);
            }
        }
        if p > 0 {
            assert(t[p - 1] == s[p - 1]);
        }
        p
    } else {
        let p = s.len() as int;
        assert(s.take(p).push(e) + s.skip(p) =~= s.push(e));
        p
    }
}

proof fn lemma_insert_desc_props(s: Seq<(RrfEntryView, u32)>, e: (RrfEntryView, u32))
    ensures
        insert_desc(s, e).to_multiset() =~= s.to_multiset().insert(e),
        insert_desc(s, e).len() == s.len() + 1,
        sorted_desc(s) ==> sorted_desc(insert_desc(s, e)),
        distinct_scored(s) && !(exists|i: int| 0 <= i < s.len() && (#[trigger] s[i]).0.chunk_id == e.0.chunk_id)
            ==> distinct_scored(insert_desc(s, e)),
{
    let p = lemma_insert_desc_split(s, e);
    let out = insert_desc(s, e);
    let a = s.take(p);
    let b = s.skip(p);
    assert(s =~= a + b);
    vstd::seq_lib::lemma_multiset_commutative(a, b);
    vstd::seq_lib::lemma_multiset_commutative(a.push(e), b);
    assert(out.len() == s.len() + 1);
    assert forall|i: int| 0 <= i < out.len() implies (#[trigger] out[i]) == (if i < p {
        s[i]
    } else if i == p {
        e
    } else {
        s[i - 1]
    }) by {}
    if sorted_desc(s) {
        assert forall|i: int, j: int| 0 <= i < j < out.len() implies (#[trigger] out[i]).1 >= (
        #[trigger] out[j]).1 by {
            if j == p && i < p - 1 {
                assert(s[i].1 >= s[p - 1].1);
            }
        }
    }
}

proof fn lemma_sort_desc_props(s: Seq<(RrfEntryView, u32)>)
    ensures
        sort_desc(s).to_multiset() =~= s.to_multiset(),
        sort_desc(s).len() == s.len(),
        sorted_desc(sort_desc(s)),
        distinct_scored(s) ==> distinct_scored(sort_desc(s)),
    decreases s.len(),
{
    if s.len() > 0 {
        let t = s.drop_last();
        let e = s.last();
        assert(t.push(e) =~= s);
        lemma_sort_desc_props(t);
        let st = sort_desc(t);
        lemma_insert_desc_props(st, e);
        if distinct_scored(s) {
            assert forall|i: int, j: int| 0 <= i < j < t.len() implies (#[trigger] t[i]).0.chunk_id
                != (#[trigger] t[j]).0.chunk_id by {
                assert(t[i] == s[i] && t[j] == s[j]);
            }
            if exists|i: int| 0 <= i < st.len() && (#[trigger] st[i]).0.chunk_id == e.0.chunk_id {
                let k = choose|i: int| 0 <= i < st.len() && (#[trigger] st[i]).0.chunk_id == e.0.chunk_id;
                assert(st.to_multiset().count(st[k]) > 0);
                assert(t.contains(st[k]));
                let m = choose|m: int| 0 <= m < t.len() && t[m] == st[k];
                assert(s[m] == t[m]);
                assert(s[s.len() - 1] == e);
            }
        }
    }
}

proof fn lemma_ranks_bounds(list: Seq<SearchResult>, id: Seq<char>)
    requires
        list.len() < i32::MAX,
    ensures
        forall|j: int|
            0 <= j < ranks_in(list, id).len() ==> 1 <= #[trigger] ranks_in(list, id)[j] <= list.len(),
    decreases list.len(),
{
    if list.len() > 0 {
        let t = list.drop_last();
        lemma_ranks_bounds(t, id);
        let rs = ranks_in(list, id);
        if list.last().chunk_id@ == id {
            assert forall|j: int| 0 <= j < rs.len() implies 1 <= #[trigger] rs[j] <= list.len() by {
                if j < rs.len() - 1 {
                    assert(rs[j] == ranks_in(t, id)[j]);
                }
            }
        }
    }
}

/// In a list where no chunk occurs twice, the rank a chunk gets is its
/// position plus one: it is `i + 1` exactly when the chunk stands at `i`.
pub proof fn lemma_unique_rank(list: Seq<SearchResult>, id: Seq<char>, i: int)
    requires
        unique_ids(list),
        0 <= i < list.len(),
        list.len() < i32::MAX,
    ensures
        last_rank(ranks_in(list, id)) == Some((i + 1) as i32) <==> list[i].chunk_id@ == id,
    decreases list.len(),
{
    let t = list.drop_last();
    let n = list.len() - 1;
    assert(list[n] == list.last());
    assert forall|a: int, b: int| 0 <= a < b < t.len() implies (#[trigger] t[a]).chunk_id@ != (
    #[trigger] t[b]).chunk_id@ by {
        assert(t[a] == list[a] && t[b] == list[b]);
    }
    lemma_ranks_bounds(t, id);
    if i == n {
        if list.last().chunk_id@ != id {
            let rs = ranks_in(t, id);
            if rs.len() > 0 {
                assert(rs[rs.len() - 1] <= t.len());
            }
        }
    } else {
        assert(t[i] == list[i]);
        if list.last().chunk_id@ == id {
            assert(list[i].chunk_id@ != list[n].chunk_id@);
        } else {
            lemma_unique_rank(t, id, i);
        }
    }
}

/// The hybrid results of a fusion: no chunk comes twice, each comes from one
/// of the two lists, and each carries the last rank its chunk has in the
/// keyword list and in the vector list.
pub proof fn lemma_hybrid_results(
    bm: Seq<SearchResult>,
    v: Seq<SearchResult>,
    scores: Seq<u32>,
    out: Seq<SearchResult>,
)
    requires
        bm.len() < i32::MAX,
        v.len() < i32::MAX,
        scores.len() == merged(bm, v).len(),
        out.len() <= merged(bm, v).len(),
        forall|i: int|
            0 <= i < out.len() ==> hybrid_matches(
                #[trigger] out[i],
                sort_desc(scored(merged(bm, v), scores))[i],
            ),
    ensures
        forall|i: int, j: int|
            0 <= i < j < out.len() ==> (#[trigger] out[i]).chunk_id@ != (#[trigger] out[j]).chunk_id@,
        forall|i: int|
            0 <= i < out.len() ==> {
                let r = #[trigger] out[i];
                &&& r.rank_bm25 == last_rank(ranks_in(bm, r.chunk_id@))
                &&& r.rank_vec == last_rank(ranks_in(v, r.chunk_id@))
                &&& r.source == SearchSource::Hybrid
                &&& chunk_ids(bm).contains(r.chunk_id@) || chunk_ids(v).contains(r.chunk_id@)
            },
{
    let es = merged(bm, v);
    let m = scored(es, scores);
    let s = sort_desc(m);
    lemma_merged_ranks(bm, v);
    assert forall|a: int, b: int| 0 <= a < b < m.len() implies (#[trigger] m[a]).0.chunk_id != (
    #[trigger] m[b]).0.chunk_id by {
        assert(es[a].chunk_id != es[b].chunk_id);
    }
    lemma_sort_desc_props(m);
    assert forall|i: int| 0 <= i < out.len() implies {
        let r = #[trigger] out[i];
        &&& r.rank_bm25 == last_rank(ranks_in(bm, r.chunk_id@))
        &&& r.rank_vec == last_rank(ranks_in(v, r.chunk_id@))
        &&& r.source == SearchSource::Hybrid
        &&& chunk_ids(bm).contains(r.chunk_id@) || chunk_ids(v).contains(r.chunk_id@)
    } by {
        assert(hybrid_matches(out[i], s[i]));
        assert(s.to_multiset().count(s[i]) > 0);
        assert(m.contains(s[i]));
        let j = choose|j: int| 0 <= j < m.len() && m[j] == s[i];
        assert(m[j].0 == es[j]);
        assert(entry_ids(es)[j] == es[j].chunk_id);
        assert(entry_ids(es).contains(es[j].chunk_id));
    }
    assert forall|a: int, b: int| 0 <= a < b < out.len() implies (#[trigger] out[a]).chunk_id@ != (
    #[trigger] out[b]).chunk_id@ by {
        assert(hybrid_matches(out[a], s[a]));
        assert(hybrid_matches(out[b], s[b]));
    }
}

/// A result ranked higher in one list scores higher there:
/// `1/(60 + a) > 1/(60 + b)` for ranks `a < b`.
pub proof fn lemma_rrf_rank_order(a: i32, b: i32)
    requires
        1 <= a < b,
    ensures
        rrf_num(Some(a), None) * rrf_den(Some(b), None) > rrf_num(Some(b), None) * rrf_den(
            Some(a),
            None,
        ),
        rrf_num(None, Some(a)) * rrf_den(None, Some(b)) > rrf_num(None, Some(b)) * rrf_den(
            None,
            Some(a),
        ),
{
}

/// A chunk found by both searches outscores one found by a single search at
/// the same rank; found first by both, it scores `2/61`.
pub proof fn lemma_rrf_both_lists(a: i32, b: i32)
    requires
        1 <= a,
        1 <= b,
    ensures
        rrf_num(Some(a), Some(b)) * rrf_den(Some(a), None) > rrf_num(Some(a), None) * rrf_den(
            Some(a),
            Some(b),
        ),
        rrf_num(Some(1), Some(1)) * 61 == 2 * rrf_den(Some(1), Some(1)),
{
    let x = RRF_K + a;
    let y = RRF_K + b;
    assert((2 * RRF_K + a + b) * x > x * y) by (nonlinear_arith)
        requires
            x == RRF_K + a,
            y == RRF_K + b,
            a >= 1,
            b >= 1,
    ;
    assert(rrf_den(Some(1i32), Some(1i32)) == 61 * 61);
    assert(rrf_num(Some(1i32), Some(1i32)) == 122);
}

} // verus!
