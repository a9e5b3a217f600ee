//! Splitting extracted text into overlapping chunks of about 900 tokens.
//!
//! Positions are byte offsets into the UTF-8 encoding of the text. A chunk
//! window holds at most `CHUNK_SIZE` bytes and ends on a character boundary,
//! preferably just after the last newline inside the window; the next chunk
//! starts `OVERLAP` bytes before the previous end, moved forward to a
//! character boundary, or at the previous end when that would not lie after
//! the previous start.
use vstd::prelude::*;
use vstd::string::StringSliceAdditionalSpecFns;
use vstd::utf8::*;

use crate::common::Chunk;
use crate::ids::new_id;

verus! {

broadcast use vstd::utf8::group_utf8_lib;

/// Bytes per chunk window (about 900 tokens at four bytes per token).
pub const CHUNK_SIZE: usize = 3600;

/// Bytes shared by consecutive chunks (about 100 tokens).
pub const OVERLAP: usize = 400;

/// The largest character boundary at or below `e`, but not below `lo`.
pub open spec fn floor_boundary(b: Seq<u8>, lo: int, e: int) -> int
    decreases e - lo,
{
    if e <= lo || is_char_boundary(b, e) {
        e
    } else {
        floor_boundary(b, lo, e - 1)
    }
}

/// The smallest character boundary at or above `s`, but not above `e`.
pub open spec fn ceil_boundary(b: Seq<u8>, s: int, e: int) -> int
    decreases e - s,
{
    if s >= e || is_char_boundary(b, s) {
        s
    } else {
        ceil_boundary(b, s + 1, e)
    }
}

/// The position of the last newline byte in `b[lo..hi]`, if any.
pub open spec fn last_newline(b: Seq<u8>, lo: int, hi: int) -> Option<int>
    decreases hi - lo,
{
    if hi <= lo {
        None
    } else if b[hi - 1] == 10u8 {
        Some(hi - 1)
    } else {
        last_newline(b, lo, hi - 1)
    }
}

/// Where the chunk that starts at `start` ends: the end of the text when the
/// window reaches it; otherwise just after the last newline in the window,
/// or the window's end moved back to a character boundary.
pub open spec fn chunk_end(b: Seq<u8>, start: int) -> int {
    if start + CHUNK_SIZE >= b.len() {
        b.len() as int
    } else {
        let e = floor_boundary(b, start, start + CHUNK_SIZE);
        match last_newline(b, start, e) {
            Some(k) => k + 1,
            None => e,
        }
    }
}

/// Where the chunk after `[start, end)` starts: `OVERLAP` bytes before
/// `end`, moved forward to a character boundary; at `end` itself when that
/// would not lie after `start`, so that every chunk starts after the one
/// before it.
pub open spec fn next_start(b: Seq<u8>, start: int, end: int) -> int {
    let s = if end >= OVERLAP {
        end - OVERLAP
    } else {
        0
    };
    let c = ceil_boundary(b, s, end);
    if c <= start {
        end
    } else {
        c
    }
}

/// The spans of the chunks from the one that starts at `start` to the end
/// of the text.
pub open spec fn spans_from(b: Seq<u8>, start: int) -> Seq<(int, int)>
    decreases b.len() - start,
    when valid_utf8(b) && 0 <= start < b.len() && is_char_boundary(b, start)
{
    let e = chunk_end(b, start);
    if e >= b.len() {
        seq![(start, e)]
    } else {
        proof {
            lemma_chunk_end(b, start);
            lemma_next_start(b, start, e);
        }
        seq![(start, e)] + spans_from(b, next_start(b, start, e))
    }
}

/// The byte spans `[start, end)` of the chunks of a text.
pub open spec fn chunk_spans(b: Seq<u8>) -> Seq<(int, int)> {
    if b.len() <= CHUNK_SIZE {
        seq![(0int, b.len() as int)]
    } else {
        spans_from(b, 0)
    }
}

/// The token estimate of a text of `len` bytes: a quarter of it, at least one.
pub open spec fn tokens_for_len(len: int) -> int {
    if len / 4 < 1 {
        1
    } else {
        len / 4
    }
}

/// `chunk` is the chunk number `i` of a text with bytes `b`, over `span`.
pub open spec fn chunk_matches(c: Chunk, b: Seq<u8>, file_id: Seq<char>, i: int, span: (int, int)) -> bool {
    &&& c.id@.len() == 36
    &&& c.file_id@ == file_id
    &&& c.chunk_index == i
    &&& c.start_byte == span.0
    &&& c.end_byte == span.1
    &&& encode_utf8(c.content@) == b.subrange(span.0, span.1)
    &&& c.token_count == tokens_for_len(span.1 - span.0)
}

/// Approximate token count: one token per four bytes, at least one.
pub fn estimate_tokens(text: &str) -> (r: usize)
    ensures
        r == tokens_for_len(text.len() as int),
{
    let q = text.len() / 4;
    if q < 1 {
        1
    } else {
        q
    }
}

proof fn lemma_ascii_next_boundary(b: Seq<u8>, k: int)
    requires
        valid_utf8(b),
        0 <= k < b.len(),
        b[k] < 0x80,
    ensures
        is_char_boundary(b, k + 1),
{
    assert(!is_continuation_byte(b[k]));
    assert(is_char_boundary(b, k));
    let q = b.subrange(k, b.len() as int);
    assert(valid_utf8(q));
    reveal_with_fuel(valid_utf8, 2);
    assert(q[0] == b[k]);
    assert(length_of_first_scalar(q) == 1);
    let r = pop_first_scalar(q);
    assert(r =~= b.subrange(k + 1, b.len() as int));
    if k + 1 < b.len() {
        assert(valid_utf8(r));
        assert(valid_first_scalar(r));
        assert(r[0] == b[k + 1]);
        assert(!is_continuation_byte(b[k + 1]));
    }
}

/// Boundary within a prefix that itself ends on a boundary.
proof fn lemma_prefix_boundary(b: Seq<u8>, end: int, i: int)
    requires
        valid_utf8(b),
        0 <= i <= end <= b.len(),
        is_char_boundary(b, end),
        is_char_boundary(b, i),
    ensures
        valid_utf8(b.subrange(0, end)),
        is_char_boundary(b.subrange(0, end), i),
{
    let p = b.subrange(0, end);
    assert(valid_utf8(p));
    if i == end {
        assert(is_char_boundary(p, p.len() as int));
    } else if i > 0 {
        assert(!is_continuation_byte(b[i]));
        assert(p[i] == b[i]);
    }
}

pub(crate) proof fn lemma_floor_boundary(b: Seq<u8>, lo: int, e: int)
    requires
        valid_utf8(b),
        0 <= lo <= e <= b.len(),
        is_char_boundary(b, lo),
    ensures
        lo <= floor_boundary(b, lo, e) <= e,
        is_char_boundary(b, floor_boundary(b, lo, e)),
        forall|j: int| lo < j <= e && is_char_boundary(b, j) ==> j <= floor_boundary(b, lo, e),
    decreases e - lo,
{
    if e <= lo || is_char_boundary(b, e) {
    } else {
        lemma_floor_boundary(b, lo, e - 1);
    }
}

proof fn lemma_ceil_boundary(b: Seq<u8>, s: int, e: int)
    requires
        valid_utf8(b),
        0 <= s <= e <= b.len(),
        is_char_boundary(b, e),
    ensures
        s <= ceil_boundary(b, s, e) <= e,
        is_char_boundary(b, ceil_boundary(b, s, e)),
        forall|j: int| s <= j < ceil_boundary(b, s, e) ==> !is_char_boundary(b, j),
    decreases e - s,
{
    if s >= e || is_char_boundary(b, s) {
    } else {
        lemma_ceil_boundary(b, s + 1, e);
    }
}

proof fn lemma_last_newline(b: Seq<u8>, lo: int, hi: int)
    requires
        0 <= lo <= hi <= b.len(),
    ensures
        last_newline(b, lo, hi) matches Some(k) ==> lo <= k < hi && b[k] == 10u8,
        last_newline(b, lo, hi) is None ==> forall|j: int| lo <= j < hi ==> b[j] != 10u8,
    decreases hi - lo,
{
    if hi > lo && b[hi - 1] != 10u8 {
        lemma_last_newline(b, lo, hi - 1);
    }
}

/// Some character boundary lies at most three bytes past any position.
pub proof fn lemma_boundary_near(b: Seq<u8>, j: int)
    requires
        valid_utf8(b),
        0 <= j <= b.len(),
    ensures
        exists|k: int| j <= k <= j + 3 && k <= b.len() && is_char_boundary(b, k),
    decreases b.len(),
{
    if j == 0 {
        assert(is_char_boundary(b, 0));
    } else {
        reveal_with_fuel(valid_utf8, 2);
        let l = length_of_first_scalar(b);
        let r = pop_first_scalar(b);
        assert(1 <= l <= 4);
        assert(r.len() == b.len() - l);
        if j < l {
            // the first scalar ends on a boundary no more than three bytes on
            if l < b.len() {
                assert(r[0] == b[l]);
                assert(valid_first_scalar(r));
                assert(!is_continuation_byte(b[l]));
                assert(is_char_boundary(b, l));
            } else {
                assert(is_char_boundary(b, b.len() as int));
            }
        } else {
            lemma_boundary_near(r, j - l);
            let k = choose|k: int| j - l <= k <= j - l + 3 && k <= r.len() && is_char_boundary(r, k);
            if k == 0 {
                assert(is_char_boundary(b, l)) by {
                    if l < b.len() {
                        assert(r[0] == b[l]);
                        assert(valid_first_scalar(r));
                        assert(!is_continuation_byte(b[l]));
                    } else {
                        assert(is_char_boundary(b, b.len() as int));
                    }
                }
                assert(j <= l + k <= j + 3);
            } else {
                assert(is_char_boundary(b, k + l));
            }
        }
    }
}

/// The position just after a chunk's end.
pub proof fn lemma_chunk_end(b: Seq<u8>, start: int)
    requires
        valid_utf8(b),
        0 <= start < b.len(),
        is_char_boundary(b, start),
    ensures
        start < chunk_end(b, start) <= b.len(),
        chunk_end(b, start) - start <= CHUNK_SIZE,
        is_char_boundary(b, chunk_end(b, start)),
{
    if start + CHUNK_SIZE >= b.len() {
        assert(is_char_boundary(b, b.len() as int));
    } else {
        let e = floor_boundary(b, start, start + CHUNK_SIZE);
        lemma_floor_boundary(b, start, start + CHUNK_SIZE);
        lemma_boundary_near(b, start + 1);
        let k = choose|k: int|
            start + 1 <= k <= start + 1 + 3 && k <= b.len() && is_char_boundary(b, k);
        assert(start < e);
        lemma_last_newline(b, start, e);
        match last_newline(b, start, e) {
            Some(n) => {
                lemma_ascii_next_boundary(b, n);
            },
            None => {},
        }
    }
}

/// Where the next chunk starts: after the previous start, at or before
/// the previous end, and no more than `OVERLAP` bytes before it.
pub proof fn lemma_next_start(b: Seq<u8>, start: int, end: int)
    requires
        valid_utf8(b),
        0 <= start < end <= b.len(),
        is_char_boundary(b, end),
    ensures
        end - OVERLAP <= next_start(b, start, end) <= end,
        start < next_start(b, start, end),
        is_char_boundary(b, next_start(b, start, end)),
{
    let s = if end >= OVERLAP {
        end - OVERLAP
    } else {
        0
    };
    lemma_ceil_boundary(b, s, end);
    if s == 0 {
        assert(is_char_boundary(b, 0));
    }
}

/// What the chunk spans of a text satisfy: the first starts at 0, the last
/// ends at the text's end, every span is at most `CHUNK_SIZE` bytes long and
/// bounded by character boundaries, every span of a non-empty text is
/// non-empty, each span starts after the one before it and no later than
/// where that one ends, but no more than `OVERLAP` bytes before, and there
/// are never more spans than bytes (one span for the empty text).
pub proof fn lemma_chunk_spans(b: Seq<u8>)
    requires
        valid_utf8(b),
    ensures
        ({
            let sp = chunk_spans(b);
            &&& 1 <= sp.len()
            &&& sp.len() <= b.len() || sp.len() == 1
            &&& sp[0].0 == 0
            &&& sp[sp.len() - 1].1 == b.len()
            &&& forall|i: int|
                0 <= i < sp.len() ==> 0 <= (#[trigger] sp[i]).0 <= sp[i].1 <= b.len() && sp[i].1
                    - sp[i].0 <= CHUNK_SIZE && is_char_boundary(b, sp[i].0) && is_char_boundary(
                    b,
                    sp[i].1,
                )
            &&& b.len() > 0 ==> forall|i: int| 0 <= i < sp.len() ==> (#[trigger] sp[i]).0 < sp[i].1
            &&& forall|i: int|
                0 < i < sp.len() ==> sp[i - 1].0 < (#[trigger] sp[i]).0 && sp[i - 1].1 - OVERLAP
                    <= sp[i].0 <= sp[i - 1].1
        }),
{
    assert(is_char_boundary(b, 0));
    if b.len() <= CHUNK_SIZE {
        assert(is_char_boundary(b, b.len() as int));
    } else {
        lemma_spans_from(b, 0);
    }
}

proof fn lemma_spans_from(b: Seq<u8>, start: int)
    requires
        valid_utf8(b),
        0 <= start < b.len(),
        is_char_boundary(b, start),
    ensures
        ({
            let sp = spans_from(b, start);
            &&& 1 <= sp.len() <= b.len() - start
            &&& sp[0].0 == start
            &&& sp[sp.len() - 1].1 == b.len()
            &&& forall|i: int|
                0 <= i < sp.len() ==> 0 <= (#[trigger] sp[i]).0 < sp[i].1 <= b.len() && sp[i].1
                    - sp[i].0 <= CHUNK_SIZE && is_char_boundary(b, sp[i].0) && is_char_boundary(
                    b,
                    sp[i].1,
                )
            &&& forall|i: int|
                0 < i < sp.len() ==> sp[i - 1].0 < (#[trigger] sp[i]).0 && sp[i - 1].1 - OVERLAP
                    <= sp[i].0 <= sp[i - 1].1
        }),
    decreases b.len() - start,
{
    let e = chunk_end(b, start);
    lemma_chunk_end(b, start);
    if e < b.len() {
        let ns = next_start(b, start, e);
        lemma_next_start(b, start, e);
        lemma_spans_from(b, ns);
        let rest = spans_from(b, ns);
        let sp = spans_from(b, start);
        assert(sp == seq![(start, e)] + rest);
        assert forall|i: int| 0 <= i < sp.len() implies 0 <= (#[trigger] sp[i]).0 < sp[i].1
            <= b.len() && sp[i].1 - sp[i].0 <= CHUNK_SIZE && is_char_boundary(b, sp[i].0)
            && is_char_boundary(b, sp[i].1) by {
            if i > 0 {
                assert(sp[i] == rest[i - 1]);
            }
        }
        assert forall|i: int| 0 < i < sp.len() implies sp[i - 1].0 < (#[trigger] sp[i]).0 && sp[i
            - 1].1 - OVERLAP <= sp[i].0 <= sp[i - 1].1 by {
            assert(sp[i] == rest[i - 1]);
            if i > 1 {
                assert(sp[i - 1] == rest[i - 2]);
            }
        }
    }
}

fn last_newline_in(bytes: &[u8], lo: usize, hi: usize) -> (r: Option<usize>)
    requires
        lo <= hi <= bytes@.len(),
    ensures
        match r {
            Some(k) => last_newline(bytes@, lo as int, hi as int) == Some(k as int),
            None => last_newline(bytes@, lo as int, hi as int) is None,
        },
{
    let mut h = hi;
    while h > lo
        invariant
            lo <= h <= hi <= bytes@.len(),
            last_newline(bytes@, lo as int, hi as int) == last_newline(bytes@, lo as int, h as int),
        decreases h,
    {
        if bytes[h - 1] == 10u8 {
            return Some(h - 1);
        }
        h = h - 1;
    }
    None
}

/// The text of the bytes `[start, end)` of `text`.
fn byte_range_string(text: &str, start: usize, end: usize) -> (r: String)
    requires
        start <= end <= text.spec_bytes().len(),
        is_char_boundary(text.spec_bytes(), start as int),
        is_char_boundary(text.spec_bytes(), end as int),
    ensures
        encode_utf8(r@) == text.spec_bytes().subrange(start as int, end as int),
{
    let b = Ghost(text.spec_bytes());
    proof {
        lemma_prefix_boundary(b@, end as int, start as int);
    }
    let (left, _) = text.split_at(end);
    proof {
        assert(left.spec_bytes() =~= b@.subrange(0, end as int));
    }
    let (_, mid) = left.split_at(start);
    proof {
        assert(mid.spec_bytes() =~= b@.subrange(start as int, end as int));
    }
    String::from_str(mid)
}

/// One chunk over the bytes `[start, end)` of `text`.
fn make_chunk(text: &str, file_id: &str, index: i32, start: usize, end: usize) -> (c: Chunk)
    requires
        start <= end <= text.spec_bytes().len(),
        text.spec_bytes().len() <= i64::MAX,
        text.spec_bytes().len() <= usize::MAX,
        is_char_boundary(text.spec_bytes(), start as int),
        is_char_boundary(text.spec_bytes(), end as int),
        end - start <= CHUNK_SIZE || (start == 0 && end == text.spec_bytes().len()
            && end <= CHUNK_SIZE),
    ensures
        chunk_matches(c, text.spec_bytes(), file_id@, index as int, (start as int, end as int)),
{
    let content = byte_range_string(text, start, end);
    let token_count = estimate_tokens(content.as_str());
    proof {
        assert(encode_utf8(content@).len() == end - start);
    }
    Chunk {
        id: new_id(),
        file_id: String::from_str(file_id),
        chunk_index: index,
        content,
        token_count: token_count as i32,
        start_byte: start as i64,
        end_byte: end as i64,
    }
}

/// Where the chunk that starts at `start` ends (see `chunk_end`).
fn chunk_end_at(text: &str, start: usize) -> (end: usize)
    requires
        start < text.spec_bytes().len(),
    ensures
        end == chunk_end(text.spec_bytes(), start as int),
{
    let ghost b = text.spec_bytes();
    let bytes = text.as_bytes();
    let len = bytes.len();
    if len - start <= CHUNK_SIZE {
        return len;
    }
    let mut e = start + CHUNK_SIZE;
    while e > start && !text.is_char_boundary(e)
        invariant
            b == text.spec_bytes(),
            start <= e <= start + CHUNK_SIZE < len,
            floor_boundary(b, start as int, e as int) == floor_boundary(
                b,
                start as int,
                (start + CHUNK_SIZE) as int,
            ),
        decreases e,
    {
        e = e - 1;
    }
    proof {
        lemma_last_newline(b, start as int, e as int);
    }
    match last_newline_in(bytes, start, e) {
        Some(k) => k + 1,
        None => e,
    }
}

/// Where the chunk after `[start, end)` starts (see `next_start`).
fn next_start_at(text: &str, start: usize, end: usize) -> (next: usize)
    requires
        start < end < text.spec_bytes().len(),
    ensures
        next == next_start(text.spec_bytes(), start as int, end as int),
{
    let ghost b = text.spec_bytes();
    let from: usize = if end >= OVERLAP {
        end - OVERLAP
    } else {
        0
    };
    let mut next = from;
    while next < end && !text.is_char_boundary(next)
        invariant
            b == text.spec_bytes(),
            from <= next <= end,
            ceil_boundary(b, next as int, end as int) == ceil_boundary(b, from as int, end as int),
        decreases end - next,
    {
        next = next + 1;
    }
    if next <= start {
        end
    } else {
        next
    }
}

/// Splits a text into chunks of at most 3600 bytes (about 900 tokens) that
/// overlap by about 400 bytes, each chunk ending after a newline where the
/// window holds one. A text of at most 3600 bytes, the empty text included,
/// is one chunk. Every chunk gets a fresh id. Gives `None` exactly when the
/// text has more chunks than an `i32` index can number.
pub fn try_chunk_text(text: &str, file_id: &str) -> (r: Option<Vec<Chunk>>)
    requires
        text.spec_bytes().len() <= i64::MAX,
    ensures
        r is Some <==> chunk_spans(text.spec_bytes()).len() <= i32::MAX,
        r matches Some(chunks) ==> {
            &&& chunks@.len() == chunk_spans(text.spec_bytes()).len()
            &&& forall|i: int|
                0 <= i < chunks@.len() ==> chunk_matches(
                    #[trigger] chunks@[i],
                    text.spec_bytes(),
                    file_id@,
                    i,
                    chunk_spans(text.spec_bytes())[i],
                )
        },
{
    let ghost b = text.spec_bytes();
    let bytes = text.as_bytes();
    let len = bytes.len();
    proof {
        assert(valid_utf8(b));
        assert(is_char_boundary(b, 0));
        assert(is_char_boundary(b, b.len() as int));
    }
    if len <= CHUNK_SIZE {
        let c = make_chunk(text, file_id, 0, 0, len);
        let mut v: Vec<Chunk> = Vec::new();
        v.push(c);
        return Some(v);
    }
    let mut chunks: Vec<Chunk> = Vec::new();
    let mut start: usize = 0;
    let ghost mut done: Seq<(int, int)> = Seq::empty();
    proof {
        assert(done + spans_from(b, 0) =~= chunk_spans(b));
    }
    loop
        invariant
            b == text.spec_bytes(),
            bytes@ == b,
            len == b.len(),
            CHUNK_SIZE < len <= i64::MAX,
            valid_utf8(b),
            start < len,
            is_char_boundary(b, start as int),
            done + spans_from(b, start as int) == chunk_spans(b),
            chunks@.len() == done.len(),
            chunks@.len() <= i32::MAX,
            forall|i: int|
                0 <= i < chunks@.len() ==> chunk_matches(#[trigger] chunks@[i], b, file_id@, i, done[i]),
        decreases len - start,
    {
        let end = chunk_end_at(text, start);
        proof {
            lemma_chunk_end(b, start as int);
            lemma_spans_from(b, start as int);
        }
        let ghost rest = spans_from(b, start as int);
        if chunks.len() == i32::MAX as usize {
            proof {
                assert(chunk_spans(b).len() == done.len() + rest.len());
            }
            return None;
        }
        let c = make_chunk(text, file_id, chunks.len() as i32, start, end);
        let ghost old_chunks = chunks@;
        chunks.push(c);
        let ghost old_done = done;
        proof {
            done = done.push((start as int, end as int));
            assert forall|i: int| 0 <= i < chunks@.len() implies chunk_matches(
                #[trigger] chunks@[i],
                b,
                file_id@,
                i,
                done[i],
            ) by {
                if i < old_chunks.len() {
                    assert(chunks@[i] == old_chunks[i]);
                    assert(done[i] == old_done[i]);
                }
            }
        }
        if end >= len {
            proof {
                assert(rest == seq![(start as int, end as int)]);
                assert(done =~= old_done + rest);
            }
            return Some(chunks);
        }
        let next = next_start_at(text, start, end);
        proof {
            lemma_next_start(b, start as int, end as int);
            let tail = spans_from(b, next as int);
            assert(rest == seq![(start as int, end as int)] + tail);
            assert(done + tail =~= old_done + rest);
        }
        start = next;
    }
}

/// The chunks of a text (see `try_chunk_text`) that has no more chunks than
/// an `i32` index can number; a text of at most `i32::MAX` bytes never has
/// (see `lemma_chunk_spans`).
pub fn chunk_text(text: &str, file_id: &str) -> (chunks: Vec<Chunk>)
    requires
        text.spec_bytes().len() <= i64::MAX,
        chunk_spans(text.spec_bytes()).len() <= i32::MAX,
    ensures
        chunks@.len() == chunk_spans(text.spec_bytes()).len(),
        forall|i: int|
            0 <= i < chunks@.len() ==> chunk_matches(
                #[trigger] chunks@[i],
                text.spec_bytes(),
                file_id@,
                i,
                chunk_spans(text.spec_bytes())[i],
            ),
{
    match try_chunk_text(text, file_id) {
        Some(chunks) => chunks,
        None => {
            proof {
                assert(false);
            }
            Vec::new()
        },
    }
}

} // verus!
