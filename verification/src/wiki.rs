//! Wiki generation: which content a project wiki is built from, when an
//! existing wiki is still current, how chunks are grouped into prompts,
//! how page titles are read, and how project wikis are condensed into the
//! context of the global wiki.
use vstd::prelude::*;
use vstd::string::StringSliceAdditionalSpecFns;
use vstd::utf8::*;

use crate::chunking::{floor_boundary, lemma_boundary_near, lemma_floor_boundary};
use crate::common::{AiTier, Chunk, FileEntry, KnowlixError, Timestamp, WikiPage, WikiProgress};
use crate::digest::{hex_lower, spec_sha256, text_hash};
use crate::ids::new_id;
use crate::text::{
    chars_of, decimal, decimal_string, lemma_encode_concat, str_eq, string_from_chars,
    string_of_range, trim, trim_range,
};
use crate::xmltext::{join_with, push_all};

verus! {

broadcast use vstd::utf8::group_utf8_lib;

/// Bytes of chunk content gathered into one generation prompt.
pub const BATCH_CHARS: usize = 12000;

/// Bytes of a project's wiki text given to the global wiki.
pub const MAX_CHARS_PER_PROJECT: usize = 4000;

/// The UTF-8 length of a text.
pub open spec fn blen(s: Seq<char>) -> int {
    encode_utf8(s).len() as int
}

/// What separates chunks inside a batch.
pub open spec fn batch_sep() -> Seq<char> {
    "\n\n---\n\n"@
}

proof fn lemma_batch_sep_len()
    ensures
        blen(batch_sep()) == 7,
{
    reveal_strlit("\n\n---\n\n");
    reveal_with_fuel(encode_utf8, 8);
    let s = batch_sep();
    assert(s.len() == 7);
    assert(encode_utf8(s.drop_first().drop_first().drop_first().drop_first().drop_first().drop_first().drop_first()) =~= Seq::<u8>::empty());
}

/// Wiki generation needs an AI provider.
pub fn ensure_ai_available(tier: AiTier) -> (r: Result<(), KnowlixError>)
    ensures
        tier != AiTier::Disabled ==> r is Ok,
        tier == AiTier::Disabled ==> (r matches Err(e) && e is AiNotConfigured),
{
    match tier {
        AiTier::Disabled => Err(KnowlixError::AiNotConfigured),
        _ => Ok(()),
    }
}

/// The entries that have been indexed, in order.
pub open spec fn indexed_only(fs: Seq<FileEntry>) -> Seq<FileEntry>
    decreases fs.len(),
{
    if fs.len() == 0 {
        Seq::empty()
    } else {
        let p = indexed_only(fs.drop_last());
        if fs.last().indexed {
            p.push(fs.last())
        } else {
            p
        }
    }
}

/// The files a project wiki is built from: those that have been indexed.
pub fn indexed_files(files: Vec<FileEntry>) -> (r: Vec<FileEntry>)
    ensures
        r@ == indexed_only(files@),
{
    let ghost input = files@;
    let total = files.len();
    let mut rest = files;
    let mut out: Vec<FileEntry> = Vec::new();
    let mut taken: usize = 0;
    while rest.len() > 0
        invariant
            taken + rest@.len() == input.len(),
            input.len() == total,
            rest@ == input.skip(taken as int),
            out@ == indexed_only(input.take(taken as int)),
        decreases rest@.len(),
    {
        let f = rest.remove(0);
        proof {
            assert(input.take(taken + 1).drop_last() =~= input.take(taken as int));
            assert(input.take(taken + 1).last() == f);
            assert(rest@ =~= input.skip(taken + 1));
        }
        if f.indexed {
            out.push(f);
        }
        taken = taken + 1;
    }
    proof {
        assert(input.take(taken as int) =~= input);
    }
    out
}

/// All chunk contents, one after the other.
pub open spec fn concat_contents(cs: Seq<Chunk>) -> Seq<char>
    decreases cs.len(),
{
    if cs.len() == 0 {
        Seq::empty()
    } else {
        concat_contents(cs.drop_last()) + cs.last().content@
    }
}

fn append_contents(cs: &Vec<Chunk>) -> (r: Vec<char>)
    ensures
        r@ == concat_contents(cs@),
{
    let mut out: Vec<char> = Vec::new();
    let mut i: usize = 0;
    while i < cs.len()
        invariant
            i <= cs@.len(),
            out@ == concat_contents(cs@.take(i as int)),
        decreases cs@.len() - i,
    {
        proof {
            assert(cs@.take(i + 1).drop_last() =~= cs@.take(i as int));
            assert(cs@.take(i + 1).last() == cs@[i as int]);
        }
        push_all(&mut out, &chars_of(cs[i].content.as_str()));
        i = i + 1;
    }
    proof {
        assert(cs@.take(i as int) =~= cs@);
    }
    out
}

/// The hash that marks which content a project wiki was built from: SHA-256
/// of all chunk contents, in lowercase hex. A project without indexed
/// content has no wiki to build.
pub fn project_content_hash(chunks: &Vec<Chunk>) -> (r: Result<String, KnowlixError>)
    ensures
        chunks@.len() == 0 ==> (r matches Err(KnowlixError::Ai(m)) && m@
            == "No indexed content found for this project. Index the project first."@),
        chunks@.len() > 0 ==> (r matches Ok(h) && h@ == hex_lower(
            spec_sha256(encode_utf8(concat_contents(chunks@))),
        )),
{
    if chunks.len() == 0 {
        return Err(
            KnowlixError::Ai(
                String::from_str(
                    "No indexed content found for this project. Index the project first.",
                ),
            ),
        );
    }
    let all = append_contents(chunks);
    let s = string_from_chars(all.as_slice());
    Ok(text_hash(s.as_str()))
}

/// Whether the page was built from content with the given hash.
pub open spec fn page_has_hash(p: WikiPage, hash: Seq<char>) -> bool {
    exists|k: int| 0 <= k < p.source_hashes@.len() && (#[trigger] p.source_hashes@[k])@ == hash
}

/// Whether some page was built from content with the given hash.
pub open spec fn spec_is_current(pages: Seq<WikiPage>, hash: Seq<char>) -> bool {
    exists|i: int| 0 <= i < pages.len() && page_has_hash(#[trigger] pages[i], hash)
}

fn page_has_hash_exec(p: &WikiPage, hash: &str) -> (r: bool)
    ensures
        r == page_has_hash(*p, hash@),
{
    let mut k: usize = 0;
    while k < p.source_hashes.len()
        invariant
            k <= p.source_hashes@.len(),
            forall|q: int| 0 <= q < k ==> (#[trigger] p.source_hashes@[q])@ != hash@,
        decreases p.source_hashes@.len() - k,
    {
        if str_eq(p.source_hashes[k].as_str(), hash) {
            return true;
        }
        k = k + 1;
    }
    false
}

/// Whether an existing wiki is still current: one of its pages was built
/// from content with this hash.
pub fn wiki_is_current(pages: &Vec<WikiPage>, hash: &str) -> (r: bool)
    ensures
        r == spec_is_current(pages@, hash@),
{
    let mut i: usize = 0;
    while i < pages.len()
        invariant
            i <= pages@.len(),
            forall|q: int| 0 <= q < i ==> !page_has_hash(#[trigger] pages@[q], hash@),
        decreases pages@.len() - i,
    {
        if page_has_hash_exec(&pages[i], hash) {
            return true;
        }
        i = i + 1;
    }
    false
}

/// Whether a wiki is (re)generated: always when forced, otherwise only when
/// no existing page was built from content with this hash.
pub fn needs_generation(force: bool, existing: &Vec<WikiPage>, hash: &str) -> (r: bool)
    ensures
        r == (force || !spec_is_current(existing@, hash@)),
{
    force || !wiki_is_current(existing, hash)
}

/// The contents of the chunks, in order.
pub open spec fn contents(cs: Seq<Chunk>) -> Seq<Seq<char>> {
    cs.map_values(|c: Chunk| c.content@)
}

/// The batches finished so far and the one being filled, after the given
/// contents. A content starts a new batch when the current one is not empty
/// and their byte lengths together pass `BATCH_CHARS`; inside a batch the
/// contents are separated by `batch_sep`.
pub open spec fn batch_state(cs: Seq<Seq<char>>) -> (Seq<Seq<char>>, Seq<char>)
    decreases cs.len(),
{
    if cs.len() == 0 {
        (Seq::empty(), Seq::empty())
    } else {
        let (bs, cur) = batch_state(cs.drop_last());
        let c = cs.last();
        let flush = cur.len() > 0 && blen(cur) + blen(c) > BATCH_CHARS;
        let bs2 = if flush {
            bs.push(cur)
        } else {
            bs
        };
        let cur2: Seq<char> = if flush {
            Seq::empty()
        } else {
            cur
        };
        let cur3 = if cur2.len() > 0 {
            cur2 + batch_sep()
        } else {
            cur2
        };
        (bs2, cur3 + c)
    }
}

/// The batches of the given contents (see `batch_state`); a last batch is
/// kept when it is not empty.
pub open spec fn batches_of(cs: Seq<Seq<char>>) -> Seq<Seq<char>> {
    let (bs, cur) = batch_state(cs);
    if cur.len() > 0 {
        bs.push(cur)
    } else {
        bs
    }
}

/// The chunk contents grouped into batches for the generation prompts.
pub fn batch_chunks(chunks: &Vec<Chunk>) -> (r: Vec<String>)
    ensures
        r.deep_view() == batches_of(contents(chunks@)),
{
    let ghost cs = contents(chunks@);
    let sep = chars_of("\n\n---\n\n");
    let sep_len = "\n\n---\n\n".as_bytes().len();
    proof {
        lemma_batch_sep_len();
    }
    let mut batches: Vec<String> = Vec::new();
    let mut cur: Vec<char> = Vec::new();
    let mut cur_len: usize = 0;
    let mut i: usize = 0;
    proof {
        assert(batches.deep_view() =~= Seq::<Seq<char>>::empty());
        assert(cs.take(0) =~= Seq::<Seq<char>>::empty());
    }
    while i < chunks.len()
        invariant
            cs == contents(chunks@),
            i <= chunks@.len(),
            sep@ == batch_sep(),
            sep_len == blen(batch_sep()),
            sep_len == 7,
            (batches.deep_view(), cur@) == batch_state(cs.take(i as int)),
            cur_len == blen(cur@),
        decreases chunks@.len() - i,
    {
        let content = chunks[i].content.as_str();
        let c = chars_of(content);
        let c_len = content.as_bytes().len();
        proof {
            assert(cs.take(i + 1).drop_last() =~= cs.take(i as int));
            assert(cs.take(i + 1).last() == c@);
            if cur@.len() == 0 {
                assert(cur@ =~= Seq::<char>::empty());
            }
        }
        let ghost before = batches.deep_view();
        if cur.len() > 0 && (c_len > BATCH_CHARS || cur_len > BATCH_CHARS - c_len) {
            batches.push(string_from_chars(cur.as_slice()));
            proof {
                assert(batches.deep_view() =~= before.push(cur@));
            }
            cur = Vec::new();
            cur_len = 0;
        }
        let ghost mid = cur@;
        proof {
            if cur@.len() > 0 {
                assert(c_len <= BATCH_CHARS && cur_len + c_len <= BATCH_CHARS);
            } else {
                assert(cur@ =~= Seq::<char>::empty());
                assert(cur_len == 0);
            }
        }
        if cur.len() > 0 {
            push_all(&mut cur, &sep);
            proof {
                lemma_encode_concat(mid, batch_sep());
            }
            cur_len = cur_len + sep_len;
        }
        let ghost mid2 = cur@;
        push_all(&mut cur, &c);
        proof {
            lemma_encode_concat(mid2, c@);
            if mid.len() == 0 {
                assert(mid =~= Seq::<char>::empty());
            }
        }
        cur_len = cur_len + c_len;
        i = i + 1;
    }
    proof {
        assert(cs.take(i as int) =~= cs);
    }
    if cur.len() > 0 {
        let ghost before = batches.deep_view();
        batches.push(string_from_chars(cur.as_slice()));
        proof {
            assert(batches.deep_view() =~= before.push(cur@));
        }
    }
    batches
}

proof fn lemma_join_extend(bs: Seq<Seq<char>>, x: Seq<char>, c: Seq<char>, sep: Seq<char>)
    ensures
        join_with(bs.push(x + sep + c), sep) == join_with(bs.push(x), sep) + sep + c,
{
    let a = bs.push(x + sep + c);
    let b = bs.push(x);
    assert(a.drop_last() =~= bs);
    assert(b.drop_last() =~= bs);
    if bs.len() == 0 {
        assert(a[0] == x + sep + c);
        assert(b[0] == x);
    } else {
        assert(join_with(bs, sep) + sep + (x + sep + c) =~= join_with(bs, sep) + sep + x + sep + c);
    }
}

proof fn lemma_batch_state_cover(cs: Seq<Seq<char>>)
    requires
        cs.len() > 0,
        forall|i: int| 0 <= i < cs.len() ==> (#[trigger] cs[i]).len() > 0,
    ensures
        batch_state(cs).1.len() > 0,
        join_with(batch_state(cs).0.push(batch_state(cs).1), batch_sep()) == join_with(
            cs,
            batch_sep(),
        ),
    decreases cs.len(),
{
    let t = cs.drop_last();
    let c = cs.last();
    assert(c == cs[cs.len() - 1]);
    if t.len() == 0 {
        let cur = batch_state(cs).1;
        assert(batch_state(t) == (Seq::<Seq<char>>::empty(), Seq::<char>::empty()));
        assert(cur =~= c);
        assert(batch_state(cs).0 =~= Seq::<Seq<char>>::empty());
        assert(batch_state(cs).0.push(cur) =~= seq![c]);
        assert(cs =~= seq![c]);
    } else {
        assert forall|i: int| 0 <= i < t.len() implies (#[trigger] t[i]).len() > 0 by {
            assert(t[i] == cs[i]);
        }
        lemma_batch_state_cover(t);
        let (bs, cur) = batch_state(t);
        assert(join_with(cs, batch_sep()) == join_with(t, batch_sep()) + batch_sep() + c);
        if blen(cur) + blen(c) > BATCH_CHARS {
            let nb = bs.push(cur);
            assert(batch_state(cs).1 =~= c);
            assert(nb.push(c).drop_last() =~= nb);
        } else {
            assert(batch_state(cs).1 == cur + batch_sep() + c);
            lemma_join_extend(bs, cur, c, batch_sep());
        }
    }
}

/// Batching keeps all content in order: when no chunk is empty, the batches
/// joined by the separator give back every chunk joined by it.
pub proof fn lemma_batches_cover(cs: Seq<Seq<char>>)
    requires
        forall|i: int| 0 <= i < cs.len() ==> (#[trigger] cs[i]).len() > 0,
    ensures
        join_with(batches_of(cs), batch_sep()) == join_with(cs, batch_sep()),
        cs.len() > 0 ==> batches_of(cs).len() > 0,
{
    if cs.len() > 0 {
        lemma_batch_state_cover(cs);
    } else {
        assert(batches_of(cs) =~= Seq::<Seq<char>>::empty());
    }
}

proof fn lemma_blen_concat(a: Seq<char>, b: Seq<char>)
    ensures
        blen(a + b) == blen(a) + blen(b),
{
    lemma_encode_concat(a, b);
}

/// What holds of the finished batches and the one being filled.
proof fn lemma_batch_state_bounds(cs: Seq<Seq<char>>)
    ensures
        ({
            let (bs, cur) = batch_state(cs);
            &&& forall|k: int|
                0 <= k < bs.len() ==> blen(#[trigger] bs[k]) <= BATCH_CHARS + blen(batch_sep())
                    || cs.contains(bs[k])
            &&& blen(cur) <= BATCH_CHARS + blen(batch_sep()) || cs.contains(cur)
            &&& forall|k: int|
                0 <= k < bs.len() - 1 ==> blen(#[trigger] bs[k]) + blen(bs[k + 1]) > BATCH_CHARS
            &&& bs.len() > 0 ==> blen(bs.last()) + blen(cur) > BATCH_CHARS
        }),
    decreases cs.len(),
{
    lemma_batch_sep_len();
    if cs.len() > 0 {
        let t = cs.drop_last();
        let c = cs.last();
        lemma_batch_state_bounds(t);
        let (bs, cur) = batch_state(t);
        assert(cs == t.push(c));
        assert(cs.contains(c)) by {
            assert(cs[cs.len() - 1] == c);
        }
        assert forall|x: Seq<char>| t.contains(x) implies cs.contains(x) by {
            let k = choose|k: int| 0 <= k < t.len() && t[k] == x;
            assert(cs[k] == x);
        }
        let flush = cur.len() > 0 && blen(cur) + blen(c) > BATCH_CHARS;
        let (bs2, cur2) = batch_state(cs);
        if flush {
            assert(bs2 == bs.push(cur));
            assert(cur2 =~= c);
            assert forall|k: int| 0 <= k < bs2.len() - 1 implies blen(#[trigger] bs2[k]) + blen(bs2[k + 1])
                > BATCH_CHARS by {
                if k < bs.len() - 1 {
                    assert(bs2[k] == bs[k] && bs2[k + 1] == bs[k + 1]);
                } else {
                    assert(bs2[k] == bs.last() && bs2[k + 1] == cur);
                }
            }
            assert forall|k: int| 0 <= k < bs2.len() implies blen(#[trigger] bs2[k]) <= BATCH_CHARS
                + blen(batch_sep()) || cs.contains(bs2[k]) by {
                if k < bs.len() {
                    assert(bs2[k] == bs[k]);
                }
            }
        } else {
            assert(bs2 == bs);
            if cur.len() > 0 {
                assert(cur2 == cur + batch_sep() + c);
                lemma_blen_concat(cur, batch_sep());
                lemma_blen_concat(cur + batch_sep(), c);
            } else {
                assert(cur2 =~= c);
                assert(blen(cur) == 0);
            }
        }
    }
}

/// Batches keep to the limit. A batch longer than `BATCH_CHARS` and one
/// separator is the content of a single chunk (one too long to share a
/// batch): a chunk joins a batch only when together they stay within
/// `BATCH_CHARS`. And a batch is closed only when the next chunk would take
/// it past `BATCH_CHARS`, so any two neighbouring batches together pass it.
pub proof fn lemma_batches_bounded(cs: Seq<Seq<char>>)
    ensures
        forall|k: int|
            0 <= k < batches_of(cs).len() ==> blen(#[trigger] batches_of(cs)[k]) <= BATCH_CHARS
                + blen(batch_sep()) || cs.contains(batches_of(cs)[k]),
        forall|k: int|
            0 <= k < batches_of(cs).len() - 1 ==> blen(#[trigger] batches_of(cs)[k]) + blen(
                batches_of(cs)[k + 1],
            ) > BATCH_CHARS,
        blen(batch_sep()) == 7,
{
    lemma_batch_sep_len();
    lemma_batch_state_bounds(cs);
    let (bs, cur) = batch_state(cs);
    let out = batches_of(cs);
    if cur.len() > 0 {
        assert(out == bs.push(cur));
        assert forall|k: int| 0 <= k < out.len() - 1 implies blen(#[trigger] out[k]) + blen(out[k + 1])
            > BATCH_CHARS by {
            if k < bs.len() - 1 {
                assert(out[k] == bs[k] && out[k + 1] == bs[k + 1]);
            } else {
                assert(out[k] == bs.last() && out[k + 1] == cur);
            }
        }
        assert forall|k: int| 0 <= k < out.len() implies blen(#[trigger] out[k]) <= BATCH_CHARS
            + blen(batch_sep()) || cs.contains(out[k]) by {
            if k < bs.len() {
                assert(out[k] == bs[k]);
            }
        }
    } else {
        assert(out == bs);
    }
}

/// The prompt that turns one batch of source excerpts into a wiki page.
pub open spec fn spec_project_wiki_prompt(batch: Seq<char>) -> Seq<char> {
    "You are a technical documentation writer. Based on these source file excerpts, write a wiki page in markdown.\n\nSources:\n"@
        + batch
        + "\n\nWrite with # Title, Overview, Key Concepts sections. Start with # Title."@
}

pub fn project_wiki_prompt(batch: &str) -> (r: String)
    ensures
        r@ == spec_project_wiki_prompt(batch@),
{
    let mut s = String::from_str(
        "You are a technical documentation writer. Based on these source file excerpts, write a wiki page in markdown.\n\nSources:\n",
    );
    s.append(batch);
    s.append("\n\nWrite with # Title, Overview, Key Concepts sections. Start with # Title.");
    s
}

/// The text before the first newline.
pub open spec fn first_line(s: Seq<char>) -> Seq<char>
    decreases s.len(),
{
    if s.len() == 0 || s[0] == '\n' {
        Seq::empty()
    } else {
        seq![s[0]] + first_line(s.drop_first())
    }
}

/// The text without its leading `#` characters.
pub open spec fn trim_hashes(s: Seq<char>) -> Seq<char>
    decreases s.len(),
{
    if s.len() > 0 && s[0] == '#' {
        trim_hashes(s.drop_first())
    } else {
        s
    }
}

/// The title of a generated page: its first line without leading `#` and
/// surrounding whitespace, or the fallback when that leaves nothing.
pub open spec fn spec_page_title(content: Seq<char>, fallback: Seq<char>) -> Seq<char> {
    let t = trim(trim_hashes(first_line(content)));
    if t.len() > 0 {
        t
    } else {
        fallback
    }
}

pub fn page_title(content: &str, fallback: String) -> (r: String)
    ensures
        r@ == spec_page_title(content@, fallback@),
{
    let v = chars_of(content);
    let mut k: usize = 0;
    proof {
        assert(v@.skip(0) =~= v@);
        assert(v@.take(0) + first_line(v@.skip(0)) =~= first_line(v@));
    }
    while k < v.len() && v[k] != '\n'
        invariant
            k <= v@.len(),
            v@ == content@,
            first_line(v@) == v@.take(k as int) + first_line(v@.skip(k as int)),
        decreases v@.len() - k,
    {
        proof {
            let s = v@.skip(k as int);
            assert(s[0] == v@[k as int]);
            assert(s.drop_first() =~= v@.skip(k + 1));
            assert(v@.take(k as int) + (seq![v@[k as int]] + first_line(v@.skip(k + 1)))
                =~= v@.take(k + 1) + first_line(v@.skip(k + 1)));
        }
        k = k + 1;
    }
    proof {
        let s = v@.skip(k as int);
        if k < v.len() {
            assert(s[0] == v@[k as int]);
        }
        assert(first_line(s) =~= Seq::<char>::empty());
        assert(first_line(v@) =~= v@.subrange(0, k as int));
    }
    let mut j: usize = 0;
    while j < k && v[j] == '#'
        invariant
            j <= k <= v@.len(),
            trim_hashes(v@.subrange(0, k as int)) == trim_hashes(v@.subrange(j as int, k as int)),
        decreases k - j,
    {
        proof {
            let s = v@.subrange(j as int, k as int);
            assert(s[0] == v@[j as int]);
            assert(s.drop_first() =~= v@.subrange(j + 1, k as int));
        }
        j = j + 1;
    }
    proof {
        let s = v@.subrange(j as int, k as int);
        if j < k {
            assert(s[0] == v@[j as int]);
        }
        assert(trim_hashes(s) == s);
    }
    let (a, b) = trim_range(&v, j, k);
    if b > a {
        string_of_range(&v, a, b)
    } else {
        fallback
    }
}

/// The title of the page of batch `i` when its text gives none.
pub fn page_fallback_title(i: usize) -> (r: String)
    requires
        i < usize::MAX,
    ensures
        r@ == "Wiki Page "@ + decimal((i + 1) as nat),
{
    let mut s = String::from_str("Wiki Page ");
    let n = decimal_string(i + 1);
    s.append(n.as_str());
    s
}

/// The title of the global page when its text gives none.
pub fn global_fallback_title() -> (r: String)
    ensures
        r@ == "Global Knowledge Base"@,
{
    String::from_str("Global Knowledge Base")
}

/// The fixed id of the global wiki page, so that saving it replaces the
/// previous one.
pub fn global_wiki_id() -> (r: String)
    ensures
        r@ == "global-wiki-1"@,
{
    String::from_str("global-wiki-1")
}

/// A freshly generated page: no tags, built from the content with the
/// given hash, created and updated now.
pub fn new_wiki_page(
    id: String,
    project_id: Option<String>,
    title: String,
    content: String,
    content_hash: String,
    now: Timestamp,
) -> (p: WikiPage)
    ensures
        p.id == id,
        p.project_id == project_id,
        p.title == title,
        p.content == content,
        p.tags@.len() == 0,
        p.source_hashes@ == seq![content_hash],
        p.created_at == now,
        p.updated_at == now,
{
    let mut hashes: Vec<String> = Vec::new();
    hashes.push(content_hash);
    WikiPage {
        id,
        project_id,
        title,
        content,
        tags: Vec::new(),
        source_hashes: hashes,
        created_at: now,
        updated_at: now,
    }
}

/// A wiki is current right after it was generated: once a page built from
/// content with some hash is among the pages, checking that hash finds it.
pub proof fn lemma_generated_page_current(pages: Seq<WikiPage>, i: int, hash: String)
    requires
        0 <= i < pages.len(),
        pages[i].source_hashes@ == seq![hash],
    ensures
        spec_is_current(pages, hash@),
{
    assert(pages[i].source_hashes@[0] == hash);
    assert(page_has_hash(pages[i], hash@));
}

/// The stages that wiki generation reports.
pub enum WikiStage {
    Extracting,
    Generating,
    Saving,
}

pub open spec fn stage_name(s: WikiStage) -> Seq<char> {
    match s {
        WikiStage::Extracting => "extracting"@,
        WikiStage::Generating => "generating"@,
        WikiStage::Saving => "saving"@,
    }
}

pub fn wiki_progress(stage: WikiStage, current: usize, total: usize) -> (p: WikiProgress)
    ensures
        p.stage@ == stage_name(stage),
        p.current == current,
        p.total == total,
{
    let name = match stage {
        WikiStage::Extracting => String::from_str("extracting"),
        WikiStage::Generating => String::from_str("generating"),
        WikiStage::Saving => String::from_str("saving"),
    };
    WikiProgress { stage: name, current, total }
}

/// The page made for batch `i` of a project wiki run: a fresh id, the
/// project, the title read from its content (or `Wiki Page i+1`), no tags,
/// the content hash as its one source hash, created and updated at once.
pub open spec fn is_batch_page(p: WikiPage, project_id: Seq<char>, hash: Seq<char>, i: int) -> bool {
    &&& p.id@.len() == 36
    &&& p.project_id matches Some(pid) && pid@ == project_id
    &&& p.title@ == spec_page_title(p.content@, "Wiki Page "@ + decimal((i + 1) as nat))
    &&& p.tags@.len() == 0
    &&& p.source_hashes@.len() == 1
    &&& p.source_hashes@[0]@ == hash
    &&& p.created_at == p.updated_at
}

/// What a project wiki run asks for next.
pub enum WikiAction {
    /// Report `progress`, ask the model with `prompt`, and hand its reply to
    /// `on_reply`.
    Generate { prompt: String, progress: WikiProgress },
    /// Every batch has its page: report `progress` and stop.
    Finish { progress: WikiProgress },
}

/// The generation of a project's wiki pages from its batches of content,
/// one model call and one page per batch, in batch order. `pages` holds the
/// pages made so far.
pub struct ProjectWikiRun {
    pub project_id: String,
    pub content_hash: String,
    pub batches: Vec<String>,
    pub done: usize,
    pub pages: Ghost<Seq<WikiPage>>,
}

impl ProjectWikiRun {
    /// The batches before `done` have their pages, in batch order.
    pub open spec fn wf(&self) -> bool {
        &&& self.done <= self.batches@.len()
        &&& self.pages@.len() == self.done
        &&& forall|i: int|
            0 <= i < self.done ==> is_batch_page(
                #[trigger] self.pages@[i],
                self.project_id@,
                self.content_hash@,
                i,
            )
    }

    /// A run over the batches of a project's content with the given hash,
    /// no page made yet.
    pub fn new(project_id: String, content_hash: String, batches: Vec<String>) -> (r: Self)
        ensures
            r.wf(),
            r.project_id == project_id,
            r.content_hash == content_hash,
            r.batches@ == batches@,
            r.done == 0,
    {
        ProjectWikiRun { project_id, content_hash, batches, done: 0, pages: Ghost(Seq::empty()) }
    }

    /// The next batch to generate, with progress `generating i/n` counted
    /// from 1; once every batch has its page, progress `saving n/n`.
    pub fn next_action(&self) -> (a: WikiAction)
        requires
            self.wf(),
        ensures
            self.done < self.batches@.len() ==> (a matches WikiAction::Generate { prompt, progress }
                && prompt@ == spec_project_wiki_prompt(self.batches@[self.done as int]@)
                && progress.stage@ == "generating"@ && progress.current == self.done + 1
                && progress.total == self.batches@.len()),
            self.done == self.batches@.len() ==> (a matches WikiAction::Finish { progress }
                && progress.stage@ == "saving"@ && progress.current == self.batches@.len()
                && progress.total == self.batches@.len()),
    {
        let n = self.batches.len();
        if self.done < n {
            let prompt = project_wiki_prompt(self.batches[self.done].as_str());
            WikiAction::Generate { prompt, progress: wiki_progress(WikiStage::Generating, self.done + 1, n) }
        } else {
            WikiAction::Finish { progress: wiki_progress(WikiStage::Saving, n, n) }
        }
    }

    /// The model's reply to the current batch, made at `now`: gives the
    /// batch's page, to be saved, and moves on to the next batch.
    pub fn on_reply(&mut self, reply: String, now: Timestamp) -> (page: WikiPage)
        requires
            old(self).wf(),
            old(self).done < old(self).batches@.len(),
        ensures
            final(self).wf(),
            final(self).project_id == old(self).project_id,
            final(self).content_hash == old(self).content_hash,
            final(self).batches@ == old(self).batches@,
            final(self).done == old(self).done + 1,
            final(self).pages@ == old(self).pages@.push(page),
            page.content == reply,
            page.created_at == now,
            is_batch_page(page, old(self).project_id@, old(self).content_hash@, old(self).done as int),
    {
        let n = self.batches.len();
        assert(self.done < n);
        let title = page_title(reply.as_str(), page_fallback_title(self.done));
        let page = new_wiki_page(
            new_id(),
            Some(self.project_id.clone()),
            title,
            reply,
            self.content_hash.clone(),
            now,
        );
        proof {
            assert(page.source_hashes@[0] == self.content_hash);
        }
        let ghost before = self.pages@;
        self.pages = Ghost(before.push(page));
        self.done = self.done + 1;
        proof {
            assert forall|i: int| 0 <= i < self.done implies is_batch_page(
                #[trigger] self.pages@[i],
                self.project_id@,
                self.content_hash@,
                i,
            ) by {
                if i < before.len() {
                    assert(self.pages@[i] == before[i]);
                }
            }
        }
        page
    }
}

/// A project wiki run ends with one page per batch, page `i` made for batch
/// `i`: when it asks to finish, every batch has had its one model call.
pub proof fn lemma_wiki_run_complete(run: ProjectWikiRun)
    requires
        run.wf(),
        run.done == run.batches@.len(),
    ensures
        run.pages@.len() == run.batches@.len(),
        forall|i: int|
            0 <= i < run.batches@.len() ==> is_batch_page(
                #[trigger] run.pages@[i],
                run.project_id@,
                run.content_hash@,
                i,
            ),
{
}

/// A project's name with its wiki pages.
pub struct ProjectWikis {
    pub name: String,
    pub pages: Vec<WikiPage>,
}

/// Adds a project to the sources of the global wiki when it has pages.
pub fn add_project_wikis(list: &mut Vec<ProjectWikis>, name: String, pages: Vec<WikiPage>)
    ensures
        pages@.len() == 0 ==> final(list)@ == old(list)@,
        pages@.len() > 0 ==> final(list)@ == old(list)@.push(ProjectWikis { name, pages }),
{
    if pages.len() > 0 {
        list.push(ProjectWikis { name, pages });
    }
}

/// All page contents, one after the other.
pub open spec fn concat_pages(ps: Seq<WikiPage>) -> Seq<char>
    decreases ps.len(),
{
    if ps.len() == 0 {
        Seq::empty()
    } else {
        concat_pages(ps.drop_last()) + ps.last().content@
    }
}

/// All page contents of all projects, in order.
pub open spec fn concat_wikis(ws: Seq<ProjectWikis>) -> Seq<char>
    decreases ws.len(),
{
    if ws.len() == 0 {
        Seq::empty()
    } else {
        concat_wikis(ws.drop_last()) + concat_pages(ws.last().pages@)
    }
}

fn append_pages(out: &mut Vec<char>, ps: &Vec<WikiPage>)
    ensures
        final(out)@ == old(out)@ + concat_pages(ps@),
{
    let mut i: usize = 0;
    while i < ps.len()
        invariant
            i <= ps@.len(),
            out@ == old(out)@ + concat_pages(ps@.take(i as int)),
        decreases ps@.len() - i,
    {
        proof {
            assert(ps@.take(i + 1).drop_last() =~= ps@.take(i as int));
            assert(ps@.take(i + 1).last() == ps@[i as int]);
        }
        push_all(out, &chars_of(ps[i].content.as_str()));
        i = i + 1;
    }
    proof {
        assert(ps@.take(i as int) =~= ps@);
    }
}

/// The hash that marks which project wikis the global wiki was built from:
/// SHA-256 of all their page contents, in lowercase hex. Without any project
/// wiki there is nothing to build from.
pub fn global_content_hash(wikis: &Vec<ProjectWikis>) -> (r: Result<String, KnowlixError>)
    ensures
        wikis@.len() == 0 ==> (r matches Err(KnowlixError::Ai(m)) && m@
            == "No project wikis found. Generate project wikis first."@),
        wikis@.len() > 0 ==> (r matches Ok(h) && h@ == hex_lower(
            spec_sha256(encode_utf8(concat_wikis(wikis@))),
        )),
{
    if wikis.len() == 0 {
        return Err(
            KnowlixError::Ai(String::from_str("No project wikis found. Generate project wikis first.")),
        );
    }
    let mut out: Vec<char> = Vec::new();
    let mut i: usize = 0;
    while i < wikis.len()
        invariant
            i <= wikis@.len(),
            out@ == concat_wikis(wikis@.take(i as int)),
        decreases wikis@.len() - i,
    {
        proof {
            assert(wikis@.take(i + 1).drop_last() =~= wikis@.take(i as int));
            assert(wikis@.take(i + 1).last() == wikis@[i as int]);
        }
        append_pages(&mut out, &wikis[i].pages);
        i = i + 1;
    }
    proof {
        assert(wikis@.take(i as int) =~= wikis@);
    }
    let s = string_from_chars(out.as_slice());
    Ok(text_hash(s.as_str()))
}

/// A page as it appears in the global context.
pub open spec fn page_block(p: WikiPage) -> Seq<char> {
    "## "@ + p.title@ + "\n"@ + p.content@
}

/// A project's pages as one text, separated by blank lines.
pub open spec fn pages_text(ps: Seq<WikiPage>) -> Seq<char> {
    join_with(Seq::new(ps.len(), |i: int| page_block(ps[i])), "\n\n"@)
}

/// The text cut to its longest prefix of at most `MAX_CHARS_PER_PROJECT`
/// bytes that ends on a character boundary, marked with `…`; a shorter text
/// is kept whole.
pub open spec fn truncate_section(s: Seq<char>) -> Seq<char> {
    let b = encode_utf8(s);
    if b.len() <= MAX_CHARS_PER_PROJECT {
        s
    } else {
        decode_utf8(b.subrange(0, floor_boundary(b, 0, MAX_CHARS_PER_PROJECT as int))).push(
            '\u{2026}',
        )
    }
}

/// A project's part of the global context.
pub open spec fn project_section(name: Seq<char>, ps: Seq<WikiPage>) -> Seq<char> {
    "# Project: "@ + name + "\n"@ + truncate_section(pages_text(ps))
}

/// A project's section is its heading line, then all its page blocks
/// (`## title`, newline, content) joined by blank lines when that text fits
/// in `MAX_CHARS_PER_PROJECT` bytes; otherwise the longest prefix of that
/// text that fits, cut between characters, followed by `…`.
pub proof fn lemma_project_section(name: Seq<char>, ps: Seq<WikiPage>)
    ensures
        ({
            let head = "# Project: "@ + name + "\n"@;
            let full = join_with(
                Seq::new(ps.len(), |i: int| "## "@ + ps[i].title@ + "\n"@ + ps[i].content@),
                "\n\n"@,
            );
            let sec = project_section(name, ps);
            let body = sec.skip(head.len() as int);
            &&& sec.take(head.len() as int) == head
            &&& blen(full) <= MAX_CHARS_PER_PROJECT ==> body == full
            &&& blen(full) > MAX_CHARS_PER_PROJECT ==> {
                &&& body.len() > 0
                &&& body.last() == '\u{2026}'
                &&& body.drop_last() == full.take(body.len() - 1)
                &&& MAX_CHARS_PER_PROJECT - 3 <= blen(body.drop_last()) <= MAX_CHARS_PER_PROJECT
            }
        }),
{
    let head = "# Project: "@ + name + "\n"@;
    let full = join_with(
        Seq::new(ps.len(), |i: int| "## "@ + ps[i].title@ + "\n"@ + ps[i].content@),
        "\n\n"@,
    );
    assert(Seq::new(ps.len(), |i: int| page_block(ps[i])) =~= Seq::new(
        ps.len(),
        |i: int| "## "@ + ps[i].title@ + "\n"@ + ps[i].content@,
    ));
    assert(pages_text(ps) == full);
    let t = truncate_section(full);
    let sec = project_section(name, ps);
    assert(sec == head + t);
    assert(sec.take(head.len() as int) =~= head);
    assert(sec.skip(head.len() as int) =~= t);
    let b = encode_utf8(full);
    let m = MAX_CHARS_PER_PROJECT as int;
    if b.len() > m {
        assert(is_char_boundary(b, 0));
        lemma_floor_boundary(b, 0, m);
        let cut = floor_boundary(b, 0, m);
        lemma_boundary_near(b, m - 3);
        let k = choose|k: int| m - 3 <= k <= m - 3 + 3 && k <= b.len() && is_char_boundary(b, k);
        assert(k <= cut);
        let lo = b.subrange(0, cut);
        let hi = b.subrange(cut, b.len() as int);
        vstd::utf8::valid_utf8_split(b, cut);
        vstd::utf8::decode_utf8_split(b, cut);
        let p = decode_utf8(lo);
        assert(full == p + decode_utf8(hi));
        assert(full.take(p.len() as int) =~= p);
        assert(encode_utf8(p) == lo);
        assert(t == p.push('\u{2026}'));
        assert(t.drop_last() =~= p);
    }
}

/// The context of the global wiki: each project's section, separated by
/// horizontal rules.
pub open spec fn spec_global_context(ws: Seq<ProjectWikis>) -> Seq<char> {
    join_with(
        Seq::new(ws.len(), |i: int| project_section(ws[i].name@, ws[i].pages@)),
        batch_sep(),
    )
}

fn pages_text_chars(ps: &Vec<WikiPage>) -> (r: Vec<char>)
    ensures
        r@ == pages_text(ps@),
{
    let ghost blocks = Seq::new(ps@.len(), |i: int| page_block(ps@[i]));
    let sep = chars_of("\n\n");
    let mut out: Vec<char> = Vec::new();
    let mut i: usize = 0;
    proof {
        assert(blocks.take(0) =~= Seq::<Seq<char>>::empty());
    }
    while i < ps.len()
        invariant
            i <= ps@.len(),
            blocks == Seq::new(ps@.len(), |i: int| page_block(ps@[i])),
            sep@ == "\n\n"@,
            out@ == join_with(blocks.take(i as int), "\n\n"@),
        decreases ps@.len() - i,
    {
        let ghost before = out@;
        if i > 0 {
            push_all(&mut out, &sep);
        }
        push_all(&mut out, &chars_of("## "));
        push_all(&mut out, &chars_of(ps[i].title.as_str()));
        push_all(&mut out, &chars_of("\n"));
        push_all(&mut out, &chars_of(ps[i].content.as_str()));
        proof {
            let parts = blocks.take(i + 1);
            assert(parts.drop_last() =~= blocks.take(i as int));
            assert(parts.last() == page_block(ps@[i as int]));
            if i > 0 {
                assert(out@ =~= before + "\n\n"@ + page_block(ps@[i as int]));
            } else {
                assert(out@ =~= page_block(ps@[i as int]));
            }
        }
        i = i + 1;
    }
    proof {
        assert(blocks.take(i as int) =~= blocks);
    }
    out
}

/// A project's part of the global context: a heading with its name, then
/// its pages, cut to `MAX_CHARS_PER_PROJECT` bytes (see `truncate_section`).
pub fn project_section_text(name: &str, pages: &Vec<WikiPage>) -> (r: String)
    ensures
        r@ == project_section(name@, pages@),
{
    let text = string_from_chars(pages_text_chars(pages).as_slice());
    let t = text.as_str();
    let n = t.as_bytes().len();
    let mut body: Vec<char>;
    if n <= MAX_CHARS_PER_PROJECT {
        body = chars_of(t);
    } else {
        let ghost b = t.spec_bytes();
        let mut end: usize = MAX_CHARS_PER_PROJECT;
        while end > 0 && !t.is_char_boundary(end)
            invariant
                end <= MAX_CHARS_PER_PROJECT < b.len(),
                b == t.spec_bytes(),
                floor_boundary(b, 0, MAX_CHARS_PER_PROJECT as int) == floor_boundary(
                    b,
                    0,
                    end as int,
                ),
            decreases end,
        {
            end = end - 1;
        }
        proof {
            assert(floor_boundary(b, 0, end as int) == end);
        }
        let (left, _) = t.split_at(end);
        proof {
            assert(left.spec_bytes() =~= b.subrange(0, end as int));
            assert(left@ == decode_utf8(left.spec_bytes()));
        }
        body = chars_of(left);
        body.push('\u{2026}');
    }
    let mut s = String::from_str("# Project: ");
    s.append(name);
    s.append("\n");
    s.append(string_from_chars(body.as_slice()).as_str());
    s
}

/// The context of the global wiki (see `spec_global_context`).
pub fn global_context(wikis: &Vec<ProjectWikis>) -> (r: String)
    ensures
        r@ == spec_global_context(wikis@),
{
    let ghost parts = Seq::new(wikis@.len(), |i: int| project_section(wikis@[i].name@, wikis@[i].pages@));
    let sep = chars_of("\n\n---\n\n");
    let mut out: Vec<char> = Vec::new();
    let mut i: usize = 0;
    proof {
        assert(parts.take(0) =~= Seq::<Seq<char>>::empty());
    }
    while i < wikis.len()
        invariant
            i <= wikis@.len(),
            parts == Seq::new(wikis@.len(), |i: int| project_section(wikis@[i].name@, wikis@[i].pages@)),
            sep@ == batch_sep(),
            out@ == join_with(parts.take(i as int), batch_sep()),
        decreases wikis@.len() - i,
    {
        let ghost before = out@;
        if i > 0 {
            push_all(&mut out, &sep);
        }
        let section = project_section_text(wikis[i].name.as_str(), &wikis[i].pages);
        push_all(&mut out, &chars_of(section.as_str()));
        proof {
            let p = parts.take(i + 1);
            assert(p.drop_last() =~= parts.take(i as int));
            assert(p.last() == section@);
            if i > 0 {
                assert(out@ =~= before + batch_sep() + section@);
            } else {
                assert(out@ =~= section@);
            }
        }
        i = i + 1;
    }
    proof {
        assert(parts.take(i as int) =~= parts);
    }
    string_from_chars(out.as_slice())
}

/// The prompt that condenses the project wikis into the global one.
pub open spec fn spec_global_wiki_prompt(context: Seq<char>) -> Seq<char> {
    "Synthesize these project wikis into a global overview.\n\n"@ + context
        + "\n\nWrite # Global Knowledge Base, then: Executive Summary, Projects Overview, Cross-Project Patterns. Start with # Global Knowledge Base."@
}

pub fn global_wiki_prompt(context: &str) -> (r: String)
    ensures
        r@ == spec_global_wiki_prompt(context@),
{
    let mut s = String::from_str("Synthesize these project wikis into a global overview.\n\n");
    s.append(context);
    s.append(
        "\n\nWrite # Global Knowledge Base, then: Executive Summary, Projects Overview, Cross-Project Patterns. Start with # Global Knowledge Base.",
    );
    s
}

} // verus!
