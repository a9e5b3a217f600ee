//! Plain text out of office documents: XML markup to text, spreadsheet
//! rows to lines, and the order of slides in a presentation.
use vstd::prelude::*;

use crate::filetypes::ExtractKind;
use crate::text::{chars_of, string_from_chars};

verus! {

/// Every non-overlapping occurrence of `p`, from left to right, replaced
/// by `r` (`str::replace`); an empty `p` matches before every character
/// and at the end.
pub open spec fn replace_all(s: Seq<char>, p: Seq<char>, r: Seq<char>) -> Seq<char>
    decreases s.len(),
{
    if p.len() == 0 {
        if s.len() == 0 {
            r
        } else {
            r + seq![s[0]] + replace_all(s.drop_first(), p, r)
        }
    } else if s.len() < p.len() {
        s
    } else if s.take(p.len() as int) == p {
        r + replace_all(s.skip(p.len() as int), p, r)
    } else {
        seq![s[0]] + replace_all(s.drop_first(), p, r)
    }
}

/// `replace_all` with each pattern in turn.
pub open spec fn replace_each(s: Seq<char>, ps: Seq<Seq<char>>, r: Seq<char>) -> Seq<char>
    decreases ps.len(),
{
    if ps.len() == 0 {
        s
    } else {
        replace_each(replace_all(s, ps[0], r), ps.drop_first(), r)
    }
}

/// The characters outside `<...>` markup; `inside` tells whether the text
/// starts within a tag.
pub open spec fn strip_tags(s: Seq<char>, inside: bool) -> Seq<char>
    decreases s.len(),
{
    if s.len() == 0 {
        s
    } else if s[0] == '<' {
        strip_tags(s.drop_first(), true)
    } else if s[0] == '>' {
        strip_tags(s.drop_first(), false)
    } else if !inside {
        seq![s[0]] + strip_tags(s.drop_first(), inside)
    } else {
        strip_tags(s.drop_first(), inside)
    }
}

/// The five XML entities and `&nbsp;` decoded, one after the other.
pub open spec fn decode_entities(s: Seq<char>) -> Seq<char> {
    replace_all(
        replace_all(
            replace_all(
                replace_all(
                    replace_all(replace_all(s, "&amp;"@, "&"@), "&lt;"@, "<"@),
                    "&gt;"@,
                    ">"@,
                ),
                "&quot;"@,
                "\""@,
            ),
            "&apos;"@,
            "'"@,
        ),
        "&nbsp;"@,
        " "@,
    )
}

/// The text of an XML document: paragraph ends and line breaks become
/// newlines, markup is dropped and entities are decoded.
pub open spec fn spec_xml_to_text(xml: Seq<char>, para_end: Seq<Seq<char>>, breaks: Seq<Seq<char>>) -> Seq<char> {
    decode_entities(strip_tags(replace_each(replace_each(xml, para_end, "\n"@), breaks, "\n"@), false))
}

/// Appends the characters of `src` to `out`.
pub fn push_all(out: &mut Vec<char>, src: &Vec<char>)
    ensures
        final(out)@ == old(out)@ + src@,
{
    let mut i: usize = 0;
    while i < src.len()
        invariant
            i <= src@.len(),
            out@ == old(out)@ + src@.take(i as int),
        decreases src@.len() - i,
    {
        out.push(src[i]);
        i = i + 1;
        proof {
            assert(src@.take(i as int) =~= src@.take(i - 1).push(src@[i - 1]));
        }
    }
    proof {
        assert(src@.take(i as int) =~= src@);
    }
}

fn matches_at(v: &Vec<char>, i: usize, p: &Vec<char>) -> (r: bool)
    requires
        i + p@.len() <= v@.len(),
    ensures
        r == (v@.subrange(i as int, i + p@.len()) == p@),
{
    let mut k: usize = 0;
    let n = v.len();
    while k < p.len()
        invariant
            n == v@.len(),
            i + p@.len() <= v@.len(),
            k <= p@.len(),
            forall|j: int| 0 <= j < k ==> v@[i + j] == p@[j],
        decreases p@.len() - k,
    {
        if v[i + k] != p[k] {
            proof {
                assert(v@.subrange(i as int, i + p@.len())[k as int] != p@[k as int]);
            }
            return false;
        }
        k = k + 1;
    }
    proof {
        assert(v@.subrange(i as int, i + p@.len()) =~= p@);
    }
    true
}

/// `replace_all` on character vectors.
pub fn replace_chars(v: &Vec<char>, p: &Vec<char>, r: &Vec<char>) -> (out: Vec<char>)
    ensures
        out@ == replace_all(v@, p@, r@),
{
    let mut out: Vec<char> = Vec::new();
    let mut i: usize = 0;
    let n = v.len();
    let plen = p.len();
    proof {
        assert(v@.skip(0) =~= v@);
        assert(out@ + replace_all(v@, p@, r@) =~= replace_all(v@, p@, r@));
    }
    if plen == 0 {
        while i < n
            invariant
                n == v@.len(),
                i <= n,
                p@.len() == 0,
                replace_all(v@, p@, r@) == out@ + replace_all(v@.skip(i as int), p@, r@),
            decreases n - i,
        {
            proof {
                let rest = v@.skip(i as int);
                assert(rest.drop_first() =~= v@.skip(i + 1));
                assert(rest[0] == v@[i as int]);
                assert(out@ + replace_all(rest, p@, r@) =~= out@ + r@ + seq![v@[i as int]]
                    + replace_all(v@.skip(i + 1), p@, r@));
            }
            push_all(&mut out, r);
            out.push(v[i]);
            i = i + 1;
        }
        proof {
            assert(v@.skip(i as int) =~= Seq::<char>::empty());
        }
        push_all(&mut out, r);
        return out;
    }
    while i < n
        invariant
            n == v@.len(),
            plen == p@.len(),
            plen > 0,
            i <= n,
            replace_all(v@, p@, r@) == out@ + replace_all(v@.skip(i as int), p@, r@),
        decreases n - i,
    {
        let ghost rest = v@.skip(i as int);
        if n - i >= plen && matches_at(v, i, p) {
            proof {
                assert(rest.take(plen as int) =~= v@.subrange(i as int, i + plen));
                assert(rest.skip(plen as int) =~= v@.skip(i + plen));
                assert(out@ + replace_all(rest, p@, r@) =~= out@ + r@ + replace_all(
                    v@.skip(i + plen),
                    p@,
                    r@,
                ));
            }
            push_all(&mut out, r);
            i = i + plen;
        } else {
            proof {
                assert(rest.drop_first() =~= v@.skip(i + 1));
                assert(rest[0] == v@[i as int]);
                if n - i >= plen {
                    assert(rest.take(plen as int) =~= v@.subrange(i as int, i + plen));
                    assert(out@ + replace_all(rest, p@, r@) =~= out@ + seq![v@[i as int]]
                        + replace_all(v@.skip(i + 1), p@, r@));
                } else {
                    assert(rest.drop_first().len() < plen);
                    assert(replace_all(rest, p@, r@) == rest);
                    assert(replace_all(rest.drop_first(), p@, r@) == rest.drop_first());
                    assert(rest =~= seq![v@[i as int]] + rest.drop_first());
                    assert(out@ + replace_all(rest, p@, r@) =~= out@ + seq![v@[i as int]]
                        + replace_all(v@.skip(i + 1), p@, r@));
                }
            }
            out.push(v[i]);
            i = i + 1;
        }
    }
    proof {
        assert(v@.skip(i as int) =~= Seq::<char>::empty());
    }
    out
}

fn replace_lit(v: &Vec<char>, p: &str, r: &str) -> (out: Vec<char>)
    ensures
        out@ == replace_all(v@, p@, r@),
{
    let pv = chars_of(p);
    let rv = chars_of(r);
    replace_chars(v, &pv, &rv)
}

fn replace_each_chars(v: Vec<char>, ps: &[&str], r: &str) -> (out: Vec<char>)
    ensures
        out@ == replace_each(v@, ps@.map_values(|t: &str| t@), r@),
{
    let ghost all = ps@.map_values(|t: &str| t@);
    let mut cur = v;
    let mut i: usize = 0;
    proof {
        assert(all.skip(0) =~= all);
    }
    while i < ps.len()
        invariant
            i <= ps@.len(),
            all == ps@.map_values(|t: &str| t@),
            replace_each(v@, all, r@) == replace_each(cur@, all.skip(i as int), r@),
        decreases ps@.len() - i,
    {
        proof {
            let rest = all.skip(i as int);
            assert(rest[0] == ps@[i as int]@);
            assert(rest.drop_first() =~= all.skip(i + 1));
        }
        cur = replace_lit(&cur, ps[i], r);
        i = i + 1;
    }
    proof {
        assert(all.skip(i as int) =~= Seq::<Seq<char>>::empty());
    }
    cur
}

fn strip_tag_chars(v: &Vec<char>) -> (out: Vec<char>)
    ensures
        out@ == strip_tags(v@, false),
{
    let mut out: Vec<char> = Vec::new();
    let mut inside = false;
    let mut i: usize = 0;
    proof {
        assert(v@.skip(0) =~= v@);
        assert(out@ + strip_tags(v@, false) =~= strip_tags(v@, false));
    }
    while i < v.len()
        invariant
            i <= v@.len(),
            strip_tags(v@, false) == out@ + strip_tags(v@.skip(i as int), inside),
        decreases v@.len() - i,
    {
        let c = v[i];
        proof {
            let rest = v@.skip(i as int);
            assert(rest.drop_first() =~= v@.skip(i + 1));
            assert(rest[0] == c);
            if c != '<' && c != '>' && !inside {
                assert(out@ + strip_tags(rest, inside) =~= out@.push(c) + strip_tags(
                    v@.skip(i + 1),
                    inside,
                ));
            }
        }
        if c == '<' {
            inside = true;
        } else if c == '>' {
            inside = false;
        } else if !inside {
            out.push(c);
        }
        i = i + 1;
    }
    proof {
        assert(v@.skip(i as int) =~= Seq::<char>::empty());
    }
    out
}

/// The text of an XML document: each paragraph-end tag and each line-break
/// tag becomes a newline, everything between `<` and `>` is dropped and
/// `&amp;`, `&lt;`, `&gt;`, `&quot;`, `&apos;`, `&nbsp;` are decoded in that order.
pub fn xml_to_text(xml: &str, para_end_tags: &[&str], break_tags: &[&str]) -> (r: String)
    ensures
        r@ == spec_xml_to_text(
            xml@,
            para_end_tags@.map_values(|t: &str| t@),
            break_tags@.map_values(|t: &str| t@),
        ),
{
    let v = chars_of(xml);
    let v = replace_each_chars(v, para_end_tags, "\n");
    let v = replace_each_chars(v, break_tags, "\n");
    let v = strip_tag_chars(&v);
    let v = replace_lit(&v, "&amp;", "&");
    let v = replace_lit(&v, "&lt;", "<");
    let v = replace_lit(&v, "&gt;", ">");
    let v = replace_lit(&v, "&quot;", "\"");
    let v = replace_lit(&v, "&apos;", "'");
    let v = replace_lit(&v, "&nbsp;", " ");
    string_from_chars(v.as_slice())
}

/// The archive entry that holds the body of a word-processing document.
pub fn document_entry_name(kind: ExtractKind) -> (r: &'static str)
    requires
        kind == ExtractKind::Docx || kind == ExtractKind::OpenDocument,
    ensures
        kind == ExtractKind::Docx ==> r@ == "word/document.xml"@,
        kind == ExtractKind::OpenDocument ==> r@ == "content.xml"@,
{
    match kind {
        ExtractKind::Docx => "word/document.xml",
        _ => "content.xml",
    }
}

/// The text of the body XML of a DOCX (`</w:p>`, `<w:br/>`) or of an
/// OpenDocument file (`</text:p>`, `<text:line-break/>`).
pub fn document_xml_text(kind: ExtractKind, xml: &str) -> (r: String)
    requires
        kind == ExtractKind::Docx || kind == ExtractKind::OpenDocument,
    ensures
        kind == ExtractKind::Docx ==> r@ == spec_xml_to_text(
            xml@,
            seq!["</w:p>"@],
            seq!["<w:br/>"@, "<w:br />"@],
        ),
        kind == ExtractKind::OpenDocument ==> r@ == spec_xml_to_text(
            xml@,
            seq!["</text:p>"@],
            seq!["<text:line-break/>"@, "<text:line-break />"@],
        ),
{
    match kind {
        ExtractKind::Docx => {
            let paras = ["</w:p>"];
            let breaks = ["<w:br/>", "<w:br />"];
            let r = xml_to_text(xml, &paras, &breaks);
            proof {
                assert(paras@.map_values(|t: &str| t@) =~= seq!["</w:p>"@]);
                assert(breaks@.map_values(|t: &str| t@) =~= seq!["<w:br/>"@, "<w:br />"@]);
            }
            r
        },
        _ => {
            let paras = ["</text:p>"];
            let breaks = ["<text:line-break/>", "<text:line-break />"];
            let r = xml_to_text(xml, &paras, &breaks);
            proof {
                assert(paras@.map_values(|t: &str| t@) =~= seq!["</text:p>"@]);
                assert(breaks@.map_values(|t: &str| t@) =~= seq![
                    "<text:line-break/>"@,
                    "<text:line-break />"@,
                ]);
            }
            r
        },
    }
}

/// The parts joined with `sep` between consecutive ones.
pub open spec fn join_with(parts: Seq<Seq<char>>, sep: Seq<char>) -> Seq<char>
    decreases parts.len(),
{
    if parts.len() == 0 {
        Seq::empty()
    } else if parts.len() == 1 {
        parts[0]
    } else {
        join_with(parts.drop_last(), sep) + sep + parts.last()
    }
}

/// The non-empty cells of a row, in order.
pub open spec fn nonempty_cells(row: Seq<Seq<char>>) -> Seq<Seq<char>>
    decreases row.len(),
{
    if row.len() == 0 {
        Seq::empty()
    } else if row.last().len() > 0 {
        nonempty_cells(row.drop_last()).push(row.last())
    } else {
        nonempty_cells(row.drop_last())
    }
}

/// A row as a line: its non-empty cells joined by tabs and ended by a
/// newline; nothing for a row without non-empty cells.
pub open spec fn row_line(row: Seq<Seq<char>>) -> Seq<char> {
    let parts = nonempty_cells(row);
    if parts.len() == 0 {
        Seq::empty()
    } else {
        join_with(parts, seq!['\t']) + seq!['\n']
    }
}

/// The lines of all rows, in order.
pub open spec fn rows_text(rows: Seq<Seq<Seq<char>>>) -> Seq<char>
    decreases rows.len(),
{
    if rows.len() == 0 {
        Seq::empty()
    } else {
        rows_text(rows.drop_last()) + row_line(rows.last())
    }
}

fn append_row_line(out: &mut Vec<char>, row: &Vec<String>)
    ensures
        final(out)@ == old(out)@ + row_line(row.deep_view()),
{
    let ghost cells = row.deep_view();
    let mut line: Vec<char> = Vec::new();
    let mut any = false;
    let mut i: usize = 0;
    while i < row.len()
        invariant
            cells == row.deep_view(),
            cells.len() == row@.len(),
            i <= row@.len(),
            any == (nonempty_cells(cells.take(i as int)).len() > 0),
            line@ == join_with(nonempty_cells(cells.take(i as int)), seq!['\t']),
        decreases row@.len() - i,
    {
        let cell = chars_of(row[i].as_str());
        proof {
            assert(cells.take(i + 1).drop_last() =~= cells.take(i as int));
            assert(cells.take(i + 1).last() == cells[i as int]);
            assert(cells[i as int] == row@[i as int]@);
        }
        if cell.len() > 0 {
            let ghost parts = nonempty_cells(cells.take(i as int));
            if any {
                line.push('\t');
            }
            push_all(&mut line, &cell);
            proof {
                let np = parts.push(cell@);
                assert(np.drop_last() =~= parts);
                if parts.len() == 0 {
                    assert(line@ =~= join_with(np, seq!['\t']));
                } else {
                    assert(line@ =~= join_with(np, seq!['\t']));
                }
            }
            any = true;
        }
        i = i + 1;
    }
    proof {
        assert(cells.take(i as int) =~= cells);
    }
    if any {
        line.push('\n');
    }
    push_all(out, &line);
}

/// The text of a sheet's rows (each cell already rendered as text): every
/// row with a non-empty cell becomes its non-empty cells joined by tabs,
/// followed by a newline.
pub fn rows_to_text(rows: &Vec<Vec<String>>) -> (r: String)
    ensures
        r@ == rows_text(rows.deep_view()),
{
    let ghost all = rows.deep_view();
    let mut out: Vec<char> = Vec::new();
    let mut i: usize = 0;
    while i < rows.len()
        invariant
            all == rows.deep_view(),
            all.len() == rows@.len(),
            i <= rows@.len(),
            out@ == rows_text(all.take(i as int)),
        decreases rows@.len() - i,
    {
        proof {
            assert(all.take(i + 1).drop_last() =~= all.take(i as int));
            assert(all.take(i + 1).last() == all[i as int]);
            assert(all[i as int] == rows@[i as int].deep_view());
        }
        append_row_line(&mut out, &rows[i]);
        i = i + 1;
    }
    proof {
        assert(all.take(i as int) =~= all);
    }
    string_from_chars(out.as_slice())
}

/// Lexicographic order of texts by code point, which is the byte order of
/// their UTF-8 encodings (the order of `String`).
pub open spec fn lex_le(a: Seq<char>, b: Seq<char>) -> bool
    decreases a.len(),
{
    if a.len() == 0 {
        true
    } else if b.len() == 0 {
        false
    } else if (a[0] as u32) < (b[0] as u32) {
        true
    } else if (a[0] as u32) > (b[0] as u32) {
        false
    } else {
        lex_le(a.drop_first(), b.drop_first())
    }
}

pub proof fn lemma_lex_total(a: Seq<char>, b: Seq<char>)
    ensures
        lex_le(a, b) || lex_le(b, a),
    decreases a.len(),
{
    if a.len() > 0 && b.len() > 0 && (a[0] as u32) == (b[0] as u32) {
        lemma_lex_total(a.drop_first(), b.drop_first());
    }
}

pub proof fn lemma_lex_trans(a: Seq<char>, b: Seq<char>, c: Seq<char>)
    requires
        lex_le(a, b),
        lex_le(b, c),
    ensures
        lex_le(a, c),
    decreases a.len(),
{
    if a.len() > 0 && b.len() > 0 && c.len() > 0 && (a[0] as u32) == (b[0] as u32) && (b[0] as u32)
        == (c[0] as u32) {
        lemma_lex_trans(a.drop_first(), b.drop_first(), c.drop_first());
    }
}

fn lex_le_chars(a: &Vec<char>, b: &Vec<char>) -> (r: bool)
    ensures
        r == lex_le(a@, b@),
{
    let mut i: usize = 0;
    proof {
        assert(a@.skip(0) =~= a@);
        assert(b@.skip(0) =~= b@);
    }
    loop
        invariant
            i <= a@.len(),
            i <= b@.len(),
            lex_le(a@, b@) == lex_le(a@.skip(i as int), b@.skip(i as int)),
        decreases a@.len() - i,
    {
        if i == a.len() {
            return true;
        }
        if i == b.len() {
            return false;
        }
        proof {
            assert(a@.skip(i as int)[0] == a@[i as int]);
            assert(b@.skip(i as int)[0] == b@[i as int]);
            assert(a@.skip(i as int).drop_first() =~= a@.skip(i + 1));
            assert(b@.skip(i as int).drop_first() =~= b@.skip(i + 1));
        }
        if (a[i] as u32) < (b[i] as u32) {
            return true;
        }
        if (a[i] as u32) > (b[i] as u32) {
            return false;
        }
        i = i + 1;
    }
}

/// Whether a zip entry name is a slide: `ppt/slides/slide...xml`.
pub open spec fn is_slide_entry(n: Seq<char>) -> bool {
    &&& n.len() >= "ppt/slides/slide"@.len()
    &&& n.take("ppt/slides/slide"@.len() as int) == "ppt/slides/slide"@
    &&& n.len() >= ".xml"@.len()
    &&& n.skip(n.len() - ".xml"@.len()) == ".xml"@
}

/// The slide entries among the names, in order.
pub open spec fn slide_entries(names: Seq<Seq<char>>) -> Seq<Seq<char>>
    decreases names.len(),
{
    if names.len() == 0 {
        Seq::empty()
    } else if is_slide_entry(names.last()) {
        slide_entries(names.drop_last()).push(names.last())
    } else {
        slide_entries(names.drop_last())
    }
}

pub open spec fn lex_sorted(s: Seq<Seq<char>>) -> bool {
    forall|i: int, j: int| 0 <= i < j < s.len() ==> lex_le(#[trigger] s[i], #[trigger] s[j])
}

fn starts_with_chars(v: &Vec<char>, p: &Vec<char>) -> (r: bool)
    ensures
        r == (v@.len() >= p@.len() && v@.take(p@.len() as int) == p@),
{
    if v.len() < p.len() {
        return false;
    }
    let r = matches_at(v, 0, p);
    proof {
        assert(v@.subrange(0, p@.len() as int) =~= v@.take(p@.len() as int));
    }
    r
}

fn ends_with_chars(v: &Vec<char>, p: &Vec<char>) -> (r: bool)
    ensures
        r == (v@.len() >= p@.len() && v@.skip(v@.len() - p@.len()) == p@),
{
    if v.len() < p.len() {
        return false;
    }
    let r = matches_at(v, v.len() - p.len(), p);
    proof {
        assert(v@.subrange(v@.len() - p@.len(), v@.len() as int) =~= v@.skip(
            v@.len() - p@.len(),
        ));
    }
    r
}

/// The slide entries of a presentation archive, given all its entry names:
/// the names of the form `ppt/slides/slide*.xml`, sorted as strings.
pub fn slide_entry_names(names: &Vec<String>) -> (r: Vec<String>)
    ensures
        lex_sorted(r.deep_view()),
        r.deep_view().to_multiset() == slide_entries(names.deep_view()).to_multiset(),
{
    let ghost all = names.deep_view();
    let prefix = chars_of("ppt/slides/slide");
    let suffix = chars_of(".xml");
    let mut out: Vec<String> = Vec::new();
    let mut keys: Vec<Vec<char>> = Vec::new();
    let mut i: usize = 0;
    proof {
        assert(out.deep_view() =~= Seq::<Seq<char>>::empty());
        assert(all.take(0) =~= Seq::<Seq<char>>::empty());
    }
    while i < names.len()
        invariant
            all == names.deep_view(),
            all.len() == names@.len(),
            i <= names@.len(),
            prefix@ == "ppt/slides/slide"@,
            suffix@ == ".xml"@,
            keys@.len() == out@.len(),
            forall|k: int| 0 <= k < out@.len() ==> (#[trigger] keys@[k])@ == out@[k]@,
            lex_sorted(out.deep_view()),
            out.deep_view().to_multiset() == slide_entries(all.take(i as int)).to_multiset(),
        decreases names@.len() - i,
    {
        let name = chars_of(names[i].as_str());
        proof {
            assert(all.take(i + 1).drop_last() =~= all.take(i as int));
            assert(all.take(i + 1).last() == all[i as int]);
            assert(all[i as int] == names@[i as int]@);
        }
        if starts_with_chars(&name, &prefix) && ends_with_chars(&name, &suffix) {
            // insert after every key not greater than the name
            let mut pos: usize = 0;
            while pos < keys.len() && lex_le_chars(&keys[pos], &name)
                invariant
                    pos <= keys@.len(),
                    keys@.len() == out@.len(),
                    forall|k: int| 0 <= k < out@.len() ==> (#[trigger] keys@[k])@ == out@[k]@,
                    forall|k: int| 0 <= k < pos ==> lex_le(#[trigger] out@[k]@, name@),
                decreases keys@.len() - pos,
            {
                pos = pos + 1;
            }
            let ghost old_out = out.deep_view();
            proof {
                if pos < keys@.len() {
                    lemma_lex_total(out@[pos as int]@, name@);
                }
            }
            out.insert(pos, names[i].clone());
            keys.insert(pos, name);
            proof {
                let nv = out.deep_view();
                assert(nv =~= old_out.insert(pos as int, name@));
                assert forall|a: int, c: int| 0 <= a < c < nv.len() implies lex_le(
                    #[trigger] nv[a],
                    #[trigger] nv[c],
                ) by {
                    if c == pos {
                        assert(lex_le(old_out[a], name@));
                    } else if a == pos {
                        assert(lex_le(name@, old_out[pos as int]));
                        if c - 1 > pos {
                            assert(lex_le(old_out[pos as int], old_out[c - 1]));
                            lemma_lex_trans(name@, old_out[pos as int], old_out[c - 1]);
                        }
                    } else if a < pos && c > pos {
                        assert(lex_le(old_out[a], old_out[c - 1]));
                    } else if a > pos {
                        assert(lex_le(old_out[a - 1], old_out[c - 1]));
                    } else {
                        assert(lex_le(old_out[a], old_out[c]));
                    }
                }
                assert(nv.remove(pos as int) =~= old_out);
                assert(nv[pos as int] == name@);
                nv.to_multiset_ensures();
                assert(nv.remove(pos as int).to_multiset() =~= nv.to_multiset().remove(
                    nv[pos as int],
                ));
                assert(nv.contains(name@));
                assert(nv.to_multiset().count(name@) > 0);
                assert(nv.to_multiset() =~= old_out.to_multiset().insert(name@));
                assert(slide_entries(all.take(i + 1)) == slide_entries(all.take(i as int)).push(
                    name@,
                ));
                slide_entries(all.take(i as int)).to_multiset_ensures();
                assert forall|k: int| 0 <= k < out@.len() implies (#[trigger] keys@[k])@
                    == out@[k]@ by {
                    assert(out.deep_view()[k] == out@[k]@);
                }
            }
        } else {
            proof {
                assert(!is_slide_entry(name@));
                assert(slide_entries(all.take(i + 1)) == slide_entries(all.take(i as int)));
            }
        }
        i = i + 1;
    }
    proof {
        assert(all.take(i as int) =~= all);
    }
    out
}

/// The text of a presentation, given the XML of its slides in order: each
/// slide's paragraphs (`</a:p>`) and line breaks (`<a:br/>`) become
/// newlines, and each slide is followed by a newline.
pub open spec fn spec_slides_text(xmls: Seq<Seq<char>>) -> Seq<char>
    decreases xmls.len(),
{
    if xmls.len() == 0 {
        Seq::empty()
    } else {
        spec_slides_text(xmls.drop_last()) + spec_xml_to_text(
            xmls.last(),
            seq!["</a:p>"@],
            seq!["<a:br/>"@, "<a:br />"@],
        ) + seq!['\n']
    }
}

pub fn slides_text(xmls: &Vec<String>) -> (r: String)
    ensures
        r@ == spec_slides_text(xmls.deep_view()),
{
    let ghost all = xmls.deep_view();
    let paras = ["</a:p>"];
    let breaks = ["<a:br/>", "<a:br />"];
    proof {
        assert(paras@.map_values(|t: &str| t@) =~= seq!["</a:p>"@]);
        assert(breaks@.map_values(|t: &str| t@) =~= seq!["<a:br/>"@, "<a:br />"@]);
    }
    let mut out: Vec<char> = Vec::new();
    let mut i: usize = 0;
    while i < xmls.len()
        invariant
            all == xmls.deep_view(),
            all.len() == xmls@.len(),
            i <= xmls@.len(),
            paras@.map_values(|t: &str| t@) == seq!["</a:p>"@],
            breaks@.map_values(|t: &str| t@) == seq!["<a:br/>"@, "<a:br />"@],
            out@ == spec_slides_text(all.take(i as int)),
        decreases xmls@.len() - i,
    {
        proof {
            assert(all.take(i + 1).drop_last() =~= all.take(i as int));
            assert(all.take(i + 1).last() == all[i as int]);
            assert(all[i as int] == xmls@[i as int]@);
        }
        let t = xml_to_text(xmls[i].as_str(), &paras, &breaks);
        let tv = chars_of(t.as_str());
        push_all(&mut out, &tv);
        out.push('\n');
        i = i + 1;
    }
    proof {
        assert(all.take(i as int) =~= all);
    }
    string_from_chars(out.as_slice())
}

} // verus!
