//! The outline page a converted book becomes: one bullet per block, chapter
//! headings at the top level with their blocks nested, and table-of-contents
//! entries linked to the headings they name.
use vstd::prelude::*;
use crate::books::{BookChapter, BookFormat};
use crate::books::chapters::{
    all_blocks, block_toc_titles, chapter_view, chapters_view, is_page_locator_spec,
    is_pdf_page_locator, pdf_chapter_title_key, pdf_toc_title_from_single_line,
    pdf_toc_titles_from_block, single_line_title, table_cells, table_row_cells,
    table_row_title, title_key_spec, keys_related, is_rule_text,
};
use crate::books::clean::{
    clean_block_chars, clean_block_spec, clean_title_chars, clean_title_spec,
    escape_markdown_table_cell, escape_special_block_start, escape_special_start_spec,
    escape_table_cell_spec, fragment_link_chars, fragment_link_spec, replace_str,
};
use crate::books::pdf_text::{count_alpha, count_alpha_upper};
use crate::text::{
    chars_of, contains, contains_exec, contains_str, eq_ignore_ascii_case, eq_ignore_case, join,
    join_exec, lemma_chars_deep, lemma_push_deep, lemma_rfind_to, lines, lines_exec, push_all,
    push_str, replace, rfind, rfind_exec, seq_eq, slice, starts_with, starts_with_exec,
    starts_with_str, string_of, trim, trim_chars, trim_end, trim_end_chars, trim_start,
    trim_start_chars, trim_start_set, trim_start_set_chars,
};
use crate::unicode::{char_lowercase, is_alphanumeric, spec_char_lowercase, spec_is_alphanumeric};

verus! {

/// The characters of `s`, each replaced by its lower-case mapping.
pub open spec fn lowered(s: Seq<char>) -> Seq<char>
    decreases s.len(),
{
    if s.len() == 0 {
        seq![]
    } else {
        lowered(s.drop_last()) + spec_char_lowercase(s.last())
    }
}

/// Scan state of slug building: the slug so far, and whether it ends in a
/// separator.
pub open spec fn slug_scan(s: Seq<char>) -> (Seq<char>, bool)
    decreases s.len(),
{
    if s.len() == 0 {
        (seq![], false)
    } else {
        let (slug, sep) = slug_scan(s.drop_last());
        let c = s.last();
        if spec_is_alphanumeric(c) {
            (slug.push(c), false)
        } else if slug.len() > 0 && !sep {
            (slug.push('-'), true)
        } else {
            (slug, sep)
        }
    }
}

/// Drop trailing `-`.
pub open spec fn trim_dashes(s: Seq<char>) -> Seq<char>
    decreases s.len(),
{
    if s.len() > 0 && s.last() == '-' {
        trim_dashes(s.drop_last())
    } else {
        s
    }
}

/// The anchor a heading gets: its cleaned, lower-cased text with every run
/// of other characters between alphanumerics read as one `-`, no trailing
/// `-`; `heading` when nothing is left.
pub open spec fn heading_slug_spec(title: Seq<char>) -> Seq<char> {
    let slug = trim_dashes(slug_scan(lowered(clean_block_spec(title))).0);
    if slug.len() == 0 {
        "heading"@
    } else {
        slug
    }
}

pub fn book_heading_slug(title: &Vec<char>) -> (r: Vec<char>)
    ensures
        r@ == heading_slug_spec(title@),
{
    let cleaned = clean_block_chars(title);
    let mut low: Vec<char> = Vec::new();
    let mut i: usize = 0;
    while i < cleaned.len()
        invariant
            i <= cleaned.len(),
            low@ == lowered(cleaned@.take(i as int)),
        decreases cleaned.len() - i,
    {
        proof {
            assert(cleaned@.take(i + 1).drop_last() =~= cleaned@.take(i as int));
            assert(cleaned@.take(i + 1).last() == cleaned@[i as int]);
        }
        let l = char_lowercase(cleaned[i]);
        push_all(&mut low, &l);
        i += 1;
    }
    proof {
        assert(cleaned@.take(i as int) =~= cleaned@);
    }
    let mut slug: Vec<char> = Vec::new();
    let mut sep = false;
    let mut j: usize = 0;
    while j < low.len()
        invariant
            j <= low.len(),
            (slug@, sep) == slug_scan(low@.take(j as int)),
        decreases low.len() - j,
    {
        proof {
            assert(low@.take(j + 1).drop_last() =~= low@.take(j as int));
            assert(low@.take(j + 1).last() == low@[j as int]);
        }
        let c = low[j];
        if is_alphanumeric(c) {
            slug.push(c);
            sep = false;
        } else if slug.len() > 0 && !sep {
            slug.push('-');
            sep = true;
        }
        j += 1;
    }
    proof {
        assert(low@.take(j as int) =~= low@);
    }
    let ghost scanned = slug@;
    while slug.len() > 0 && slug[slug.len() - 1] == '-'
        invariant
            trim_dashes(scanned) == trim_dashes(slug@),
        decreases slug.len(),
    {
        let ghost before = slug@;
        slug.pop();
        proof {
            assert(slug@ =~= before.drop_last());
        }
    }
    if slug.len() == 0 {
        chars_of("heading")
    } else {
        slug
    }
}

/// `n` copies of two spaces.
pub open spec fn indent_spec(n: nat) -> Seq<char>
    decreases n,
{
    if n == 0 {
        seq![]
    } else {
        indent_spec((n - 1) as nat) + "  "@
    }
}

fn push_indent(out: &mut Vec<char>, n: usize)
    ensures
        final(out)@ == old(out)@ + indent_spec(n as nat),
{
    let mut k: usize = 0;
    proof {
        assert(out@ =~= old(out)@ + indent_spec(0));
    }
    while k < n
        invariant
            k <= n,
            out@ == old(out)@ + indent_spec(k as nat),
        decreases n - k,
    {
        push_str(out, "  ");
        proof {
            assert(out@ =~= old(out)@ + indent_spec((k + 1) as nat));
        }
        k += 1;
    }
}

/// The lines after the first, each indented one level deeper and with its
/// trailing white space removed.
pub open spec fn continuation_lines(ls: Seq<Seq<char>>, depth: nat) -> Seq<char>
    decreases ls.len(),
{
    if ls.len() == 0 {
        seq![]
    } else {
        continuation_lines(ls.drop_last(), depth) + indent_spec(depth + 1) + trim_end(ls.last()) + "\n"@
    }
}

/// The block with `\r\n` and lone `\r` read as line breaks.
pub open spec fn unify_breaks(block: Seq<char>) -> Seq<char> {
    replace(replace(block, "\r\n"@, "\n"@), "\r"@, "\n"@)
}

/// One outline bullet at `depth`: the block's first line trimmed (escaped
/// when it would read as a property) after `- `, then its other lines one
/// level deeper.
pub open spec fn outline_block_spec(depth: nat, block: Seq<char>) -> Seq<char> {
    let ls = lines(unify_breaks(block));
    let first = if ls.len() > 0 {
        trim(ls[0])
    } else {
        seq![]
    };
    indent_spec(depth) + "- "@ + escape_special_start_spec(first) + "\n"@ + continuation_lines(
        if ls.len() > 0 {
            ls.drop_first()
        } else {
            seq![]
        },
        depth,
    )
}

pub fn push_outline_block(out: &mut Vec<char>, depth: usize, block: &Vec<char>)
    requires
        depth < usize::MAX,
    ensures
        final(out)@ == old(out)@ + outline_block_spec(depth as nat, block@),
{
    proof {
        reveal_strlit("\r\n");
        reveal_strlit("\r");
    }
    let a = replace_str(block, "\r\n", "\n");
    let b = replace_str(&a, "\r", "\n");
    let ls = lines_exec(&b);
    let ghost start = out@;
    push_indent(out, depth);
    push_str(out, "- ");
    let first = if ls.len() > 0 {
        proof {
            lemma_chars_deep(&ls@[0]);
        }
        trim_chars(&ls[0])
    } else {
        Vec::new()
    };
    let esc = escape_special_block_start(&first);
    push_all(out, &esc);
    push_str(out, "\n");
    let ghost head = out@;
    let ghost rest = if ls.deep_view().len() > 0 {
        ls.deep_view().drop_first()
    } else {
        seq![]
    };
    let mut i: usize = 1;
    proof {
        assert(rest.take(0) =~= Seq::<Seq<char>>::empty());
        assert(out@ =~= head + continuation_lines(rest.take(0), depth as nat));
    }
    while i < ls.len()
        invariant
            1 <= i,
            i <= ls.len() || (ls.len() == 0 && i == 1),
            depth < usize::MAX,
            ls.len() > 0 ==> rest == ls.deep_view().drop_first(),
            ls.len() == 0 ==> rest == Seq::<Seq<char>>::empty(),
            out@ == head + continuation_lines(rest.take(i - 1), depth as nat),
        decreases ls.len() - i,
    {
        proof {
            lemma_chars_deep(&ls@[i as int]);
            assert(rest.take(i as int).drop_last() =~= rest.take(i - 1));
            assert(rest.take(i as int).last() == ls@[i as int]@);
        }
        push_indent(out, depth + 1);
        let t = trim_end_chars(&ls[i]);
        push_all(out, &t);
        push_str(out, "\n");
        proof {
            assert(out@ =~= head + continuation_lines(rest.take(i as int), depth as nat));
        }
        i += 1;
    }
    proof {
        assert(b@ == unify_breaks(block@));
        let lsv = lines(unify_breaks(block@));
        assert(ls.deep_view() == lsv);
        if ls.len() > 0 {
            assert(rest.take(i - 1) =~= rest);
            assert(ls.deep_view()[0] == ls@[0].deep_view());
            assert(first@ == trim(lsv[0]));
            assert(rest == lsv.drop_first());
        } else {
            assert(first@ =~= Seq::<char>::empty());
            assert(rest.take(i - 1) =~= Seq::<Seq<char>>::empty());
            assert(continuation_lines(Seq::<Seq<char>>::empty(), depth as nat) =~= Seq::<char>::empty());
            assert(head + Seq::<char>::empty() =~= head);
        }
        assert(out@ =~= start + outline_block_spec(depth as nat, block@));
    }
}

/// Whether a block is the `#` heading of the chapter titled `title` (the
/// heading's cleaned text equal to it, ignoring ASCII case).
pub open spec fn same_heading_spec(block: Seq<char>, title: Seq<char>) -> bool {
    let t = trim(block);
    starts_with(t, "#"@) && eq_ignore_case(clean_title_spec(trim(trim_start_set(t, seq!['#']))), title)
}

pub fn is_same_heading_block(block: &Vec<char>, title: &Vec<char>) -> (r: bool)
    ensures
        r == same_heading_spec(block@, title@),
{
    let t = trim_chars(block);
    if !starts_with_str(&t, "#") {
        return false;
    }
    let mut hash: Vec<char> = Vec::new();
    hash.push('#');
    proof {
        assert(hash@ =~= seq!['#']);
    }
    let rest = trim_start_set_chars(&t, &hash);
    let inner = trim_chars(&rest);
    let cleaned = clean_title_chars(&inner);
    eq_ignore_ascii_case(&cleaned, title)
}

/// Whether a chapter title matches one table-of-contents key: its own key is
/// non-empty and equal or loosely related to it.
pub open spec fn matches_title_key_spec(toc_key: Seq<char>, title: Seq<char>) -> bool {
    let tk = title_key_spec(title);
    tk.len() > 0 && (toc_key == tk || keys_related(toc_key, tk))
}

pub fn pdf_toc_matches_title_key(toc_key: &Vec<char>, title: &Vec<char>) -> (r: bool)
    ensures
        r == matches_title_key_spec(toc_key@, title@),
{
    let tk = pdf_chapter_title_key(title);
    if tk.len() == 0 {
        return false;
    }
    if seq_eq(toc_key, &tk) {
        return true;
    }
    let min = if toc_key.len() <= tk.len() {
        toc_key.len()
    } else {
        tk.len()
    };
    min >= 8 && (contains_exec(toc_key, &tk) || contains_exec(&tk, toc_key))
}

/// Whether body text opens with a table-of-contents title: not a table and
/// not itself an entry, and its key (of the text without leading `#`) is
/// the title's key or starts with it followed by a space.
pub open spec fn starts_with_toc_title_spec(block: Seq<char>, toc_key: Seq<char>) -> bool {
    if toc_key.len() == 0 || starts_with(trim_start(block), "|"@) || single_line_title(block) is Some {
        false
    } else {
        let cleaned = clean_block_spec(trim(trim_start_set(trim_start(block), seq!['#'])));
        let bk = title_key_spec(cleaned);
        bk == toc_key || starts_with(bk, toc_key + " "@)
    }
}

pub fn pdf_block_starts_with_toc_title(block: &Vec<char>, toc_key: &Vec<char>) -> (r: bool)
    ensures
        r == starts_with_toc_title_spec(block@, toc_key@),
{
    let ts = trim_start_chars(block);
    if toc_key.len() == 0 || starts_with_str(&ts, "|") {
        return false;
    }
    if pdf_toc_title_from_single_line(block).is_some() {
        return false;
    }
    let mut hash: Vec<char> = Vec::new();
    hash.push('#');
    proof {
        assert(hash@ =~= seq!['#']);
    }
    let rest = trim_start_set_chars(&ts, &hash);
    let inner = trim_chars(&rest);
    let cleaned = clean_block_chars(&inner);
    let bk = pdf_chapter_title_key(&cleaned);
    let mut prefix = slice(toc_key, 0, toc_key.len());
    proof {
        assert(prefix@ =~= toc_key@);
    }
    push_str(&mut prefix, " ");
    seq_eq(&bk, toc_key) || starts_with_exec(&bk, &prefix)
}

/// Table-of-contents anchors: each entry's title key and the heading slug it
/// links to.
pub type Anchors = Vec<(Vec<char>, Vec<char>)>;

/// Anchors as plain values.
pub open spec fn anchors_view(a: Anchors) -> Seq<(Seq<char>, Seq<char>)> {
    a@.map_values(|p: (Vec<char>, Vec<char>)| (p.0@, p.1@))
}

/// The keys of (key, value) pairs.
pub open spec fn pair_keys(pairs: Seq<(Seq<char>, Seq<char>)>) -> Seq<Seq<char>> {
    pairs.map_values(|p: (Seq<char>, Seq<char>)| p.0)
}

/// The pairs with one more table-of-contents title, unless its key is empty
/// or already present.
pub open spec fn add_toc_pair(pairs: Seq<(Seq<char>, Seq<char>)>, title: Seq<char>) -> Seq<(Seq<char>, Seq<char>)> {
    let k = title_key_spec(title);
    if k.len() > 0 && !pair_keys(pairs).contains(k) {
        pairs.push((k, title))
    } else {
        pairs
    }
}

pub open spec fn add_toc_pairs(pairs: Seq<(Seq<char>, Seq<char>)>, titles: Seq<Seq<char>>) -> Seq<(Seq<char>, Seq<char>)>
    decreases titles.len(),
{
    if titles.len() == 0 {
        pairs
    } else {
        add_toc_pair(add_toc_pairs(pairs, titles.drop_last()), titles.last())
    }
}

/// Each distinct table-of-contents key in the blocks, with the first title
/// that gave it.
pub open spec fn toc_pairs(blocks: Seq<Seq<char>>) -> Seq<(Seq<char>, Seq<char>)>
    decreases blocks.len(),
{
    if blocks.len() == 0 {
        seq![]
    } else {
        add_toc_pairs(toc_pairs(blocks.drop_last()), block_toc_titles(blocks.last()))
    }
}

/// The first chapter from `i` on with a real title matching the key.
pub open spec fn matching_chapter_from(cs: Seq<(Seq<char>, bool, Seq<Seq<char>>)>, key: Seq<char>, i: int) -> Option<int>
    decreases cs.len() - i,
{
    if i < 0 || i >= cs.len() {
        None
    } else if !cs[i].1 && matches_title_key_spec(key, cs[i].0) {
        Some(i)
    } else {
        matching_chapter_from(cs, key, i + 1)
    }
}

/// Where a table-of-contents entry links: to the first chapter whose title
/// matches it, or, when some block of the book opens with the entry's title,
/// to the heading slug of the entry's own title.
pub open spec fn anchor_for(key: Seq<char>, title: Seq<char>, cs: Seq<(Seq<char>, bool, Seq<Seq<char>>)>) -> Option<Seq<char>> {
    match matching_chapter_from(cs, key, 0) {
        Some(i) => Some(heading_slug_spec(cs[i].0)),
        None => if exists|j: int| 0 <= j < all_blocks(cs).len() && #[trigger] starts_with_toc_title_spec(all_blocks(cs)[j], key) {
            Some(heading_slug_spec(title))
        } else {
            None
        },
    }
}

pub open spec fn anchors_from_pairs(pairs: Seq<(Seq<char>, Seq<char>)>, cs: Seq<(Seq<char>, bool, Seq<Seq<char>>)>) -> Seq<(Seq<char>, Seq<char>)>
    decreases pairs.len(),
{
    if pairs.len() == 0 {
        seq![]
    } else {
        anchors_from_pairs(pairs.drop_last(), cs) + match anchor_for(pairs.last().0, pairs.last().1, cs) {
            Some(a) => seq![(pairs.last().0, a)],
            None => seq![],
        }
    }
}

/// The anchors of a book's table of contents.
pub open spec fn toc_anchors_spec(cs: Seq<(Seq<char>, bool, Seq<Seq<char>>)>) -> Seq<(Seq<char>, Seq<char>)> {
    anchors_from_pairs(toc_pairs(all_blocks(cs)), cs)
}

/// The value of the first pair with key `key`.
pub open spec fn lookup_anchor(anchors: Seq<(Seq<char>, Seq<char>)>, key: Seq<char>) -> Option<Seq<char>>
    decreases anchors.len(),
{
    if anchors.len() == 0 {
        None
    } else if anchors[0].0 == key {
        Some(anchors[0].1)
    } else {
        lookup_anchor(anchors.drop_first(), key)
    }
}

/// All blocks of the chapters, in order.
fn flat_blocks(chapters: &[BookChapter]) -> (r: Vec<Vec<char>>)
    ensures
        r.deep_view() == all_blocks(chapters_view(chapters@)),
{
    let mut out: Vec<Vec<char>> = Vec::new();
    let mut i: usize = 0;
    proof {
        assert(out.deep_view() =~= all_blocks(chapters_view(chapters@).take(0)));
    }
    while i < chapters.len()
        invariant
            i <= chapters.len(),
            out.deep_view() == all_blocks(chapters_view(chapters@).take(i as int)),
        decreases chapters.len() - i,
    {
        let ghost start = out.deep_view();
        let mut j: usize = 0;
        proof {
            assert(start + chapters@[i as int].blocks.deep_view().take(0) =~= start);
        }
        while j < chapters[i].blocks.len()
            invariant
                i < chapters.len(),
                j <= chapters@[i as int].blocks.len(),
                out.deep_view() == start + chapters@[i as int].blocks.deep_view().take(j as int),
            decreases chapters@[i as int].blocks.len() - j,
        {
            let b = chars_of(chapters[i].blocks[j].as_str());
            let ghost before = out.deep_view();
            let ghost bv = b@;
            out.push(b);
            proof {
                lemma_push_deep(before, &out, bv);
                assert(chapters@[i as int].blocks.deep_view().take(j + 1) =~= chapters@[i as int].blocks.deep_view().take(j as int).push(bv));
            }
            j += 1;
        }
        proof {
            assert(chapters@[i as int].blocks.deep_view().take(j as int) =~= chapters@[i as int].blocks.deep_view());
            let cv = chapters_view(chapters@);
            assert(cv.take(i + 1).drop_last() =~= cv.take(i as int));
            assert(cv.take(i + 1).last() == chapter_view(chapters@[i as int]));
        }
        i += 1;
    }
    proof {
        assert(chapters_view(chapters@).take(i as int) =~= chapters_view(chapters@));
    }
    out
}

fn pair_keys_hold(pairs: &Vec<(Vec<char>, Vec<char>)>, k: &Vec<char>) -> (r: bool)
    ensures
        r == pair_keys(anchors_view(*pairs)).contains(k@),
{
    let ghost pk = pair_keys(anchors_view(*pairs));
    let mut i: usize = 0;
    while i < pairs.len()
        invariant
            i <= pairs.len(),
            pk == pair_keys(anchors_view(*pairs)),
            forall|m: int| 0 <= m < i ==> pk[m] != k@,
        decreases pairs.len() - i,
    {
        if seq_eq(&pairs[i].0, k) {
            proof {
                assert(pk[i as int] == k@);
            }
            return true;
        }
        i += 1;
    }
    false
}

pub(crate) fn lookup_anchor_exec(anchors: &Anchors, key: &Vec<char>) -> (r: Option<Vec<char>>)
    ensures
        match r {
            Some(a) => lookup_anchor(anchors_view(*anchors), key@) == Some(a@),
            None => lookup_anchor(anchors_view(*anchors), key@) is None,
        },
{
    let ghost av = anchors_view(*anchors);
    let mut i: usize = 0;
    proof {
        assert(av.skip(0) =~= av);
    }
    while i < anchors.len()
        invariant
            i <= anchors.len(),
            av == anchors_view(*anchors),
            lookup_anchor(av, key@) == lookup_anchor(av.skip(i as int), key@),
        decreases anchors.len() - i,
    {
        proof {
            assert(av.skip(i as int)[0] == av[i as int]);
            assert(av.skip(i as int).drop_first() =~= av.skip(i + 1));
        }
        if seq_eq(&anchors[i].0, key) {
            return Some(slice(&anchors[i].1, 0, anchors[i].1.len()));
        }
        i += 1;
    }
    None
}

/// The anchors a book's table of contents links to (see
/// [`toc_anchors_spec`]).
pub fn pdf_toc_link_anchors(chapters: &[BookChapter]) -> (r: Anchors)
    ensures
        anchors_view(r) == toc_anchors_spec(chapters_view(chapters@)),
{
    let ghost cv = chapters_view(chapters@);
    let flat = flat_blocks(chapters);
    let mut pairs: Vec<(Vec<char>, Vec<char>)> = Vec::new();
    let mut i: usize = 0;
    proof {
        assert(anchors_view(pairs) =~= toc_pairs(flat.deep_view().take(0)));
    }
    while i < flat.len()
        invariant
            i <= flat.len(),
            anchors_view(pairs) == toc_pairs(flat.deep_view().take(i as int)),
        decreases flat.len() - i,
    {
        proof {
            lemma_chars_deep(&flat@[i as int]);
            assert(flat.deep_view().take(i + 1).drop_last() =~= flat.deep_view().take(i as int));
            assert(flat.deep_view().take(i + 1).last() == flat@[i as int]@);
        }
        let titles = pdf_toc_titles_from_block(&flat[i]);
        let ghost start = anchors_view(pairs);
        let mut j: usize = 0;
        while j < titles.len()
            invariant
                j <= titles.len(),
                anchors_view(pairs) == add_toc_pairs(start, titles.deep_view().take(j as int)),
            decreases titles.len() - j,
        {
            proof {
                lemma_chars_deep(&titles@[j as int]);
                assert(titles.deep_view().take(j + 1).drop_last() =~= titles.deep_view().take(j as int));
                assert(titles.deep_view().take(j + 1).last() == titles@[j as int]@);
            }
            let k = pdf_chapter_title_key(&titles[j]);
            if k.len() > 0 && !pair_keys_hold(&pairs, &k) {
                let t = slice(&titles[j], 0, titles[j].len());
                proof {
                    assert(t@ =~= titles@[j as int]@);
                }
                let ghost before = anchors_view(pairs);
                let ghost kv = k@;
                let ghost tv = t@;
                pairs.push((k, t));
                proof {
                    assert(anchors_view(pairs) =~= before.push((kv, tv)));
                }
            }
            j += 1;
        }
        proof {
            assert(titles.deep_view().take(j as int) =~= titles.deep_view());
        }
        i += 1;
    }
    proof {
        assert(flat.deep_view().take(i as int) =~= flat.deep_view());
    }
    let mut anchors: Anchors = Vec::new();
    let mut p: usize = 0;
    proof {
        assert(anchors_view(anchors) =~= anchors_from_pairs(anchors_view(pairs).take(0), cv));
    }
    while p < pairs.len()
        invariant
            p <= pairs.len(),
            cv == chapters_view(chapters@),
            flat.deep_view() == all_blocks(cv),
            anchors_view(anchors) == anchors_from_pairs(anchors_view(pairs).take(p as int), cv),
        decreases pairs.len() - p,
    {
        let key = &pairs[p].0;
        let title = &pairs[p].1;
        let ghost pv = anchors_view(pairs);
        proof {
            assert(pv.take(p + 1).drop_last() =~= pv.take(p as int));
            assert(pv.take(p + 1).last() == (key@, title@));
        }
        let mut found: Option<usize> = None;
        let mut c: usize = 0;
        proof {
            assert(matching_chapter_from(cv, key@, 0) == matching_chapter_from(cv, key@, 0));
        }
        while c < chapters.len()
            invariant
                c <= chapters.len(),
                cv == chapters_view(chapters@),
                found is None ==> matching_chapter_from(cv, key@, 0) == matching_chapter_from(cv, key@, c as int),
                found matches Some(f) ==> matching_chapter_from(cv, key@, 0) == Some(f as int) && f < chapters.len(),
            decreases chapters.len() - c,
        {
            if found.is_none() {
                let ct = chars_of(chapters[c].title.as_str());
                if !chapters[c].generated_title && pdf_toc_matches_title_key(key, &ct) {
                    found = Some(c);
                }
            }
            c += 1;
        }
        let ghost before = anchors_view(anchors);
        match found {
            Some(f) => {
                let ct = chars_of(chapters[f].title.as_str());
                let slug = book_heading_slug(&ct);
                let kc = slice(key, 0, key.len());
                proof {
                    assert(kc@ =~= key@);
                }
                let ghost sv = slug@;
                anchors.push((kc, slug));
                proof {
                    assert(anchors_view(anchors) =~= before + seq![(key@, sv)]);
                }
            },
            None => {
                let mut any = false;
                let mut b: usize = 0;
                while b < flat.len()
                    invariant
                        b <= flat.len(),
                        flat.deep_view() == all_blocks(cv),
                        any <==> exists|j: int| 0 <= j < b && #[trigger] starts_with_toc_title_spec(all_blocks(cv)[j], key@),
                    decreases flat.len() - b,
                {
                    proof {
                        lemma_chars_deep(&flat@[b as int]);
                    }
                    if !any && pdf_block_starts_with_toc_title(&flat[b], key) {
                        any = true;
                        proof {
                            assert(starts_with_toc_title_spec(all_blocks(cv)[b as int], key@));
                        }
                    }
                    proof {
                        if !any {
                            assert(!starts_with_toc_title_spec(all_blocks(cv)[b as int], key@));
                        }
                    }
                    b += 1;
                }
                if any {
                    let slug = book_heading_slug(title);
                    let kc = slice(key, 0, key.len());
                    proof {
                        assert(kc@ =~= key@);
                    }
                    let ghost sv = slug@;
                    anchors.push((kc, slug));
                    proof {
                        assert(anchors_view(anchors) =~= before + seq![(key@, sv)]);
                    }
                } else {
                    proof {
                        assert(anchors_view(anchors) =~= before + Seq::<(Seq<char>, Seq<char>)>::empty());
                    }
                }
            },
        }
        p += 1;
    }
    proof {
        assert(anchors_view(pairs).take(p as int) =~= anchors_view(pairs));
    }
    anchors
}

/// The cells of a table row rendered back: `|`, then each cell escaped
/// between a space and ` |`.
pub open spec fn row_text(cells: Seq<Seq<char>>) -> Seq<char>
    decreases cells.len(),
{
    if cells.len() == 0 {
        "|"@
    } else {
        row_text(cells.drop_last()) + " "@ + escape_table_cell_spec(cells.last()) + " |"@
    }
}

/// A table-of-contents row with its title linked to the anchor of its key,
/// when the row names a title that has one.
pub open spec fn linked_table_row(line: Seq<char>, anchors: Seq<(Seq<char>, Seq<char>)>) -> Option<Seq<char>> {
    match table_row_title(line) {
        Some(title) => match lookup_anchor(anchors, title_key_spec(title)) {
            Some(a) => Some(row_text(table_cells(trim(line)).update(0, fragment_link_spec(title, a)))),
            None => None,
        },
        None => None,
    }
}

/// A one-line table-of-contents entry with its title linked, when it names
/// a title that has an anchor.
pub open spec fn linked_single_line(block: Seq<char>, anchors: Seq<(Seq<char>, Seq<char>)>) -> Option<Seq<char>> {
    let t = trim(block);
    match rfind(t, " - "@) {
        Some(i) => {
            let title = clean_block_spec(t.take(i));
            let page = clean_block_spec(t.skip(i + 3));
            if count_alpha(title) < 3 || !is_page_locator_spec(page) {
                None
            } else {
                match lookup_anchor(anchors, title_key_spec(title)) {
                    Some(a) => Some(fragment_link_spec(title, a) + " - "@ + page),
                    None => None,
                }
            }
        },
        None => None,
    }
}

/// A line of a table block, linked when it is a linkable row.
pub open spec fn link_line(l: Seq<char>, anchors: Seq<(Seq<char>, Seq<char>)>) -> Seq<char> {
    match linked_table_row(l, anchors) {
        Some(x) => x,
        None => l,
    }
}

/// A block with its table-of-contents entries linked: with no anchors it is
/// unchanged; a multi-line table gets each linkable row linked (and stays
/// as it was when none is); otherwise a one-line entry gets its title
/// linked.
pub open spec fn link_block_spec(block: Seq<char>, anchors: Seq<(Seq<char>, Seq<char>)>) -> Seq<char> {
    if anchors.len() == 0 {
        block
    } else if starts_with(trim_start(block), "|"@) && contains(block, "\n"@) {
        let ls = lines(block);
        if exists|i: int| 0 <= i < ls.len() && #[trigger] linked_table_row(ls[i], anchors) is Some {
            join(ls.map_values(|l: Seq<char>| link_line(l, anchors)), "\n"@)
        } else {
            block
        }
    } else {
        match linked_single_line(block, anchors) {
            Some(x) => x,
            None => block,
        }
    }
}

pub fn link_pdf_toc_table_row(line: &Vec<char>, anchors: &Anchors) -> (r: Option<Vec<char>>)
    ensures
        match r {
            Some(x) => linked_table_row(line@, anchors_view(*anchors)) == Some(x@),
            None => linked_table_row(line@, anchors_view(*anchors)) is None,
        },
{
    let title = match crate::books::chapters::pdf_toc_title_from_markdown_table_row(line) {
        Some(t) => t,
        None => {
            return None;
        },
    };
    let key = pdf_chapter_title_key(&title);
    let anchor = match lookup_anchor_exec(anchors, &key) {
        Some(a) => a,
        None => {
            return None;
        },
    };
    let t = trim_chars(line);
    let cells = table_row_cells(&t);
    let link = fragment_link_chars(&title, &anchor);
    let ghost cv = cells.deep_view().update(0, link@);
    proof {
        assert(cells.deep_view().len() >= 2);
    }
    let mut out = chars_of("|");
    let mut i: usize = 0;
    proof {
        assert(out@ =~= row_text(cv.take(0)));
    }
    while i < cells.len()
        invariant
            i <= cells.len(),
            cells.len() >= 2,
            cv == cells.deep_view().update(0, link@),
            out@ == row_text(cv.take(i as int)),
        decreases cells.len() - i,
    {
        let cell = if i == 0 {
            slice(&link, 0, link.len())
        } else {
            slice(&cells[i], 0, cells[i].len())
        };
        proof {
            lemma_chars_deep(&cells@[i as int]);
            assert(cell@ == cv[i as int]);
            assert(cv.take(i + 1).drop_last() =~= cv.take(i as int));
            assert(cv.take(i + 1).last() == cv[i as int]);
        }
        push_str(&mut out, " ");
        let esc = escape_markdown_table_cell(&cell);
        push_all(&mut out, &esc);
        push_str(&mut out, " |");
        i += 1;
    }
    proof {
        assert(cv.take(i as int) =~= cv);
    }
    Some(out)
}

pub fn link_pdf_toc_single_line(block: &Vec<char>, anchors: &Anchors) -> (r: Option<Vec<char>>)
    ensures
        match r {
            Some(x) => linked_single_line(block@, anchors_view(*anchors)) == Some(x@),
            None => linked_single_line(block@, anchors_view(*anchors)) is None,
        },
{
    proof {
        reveal_strlit(" - ");
    }
    let t = trim_chars(block);
    let sep = chars_of(" - ");
    let i = match rfind_exec(&t, &sep) {
        Some(i) => i,
        None => {
            return None;
        },
    };
    proof {
        lemma_rfind_to(t@, sep@, t@.len() - 3);
    }
    let head = slice(&t, 0, i);
    let tail = slice(&t, i + 3, t.len());
    proof {
        assert(head@ =~= t@.take(i as int));
        assert(tail@ =~= t@.skip(i + 3));
    }
    let title = clean_block_chars(&head);
    let page = clean_block_chars(&tail);
    let (alpha, _) = count_alpha_upper(&title);
    if alpha < 3 || !is_pdf_page_locator(&page) {
        return None;
    }
    let key = pdf_chapter_title_key(&title);
    match lookup_anchor_exec(anchors, &key) {
        Some(a) => {
            let mut out = fragment_link_chars(&title, &a);
            push_str(&mut out, " - ");
            push_all(&mut out, &page);
            Some(out)
        },
        None => None,
    }
}

pub fn link_pdf_toc_block(block: &Vec<char>, anchors: &Anchors) -> (r: Vec<char>)
    ensures
        r@ == link_block_spec(block@, anchors_view(*anchors)),
{
    if anchors.len() == 0 {
        return slice(block, 0, block.len());
    }
    let ts = trim_start_chars(block);
    if starts_with_str(&ts, "|") && contains_str(block, "\n") {
        let ls = lines_exec(block);
        let ghost lv = ls.deep_view();
        let ghost av = anchors_view(*anchors);
        let mut changed = false;
        let mut out: Vec<Vec<char>> = Vec::new();
        let mut i: usize = 0;
        proof {
            assert(out.deep_view() =~= lv.take(0).map_values(|l: Seq<char>| link_line(l, av)));
        }
        while i < ls.len()
            invariant
                i <= ls.len(),
                lv == ls.deep_view(),
                av == anchors_view(*anchors),
                out.deep_view() == lv.take(i as int).map_values(|l: Seq<char>| link_line(l, av)),
                changed <==> exists|k: int| 0 <= k < i && #[trigger] linked_table_row(lv[k], av) is Some,
            decreases ls.len() - i,
        {
            proof {
                lemma_chars_deep(&ls@[i as int]);
            }
            let ghost before = out.deep_view();
            match link_pdf_toc_table_row(&ls[i], anchors) {
                Some(x) => {
                    changed = true;
                    let ghost xv = x@;
                    out.push(x);
                    proof {
                        lemma_push_deep(before, &out, xv);
                        assert(ls.deep_view()[i as int] == ls@[i as int].deep_view());
                        assert(linked_table_row(lv[i as int], av) is Some);
                        assert(xv == link_line(lv[i as int], av));
                    }
                },
                None => {
                    let x = slice(&ls[i], 0, ls[i].len());
                    let ghost xv = x@;
                    out.push(x);
                    proof {
                        lemma_push_deep(before, &out, xv);
                        assert(ls.deep_view()[i as int] == ls@[i as int].deep_view());
                        assert(linked_table_row(lv[i as int], av) is None);
                        assert(xv == link_line(lv[i as int], av));
                    }
                },
            }
            proof {
                assert(lv.take(i + 1) =~= lv.take(i as int).push(lv[i as int]));
                assert(out.deep_view() =~= lv.take(i + 1).map_values(|l: Seq<char>| link_line(l, av)));
            }
            i += 1;
        }
        proof {
            assert(lv.take(i as int) =~= lv);
        }
        if changed {
            let nl = chars_of("\n");
            return join_exec(&out, &nl);
        }
        return slice(block, 0, block.len());
    }
    match link_pdf_toc_single_line(block, anchors) {
        Some(x) => x,
        None => slice(block, 0, block.len()),
    }
}

/// The blocks as outline bullets at `depth`, each with its table-of-contents
/// entries linked.
pub open spec fn blocks_outline(bs: Seq<Seq<char>>, depth: nat, anchors: Seq<(Seq<char>, Seq<char>)>) -> Seq<char>
    decreases bs.len(),
{
    if bs.len() == 0 {
        seq![]
    } else {
        blocks_outline(bs.drop_last(), depth, anchors) + outline_block_spec(depth, link_block_spec(bs.last(), anchors))
    }
}

/// Whether a chapter's first block is its own heading.
pub open spec fn opens_with_own_heading(c: (Seq<char>, bool, Seq<Seq<char>>)) -> bool {
    c.2.len() > 0 && same_heading_spec(c.2[0], c.0)
}

/// One chapter of the outline: a chapter with a made-up title is just its
/// blocks at the top level; otherwise its heading (its own first block when
/// that is its heading, else `# title`) at the top level and its other
/// blocks nested under it.
pub open spec fn chapter_outline_spec(c: (Seq<char>, bool, Seq<Seq<char>>), anchors: Seq<(Seq<char>, Seq<char>)>) -> Seq<char> {
    if c.1 {
        blocks_outline(c.2, 0, anchors)
    } else if opens_with_own_heading(c) {
        outline_block_spec(0, c.2[0]) + blocks_outline(c.2.drop_first(), 1, anchors)
    } else {
        outline_block_spec(0, "# "@ + c.0) + blocks_outline(c.2, 1, anchors)
    }
}

pub open spec fn chapters_outline_scan(cs: Seq<(Seq<char>, bool, Seq<Seq<char>>)>, anchors: Seq<(Seq<char>, Seq<char>)>) -> Seq<char>
    decreases cs.len(),
{
    if cs.len() == 0 {
        seq![]
    } else {
        chapters_outline_scan(cs.drop_last(), anchors) + chapter_outline_spec(cs.last(), anchors)
    }
}

/// The outline of all chapters, or a note that the import was empty.
pub open spec fn chapters_outline_spec(cs: Seq<(Seq<char>, bool, Seq<Seq<char>>)>, anchors: Seq<(Seq<char>, Seq<char>)>) -> Seq<char> {
    let out = chapters_outline_scan(cs, anchors);
    if out.len() == 0 {
        "- Imported content was empty.\n"@
    } else {
        out
    }
}

fn push_blocks_outline(out: &mut Vec<char>, bs: &Vec<String>, from: usize, depth: usize, anchors: &Anchors)
    requires
        from <= bs.len(),
        depth < usize::MAX,
    ensures
        final(out)@ == old(out)@ + blocks_outline(bs.deep_view().skip(from as int), depth as nat, anchors_view(*anchors)),
{
    let ghost rest = bs.deep_view().skip(from as int);
    let mut i: usize = from;
    proof {
        assert(rest.take(0) =~= Seq::<Seq<char>>::empty());
        assert(out@ =~= old(out)@ + blocks_outline(rest.take(0), depth as nat, anchors_view(*anchors)));
    }
    while i < bs.len()
        invariant
            from <= i <= bs.len(),
            depth < usize::MAX,
            rest == bs.deep_view().skip(from as int),
            out@ == old(out)@ + blocks_outline(rest.take(i - from), depth as nat, anchors_view(*anchors)),
        decreases bs.len() - i,
    {
        let b = chars_of(bs[i].as_str());
        let linked = link_pdf_toc_block(&b, anchors);
        push_outline_block(out, depth, &linked);
        proof {
            assert(rest.take(i - from + 1).drop_last() =~= rest.take(i - from));
            assert(rest.take(i - from + 1).last() == b@);
            assert(out@ =~= old(out)@ + blocks_outline(rest.take(i - from + 1), depth as nat, anchors_view(*anchors)));
        }
        i += 1;
    }
    proof {
        assert(rest.take(i - from) =~= rest);
    }
}

fn push_chapter_outline(out: &mut Vec<char>, chapter: &BookChapter, anchors: &Anchors)
    ensures
        final(out)@ == old(out)@ + chapter_outline_spec(chapter_view(*chapter), anchors_view(*anchors)),
{
    let ghost cv = chapter_view(*chapter);
    proof {
        assert(chapter.blocks.deep_view().skip(0) =~= chapter.blocks.deep_view());
    }
    if chapter.generated_title {
        push_blocks_outline(out, &chapter.blocks, 0, 0, anchors);
        return;
    }
    let title = chars_of(chapter.title.as_str());
    let first_is_heading = if chapter.blocks.len() > 0 {
        let first = chars_of(chapter.blocks[0].as_str());
        is_same_heading_block(&first, &title)
    } else {
        false
    };
    if first_is_heading {
        let first = chars_of(chapter.blocks[0].as_str());
        push_outline_block(out, 0, &first);
        push_blocks_outline(out, &chapter.blocks, 1, 1, anchors);
        proof {
            assert(chapter.blocks.deep_view().skip(1) =~= chapter.blocks.deep_view().drop_first());
        }
    } else {
        let mut heading = chars_of("# ");
        push_all(&mut heading, &title);
        push_outline_block(out, 0, &heading);
        push_blocks_outline(out, &chapter.blocks, 0, 1, anchors);
    }
}

fn push_chapters_outline(out: &mut Vec<char>, chapters: &[BookChapter], anchors: &Anchors)
    ensures
        final(out)@ == old(out)@ + chapters_outline_scan(chapters_view(chapters@), anchors_view(*anchors)),
{
    let ghost cv = chapters_view(chapters@);
    let mut i: usize = 0;
    proof {
        assert(out@ =~= old(out)@ + chapters_outline_scan(cv.take(0), anchors_view(*anchors)));
    }
    while i < chapters.len()
        invariant
            i <= chapters.len(),
            cv == chapters_view(chapters@),
            out@ == old(out)@ + chapters_outline_scan(cv.take(i as int), anchors_view(*anchors)),
        decreases chapters.len() - i,
    {
        push_chapter_outline(out, &chapters[i], anchors);
        proof {
            assert(cv.take(i + 1).drop_last() =~= cv.take(i as int));
            assert(cv.take(i + 1).last() == chapter_view(chapters@[i as int]));
            assert(out@ =~= old(out)@ + chapters_outline_scan(cv.take(i + 1), anchors_view(*anchors)));
        }
        i += 1;
    }
    proof {
        assert(cv.take(i as int) =~= cv);
    }
}

/// The outline of the chapters, without table-of-contents links.
pub fn chapters_outline_markdown(chapters: &[BookChapter]) -> (r: String)
    ensures
        r@ == chapters_outline_spec(chapters_view(chapters@), seq![]),
{
    let anchors: Anchors = Vec::new();
    proof {
        assert(anchors_view(anchors) =~= Seq::<(Seq<char>, Seq<char>)>::empty());
    }
    let mut out: Vec<char> = Vec::new();
    push_chapters_outline(&mut out, chapters, &anchors);
    proof {
        assert(out@ =~= chapters_outline_scan(chapters_view(chapters@), seq![]));
    }
    if out.len() == 0 {
        out = chars_of("- Imported content was empty.\n");
    }
    string_of(&out)
}

/// The outline of the chapters, with table-of-contents entries linked to
/// the headings they name.
pub fn chapters_outline_markdown_with_toc_links(chapters: &[BookChapter]) -> (r: String)
    ensures
        r@ == chapters_outline_spec(chapters_view(chapters@), toc_anchors_spec(chapters_view(chapters@))),
{
    let anchors = pdf_toc_link_anchors(chapters);
    let mut out: Vec<char> = Vec::new();
    push_chapters_outline(&mut out, chapters, &anchors);
    proof {
        assert(out@ =~= chapters_outline_scan(chapters_view(chapters@), anchors_view(anchors)));
    }
    if out.len() == 0 {
        out = chars_of("- Imported content was empty.\n");
    }
    string_of(&out)
}

/// The notes about a conversion, each as a nested bullet.
pub open spec fn notes_outline(notes: Seq<Seq<char>>) -> Seq<char>
    decreases notes.len(),
{
    if notes.len() == 0 {
        seq![]
    } else {
        notes_outline(notes.drop_last()) + outline_block_spec(1, notes.last())
    }
}

/// The single page a book becomes: the linked outline of its chapters, then,
/// when there are any, its import notes under `Import notes`.
pub open spec fn single_page_spec(notes: Seq<Seq<char>>, cs: Seq<(Seq<char>, bool, Seq<Seq<char>>)>) -> Seq<char> {
    chapters_outline_spec(cs, toc_anchors_spec(cs)) + if notes.len() > 0 {
        "- Import notes\n"@ + notes_outline(notes)
    } else {
        seq![]
    }
}

/// The Markdown page a converted book is written as.
pub fn single_page_book_markdown(
    _title: &str,
    _source_file: &str,
    _format: BookFormat,
    _source_hash: &str,
    notes: &[String],
    chapters: &[BookChapter],
) -> (r: String)
    ensures
        r@ == single_page_spec(notes@.map_values(|n: String| n@), chapters_view(chapters@)),
{
    let outline = chapters_outline_markdown_with_toc_links(chapters);
    let mut out = chars_of(outline.as_str());
    let ghost nv = notes@.map_values(|n: String| n@);
    if notes.len() > 0 {
        push_str(&mut out, "- Import notes\n");
        let ghost head = out@;
        let mut i: usize = 0;
        proof {
            assert(out@ =~= head + notes_outline(nv.take(0)));
        }
        while i < notes.len()
            invariant
                i <= notes.len(),
                nv == notes@.map_values(|n: String| n@),
                out@ == head + notes_outline(nv.take(i as int)),
            decreases notes.len() - i,
        {
            let n = chars_of(notes[i].as_str());
            push_outline_block(&mut out, 1, &n);
            proof {
                assert(nv.take(i + 1).drop_last() =~= nv.take(i as int));
                assert(nv.take(i + 1).last() == n@);
                assert(out@ =~= head + notes_outline(nv.take(i + 1)));
            }
            i += 1;
        }
        proof {
            assert(nv.take(i as int) =~= nv);
        }
    } else {
        proof {
            assert(out@ + Seq::<char>::empty() =~= out@);
        }
    }
    string_of(&out)
}

} // verus!
