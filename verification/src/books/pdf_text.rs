//! Paragraphs from extracted text: blank-line splitting, re-joining lines a
//! PDF extractor wrapped, and splitting over-long blocks at sentence ends.
use vstd::prelude::*;
use crate::books::clean::{
    clean_block_chars, clean_block_spec, clean_import_block_chars, clean_import_block_spec,
    replace_str,
};
use crate::books::MAX_GENERATED_BLOCK_CHARS;
use crate::numbers::{parse_unsigned, parse_unsigned_exec};
use crate::patterns::{spec_split, split};
use crate::text::{
    chars_of, contains, contains_str, ends_with, ends_with_str, eq_ignore_ascii_case, eq_ignore_case,
    is_digit, lemma_chars_deep, lemma_push_deep, lemma_rfind_to, lines, lines_exec, push_all,
    replace, rfind, rfind_exec, slice, starts_with, starts_with_str, string_of, trim, trim_chars,
    trim_end, trim_start, trim_start_chars,
};
use crate::books::geometry::{split_once, split_once_exec};
use crate::unicode::{is_alphabetic, is_alphanumeric, is_uppercase, spec_is_alphabetic,
    spec_is_alphanumeric, spec_is_uppercase};

verus! {

/// Where an over-long block is cut: after the last `". "`, else after the
/// last `"; "`, else after the last `", "`, else at the last space, else at
/// the limit.
pub open spec fn split_point(prefix: Seq<char>) -> int {
    match rfind(prefix, ". "@) {
        Some(i) => i + 1,
        None => match rfind(prefix, "; "@) {
            Some(i) => i + 1,
            None => match rfind(prefix, ", "@) {
                Some(i) => i + 1,
                None => match rfind(prefix, " "@) {
                    Some(i) => i,
                    None => prefix.len() as int,
                },
            },
        },
    }
}

/// The pieces an over-long (trimmed, single-line) text is cut into.
pub open spec fn split_pieces(rem: Seq<char>) -> Seq<Seq<char>>
    decreases rem.len(),
{
    if rem.len() == 0 {
        seq![]
    } else if rem.len() <= MAX_GENERATED_BLOCK_CHARS {
        seq![trim(rem)]
    } else {
        let s = split_point(rem.take(MAX_GENERATED_BLOCK_CHARS as int));
        if s <= 0 || s > rem.len() {
            seq![trim(rem)]
        } else {
            let head = trim(rem.take(s));
            let tail = trim_start(rem.skip(s));
            proof {
                lemma_trim_start_shorter(rem.skip(s));
            }
            (if head.len() > 0 {
                seq![head]
            } else {
                seq![]
            }) + split_pieces(tail)
        }
    }
}

/// The blocks a text becomes: nothing when it cleans to empty; itself when
/// short or multi-line; otherwise the pieces of [`split_pieces`].
pub open spec fn split_blocks_spec(text: Seq<char>) -> Seq<Seq<char>> {
    let t = clean_import_block_spec(text);
    if t.len() == 0 {
        seq![]
    } else if t.len() <= MAX_GENERATED_BLOCK_CHARS || contains(t, "\n"@) {
        seq![t]
    } else {
        split_pieces(t)
    }
}

/// Trimming the start leaves a suffix of the text.
pub proof fn lemma_trim_start_shorter(s: Seq<char>)
    ensures
        trim_start(s).len() <= s.len(),
        trim_start(s) == s.skip(s.len() - trim_start(s).len()),
    decreases s.len(),
{
    if s.len() > 0 && crate::text::is_ws(s[0]) {
        lemma_trim_start_shorter(s.drop_first());
        assert(s.drop_first().skip(s.drop_first().len() - trim_start(s.drop_first()).len()) =~= s.skip(s.len() - trim_start(s).len()));
    } else {
        assert(s.skip(0) =~= s);
    }
}

fn split_point_exec(prefix: &Vec<char>) -> (r: usize)
    ensures
        r == split_point(prefix@),
        r <= prefix@.len(),
{
    proof {
        reveal_strlit(". ");
        reveal_strlit("; ");
        reveal_strlit(", ");
        reveal_strlit(" ");
    }
    let _n = prefix.len();
    let p1 = chars_of(". ");
    if let Some(i) = rfind_exec(prefix, &p1) {
        proof {
            assert(p1@.len() == 2);
            lemma_rfind_to(prefix@, p1@, prefix@.len() - 2);
        }
        return i + 1;
    }
    let p2 = chars_of("; ");
    if let Some(i) = rfind_exec(prefix, &p2) {
        proof {
            assert(p2@.len() == 2);
            lemma_rfind_to(prefix@, p2@, prefix@.len() - 2);
        }
        return i + 1;
    }
    let p3 = chars_of(", ");
    if let Some(i) = rfind_exec(prefix, &p3) {
        proof {
            assert(p3@.len() == 2);
            lemma_rfind_to(prefix@, p3@, prefix@.len() - 2);
        }
        return i + 1;
    }
    let p4 = chars_of(" ");
    if let Some(i) = rfind_exec(prefix, &p4) {
        proof {
            assert(p4@.len() == 1);
            lemma_rfind_to(prefix@, p4@, prefix@.len() - 1);
        }
        return i;
    }
    prefix.len()
}

/// Append the blocks `text` becomes.
pub fn push_split_blocks(blocks: &mut Vec<String>, text: &Vec<char>)
    ensures
        final(blocks).deep_view() == old(blocks).deep_view() + split_blocks_spec(text@),
{
    let t = clean_import_block_chars(text);
    if t.len() == 0 {
        proof {
            assert(blocks.deep_view() + Seq::<Seq<char>>::empty() =~= blocks.deep_view());
        }
        return;
    }
    if t.len() <= MAX_GENERATED_BLOCK_CHARS || contains_str(&t, "\n") {
        let ghost before = blocks.deep_view();
        blocks.push(string_of(&t));
        proof {
            assert(blocks.deep_view() =~= before + seq![t@]);
        }
        return;
    }
    let mut rem = t;
    let ghost start = blocks.deep_view();
    loop
        invariant
            start == old(blocks).deep_view(),
            blocks.deep_view() + split_pieces(rem@) == start + split_blocks_spec(text@),
        decreases rem@.len(),
    {
        if rem.len() == 0 {
            proof {
                assert(blocks.deep_view() + Seq::<Seq<char>>::empty() =~= blocks.deep_view());
            }
            return;
        }
        if rem.len() <= MAX_GENERATED_BLOCK_CHARS {
            let piece = trim_chars(&rem);
            let ghost before = blocks.deep_view();
            blocks.push(string_of(&piece));
            proof {
                assert(blocks.deep_view() =~= before + seq![piece@]);
            }
            return;
        }
        let prefix = slice(&rem, 0, MAX_GENERATED_BLOCK_CHARS);
        proof {
            assert(prefix@ =~= rem@.take(MAX_GENERATED_BLOCK_CHARS as int));
        }
        let s = split_point_exec(&prefix);
        if s == 0 {
            let piece = trim_chars(&rem);
            let ghost before = blocks.deep_view();
            blocks.push(string_of(&piece));
            proof {
                assert(blocks.deep_view() =~= before + seq![piece@]);
            }
            return;
        }
        let head_raw = slice(&rem, 0, s);
        let head = trim_chars(&head_raw);
        let tail_raw = slice(&rem, s, rem.len());
        let tail = trim_start_chars(&tail_raw);
        proof {
            assert(head_raw@ =~= rem@.take(s as int));
            assert(tail_raw@ =~= rem@.skip(s as int));
            lemma_trim_start_shorter(tail_raw@);
        }
        let ghost before = blocks.deep_view();
        if head.len() > 0 {
            blocks.push(string_of(&head));
            proof {
                assert(blocks.deep_view() =~= before + seq![head@]);
                assert(before + (seq![head@] + split_pieces(tail@)) =~= blocks.deep_view() + split_pieces(tail@));
            }
        } else {
            proof {
                assert(before + (Seq::<Seq<char>>::empty() + split_pieces(tail@)) =~= blocks.deep_view() + split_pieces(tail@));
            }
        }
        rem = tail;
    }
}

/// Join one more extracted line onto a paragraph: a trailing hyphen (not a
/// spaced dash) is a word broken across lines, otherwise lines are joined
/// with a space.
pub open spec fn append_line_spec(par: Seq<char>, line: Seq<char>) -> Seq<char> {
    let l = trim(line);
    if l.len() == 0 {
        par
    } else if par.len() == 0 {
        l
    } else if ends_with(par, "-"@) && !ends_with(par, " -"@) {
        par.drop_last() + l
    } else {
        par + " "@ + l
    }
}

/// A paragraph whose last character is a hyphen with no space before it.
pub open spec fn ends_in_broken_word(par: Seq<char>) -> bool {
    par.len() > 0 && par.last() == '-' && (par.len() == 1 || par[par.len() - 2] != ' ')
}

/// Appending a line: a blank line changes nothing; onto an empty paragraph
/// the trimmed line is the paragraph; onto a paragraph that ends in a hyphen
/// with no space before it the hyphen is removed and the trimmed line follows
/// directly, with no space (a word broken across lines is whole again);
/// otherwise one space separates the paragraph from the trimmed line.
pub proof fn lemma_append_line_rejoins_words(par: Seq<char>, line: Seq<char>)
    ensures
        trim(line).len() == 0 ==> append_line_spec(par, line) == par,
        trim(line).len() > 0 && par.len() == 0 ==> append_line_spec(par, line) == trim(line),
        trim(line).len() > 0 && ends_in_broken_word(par) ==> append_line_spec(par, line)
            == par.take(par.len() - 1) + trim(line),
        trim(line).len() > 0 && par.len() > 0 && !ends_in_broken_word(par) ==> append_line_spec(
            par,
            line,
        ) == par + seq![' '] + trim(line),
{
    reveal_strlit("-");
    reveal_strlit(" -");
    reveal_strlit(" ");
    if par.len() > 0 {
        let n = par.len();
        assert(ends_with(par, "-"@) <==> par.last() == '-') by {
            if par.last() == '-' {
                assert(par.skip(n - 1) =~= "-"@);
            }
            if ends_with(par, "-"@) {
                assert(par.skip(n - 1)[0] == par.last());
            }
        }
        assert(ends_with(par, " -"@) <==> (n >= 2 && par[n - 2] == ' ' && par.last() == '-')) by {
            if n >= 2 && par[n - 2] == ' ' && par.last() == '-' {
                assert(par.skip(n - 2) =~= " -"@);
            }
            if ends_with(par, " -"@) {
                assert(par.skip(n - 2)[0] == par[n - 2]);
                assert(par.skip(n - 2)[1] == par.last());
            }
        }
        assert(par.drop_last() =~= par.take(n - 1));
        assert(" "@ =~= seq![' ']);
    }
}

pub fn append_pdf_line(paragraph: &mut Vec<char>, line: &Vec<char>)
    ensures
        final(paragraph)@ == append_line_spec(old(paragraph)@, line@),
{
    proof {
        reveal_strlit("-");
        reveal_strlit(" ");
    }
    let l = trim_chars(line);
    if l.len() == 0 {
        return;
    }
    if paragraph.len() == 0 {
        push_all(paragraph, &l);
        proof {
            assert(paragraph@ =~= l@);
        }
        return;
    }
    if ends_with_str(paragraph, "-") && !ends_with_str(paragraph, " -") {
        paragraph.pop();
        push_all(paragraph, &l);
    } else {
        paragraph.push(' ');
        push_all(paragraph, &l);
    }
}

/// The text of a PDF paragraph: its non-blank trimmed lines joined with
/// [`append_line_spec`], then cleaned.
pub open spec fn unwrap_scan(ls: Seq<Seq<char>>) -> Seq<char>
    decreases ls.len(),
{
    if ls.len() == 0 {
        seq![]
    } else {
        let t = trim(ls.last());
        if t.len() == 0 {
            unwrap_scan(ls.drop_last())
        } else {
            append_line_spec(unwrap_scan(ls.drop_last()), t)
        }
    }
}

pub open spec fn unwrap_pdf_paragraph_spec(raw: Seq<char>) -> Seq<char> {
    clean_block_spec(unwrap_scan(lines(raw)))
}

pub fn unwrap_pdf_paragraph(raw: &Vec<char>) -> (r: Vec<char>)
    ensures
        r@ == unwrap_pdf_paragraph_spec(raw@),
{
    let ls = lines_exec(raw);
    let mut out: Vec<char> = Vec::new();
    let mut i: usize = 0;
    while i < ls.len()
        invariant
            i <= ls.len(),
            out@ == unwrap_scan(ls.deep_view().take(i as int)),
        decreases ls.len() - i,
    {
        let t = trim_chars(&ls[i]);
        proof {
            lemma_chars_deep(&ls@[i as int]);
            assert(ls.deep_view().take(i + 1).drop_last() =~= ls.deep_view().take(i as int));
            assert(ls.deep_view().take(i + 1).last() == ls@[i as int]@);
        }
        if t.len() > 0 {
            append_pdf_line(&mut out, &t);
            proof {
                assert(trim(t@) == t@) by {
                    crate::books::pdf_text::lemma_trim_idem(ls@[i as int]@);
                }
            }
        }
        i += 1;
    }
    proof {
        assert(ls.deep_view().take(i as int) =~= ls.deep_view());
    }
    clean_block_chars(&out)
}

/// Trimming twice is trimming once.
pub proof fn lemma_trim_idem(s: Seq<char>)
    ensures
        trim(trim(s)) == trim(s),
{
    lemma_trim_start_idem(s);
    lemma_trim_end_of_trimmed_start(trim_start(s));
    lemma_trim_end_idem(trim_start(s));
}

proof fn lemma_trim_start_idem(s: Seq<char>)
    ensures
        trim_start(trim_start(s)) == trim_start(s),
        trim_start(s).len() > 0 ==> !crate::text::is_ws(trim_start(s)[0]),
    decreases s.len(),
{
    if s.len() > 0 && crate::text::is_ws(s[0]) {
        lemma_trim_start_idem(s.drop_first());
    }
}

proof fn lemma_trim_end_idem(s: Seq<char>)
    ensures
        trim_end(trim_end(s)) == trim_end(s),
        trim_end(s).len() > 0 ==> !crate::text::is_ws(trim_end(s).last()),
    decreases s.len(),
{
    if s.len() > 0 && crate::text::is_ws(s.last()) {
        lemma_trim_end_idem(s.drop_last());
    }
}

/// Trimming the end keeps a non-white first character in front.
proof fn lemma_trim_end_of_trimmed_start(s: Seq<char>)
    requires
        s.len() > 0 ==> !crate::text::is_ws(s[0]),
    ensures
        trim_start(trim_end(s)) == trim_end(s),
        trim_end(s).len() > 0 ==> trim_end(s)[0] == s[0],
        trim_end(s).len() <= s.len(),
        trim_end(s) == s.take(trim_end(s).len() as int),
    decreases s.len(),
{
    if s.len() > 0 && crate::text::is_ws(s.last()) {
        if s.len() == 1 {
            assert(s.drop_last().len() == 0);
        } else {
            lemma_trim_end_of_trimmed_start(s.drop_last());
            assert(s.drop_last().take(trim_end(s).len() as int) =~= s.take(trim_end(s).len() as int));
        }
    } else {
        assert(s.take(s.len() as int) =~= s);
    }
}

/// Blocks that stand alone: headings, images and multi-line tables.
pub open spec fn is_boundary_block(block: Seq<char>) -> bool {
    let t = trim(block);
    starts_with(t, "#"@) || starts_with(t, "!["@) || (starts_with(t, "|"@) && contains(t, "\n"@))
}

pub fn is_pdf_boundary_block(block: &Vec<char>) -> (r: bool)
    ensures
        r == is_boundary_block(block@),
{
    let t = trim_chars(block);
    starts_with_str(&t, "#") || starts_with_str(&t, "![") || (starts_with_str(&t, "|")
        && contains_str(&t, "\n"))
}

/// Number of leading ASCII digits.
pub open spec fn leading_digits(s: Seq<char>) -> nat
    decreases s.len(),
{
    if s.len() > 0 && is_digit(s[0]) {
        1 + leading_digits(s.drop_first())
    } else {
        0
    }
}

/// A bulleted (`- `, `* `) or numbered (`1.`, `1)`) list item.
pub open spec fn looks_like_list_item_spec(text: Seq<char>) -> bool {
    let t = trim_start(text);
    let d = leading_digits(t);
    starts_with(t, "- "@) || starts_with(t, "* "@) || (d > 0 && d < t.len() && (t[d as int] == '.'
        || t[d as int] == ')'))
}

pub fn looks_like_list_item(text: &Vec<char>) -> (r: bool)
    ensures
        r == looks_like_list_item_spec(text@),
{
    let t = trim_start_chars(text);
    if starts_with_str(&t, "- ") || starts_with_str(&t, "* ") {
        return true;
    }
    let mut d: usize = 0;
    proof {
        assert(t@.skip(0) =~= t@);
    }
    while d < t.len() && '0' <= t[d] && t[d] <= '9'
        invariant
            d <= t.len(),
            leading_digits(t@) == d + leading_digits(t@.skip(d as int)),
        decreases t.len() - d,
    {
        proof {
            assert(t@.skip(d as int).drop_first() =~= t@.skip(d + 1));
        }
        d += 1;
    }
    proof {
        assert(leading_digits(t@.skip(d as int)) == 0);
    }
    d > 0 && d < t.len() && (t[d] == '.' || t[d] == ')')
}

/// Number of characters satisfying the named alphabetic property.
pub open spec fn count_alpha(s: Seq<char>) -> nat
    decreases s.len(),
{
    if s.len() == 0 {
        0
    } else {
        count_alpha(s.drop_last()) + if spec_is_alphabetic(s.last()) {
            1nat
        } else {
            0
        }
    }
}

/// Number of alphabetic upper-case characters.
pub open spec fn count_upper(s: Seq<char>) -> nat
    decreases s.len(),
{
    if s.len() == 0 {
        0
    } else {
        count_upper(s.drop_last()) + if spec_is_alphabetic(s.last()) && spec_is_uppercase(
            s.last(),
        ) {
            1nat
        } else {
            0
        }
    }
}

pub fn count_alpha_upper(s: &Vec<char>) -> (r: (usize, usize))
    ensures
        r.0 == count_alpha(s@),
        r.1 == count_upper(s@),
        r.1 <= r.0 <= s@.len(),
{
    let mut a: usize = 0;
    let mut u: usize = 0;
    let mut i: usize = 0;
    while i < s.len()
        invariant
            i <= s.len(),
            a == count_alpha(s@.take(i as int)),
            u == count_upper(s@.take(i as int)),
            u <= a <= i,
        decreases s.len() - i,
    {
        proof {
            assert(s@.take(i + 1).drop_last() =~= s@.take(i as int));
            assert(s@.take(i + 1).last() == s@[i as int]);
        }
        let c = s[i];
        if is_alphabetic(c) {
            a += 1;
            if is_uppercase(c) {
                u += 1;
            }
        }
        i += 1;
    }
    proof {
        assert(s@.take(i as int) =~= s@);
    }
    (a, u)
}

/// Whether the text ends with one of `. , ; :`.
pub open spec fn ends_with_clause_punct(t: Seq<char>) -> bool {
    t.len() > 0 && (t.last() == '.' || t.last() == ',' || t.last() == ';' || t.last() == ':')
}

/// A short, mostly upper-case line without closing punctuation.
pub open spec fn looks_like_pdf_heading_line_spec(text: Seq<char>) -> bool {
    let t = trim(text);
    4 <= t.len() <= 90 && !ends_with_clause_punct(t) && count_alpha(t) >= 3 && count_upper(t) * 2
        >= count_alpha(t)
}

pub fn looks_like_pdf_heading_line(text: &Vec<char>) -> (r: bool)
    ensures
        r == looks_like_pdf_heading_line_spec(text@),
{
    let t = trim_chars(text);
    let n = t.len();
    if n < 4 || n > 90 {
        return false;
    }
    let last = t[n - 1];
    if last == '.' || last == ',' || last == ';' || last == ':' {
        return false;
    }
    let (alpha, upper) = count_alpha_upper(&t);
    if alpha < 3 {
        return false;
    }
    upper * 2 >= alpha
}

/// Whether the (end-trimmed) text closes a sentence.
pub open spec fn ends_sentence_spec(text: Seq<char>) -> bool {
    let t = trim_end(text);
    t.len() > 0 && (t.last() == '.' || t.last() == '!' || t.last() == '?' || t.last() == '"'
        || t.last() == '\'' || t.last() == ')' || t.last() == ']')
}

pub fn ends_sentence(text: &Vec<char>) -> (r: bool)
    ensures
        r == ends_sentence_spec(text@),
{
    let t = crate::text::trim_end_chars(text);
    if t.len() == 0 {
        return false;
    }
    let c = t[t.len() - 1];
    c == '.' || c == '!' || c == '?' || c == '"' || c == '\'' || c == ')' || c == ']'
}

/// A new paragraph starts when the current one is already at the block limit,
/// when the next line is a list item or heading-like, or when the current one
/// is long (160 characters) and ends a sentence.
pub open spec fn should_start_new_spec(current: Seq<char>, next: Seq<char>) -> bool {
    if current.len() >= MAX_GENERATED_BLOCK_CHARS {
        true
    } else if looks_like_list_item_spec(trim(next)) || looks_like_pdf_heading_line_spec(trim(next)) {
        true
    } else {
        current.len() >= 160 && ends_sentence_spec(current)
    }
}

pub fn should_start_new_pdf_paragraph(current: &Vec<char>, next: &Vec<char>) -> (r: bool)
    ensures
        r == should_start_new_spec(current@, next@),
{
    if current.len() >= MAX_GENERATED_BLOCK_CHARS {
        return true;
    }
    let n = trim_chars(next);
    if looks_like_list_item(&n) || looks_like_pdf_heading_line(&n) {
        return true;
    }
    current.len() >= 160 && ends_sentence(current)
}

/// Flush a paragraph: its cleaned text, split into blocks, when non-empty.
pub open spec fn flush_spec(out: Seq<Seq<char>>, par: Seq<char>) -> Seq<Seq<char>> {
    let c = clean_block_spec(par);
    if c.len() > 0 {
        out + split_blocks_spec(c)
    } else {
        out
    }
}

fn flush_pdf_paragraph(out: &mut Vec<String>, paragraph: &mut Vec<char>)
    ensures
        final(out).deep_view() == flush_spec(old(out).deep_view(), old(paragraph)@),
        final(paragraph)@.len() == 0,
{
    let c = clean_block_chars(paragraph);
    if c.len() > 0 {
        push_split_blocks(out, &c);
    }
    paragraph.clear();
}

/// Scan state of [`merge_pdf_line_blocks`]: blocks emitted so far and the
/// paragraph being assembled.
pub open spec fn merge_scan(blocks: Seq<Seq<char>>) -> (Seq<Seq<char>>, Seq<char>)
    decreases blocks.len(),
{
    if blocks.len() == 0 {
        (seq![], seq![])
    } else {
        let (merged, par) = merge_scan(blocks.drop_last());
        let b = clean_import_block_spec(blocks.last());
        if b.len() == 0 {
            (merged, par)
        } else if is_boundary_block(b) {
            (flush_spec(merged, par).push(b), seq![])
        } else if par.len() == 0 {
            (merged, b)
        } else if should_start_new_spec(par, b) {
            (flush_spec(merged, par), b)
        } else {
            (merged, append_line_spec(par, b))
        }
    }
}

/// Re-join visual lines a PDF converter emitted as separate blocks into
/// paragraphs; headings, images and tables stay separate.
pub open spec fn merge_pdf_line_blocks_spec(blocks: Seq<Seq<char>>) -> Seq<Seq<char>> {
    let (merged, par) = merge_scan(blocks);
    flush_spec(merged, par)
}

pub fn merge_pdf_line_blocks(blocks: Vec<String>) -> (r: Vec<String>)
    ensures
        r.deep_view() == merge_pdf_line_blocks_spec(blocks.deep_view()),
{
    let mut merged: Vec<String> = Vec::new();
    let mut paragraph: Vec<char> = Vec::new();
    let mut i: usize = 0;
    proof {
        assert(merged.deep_view() =~= Seq::<Seq<char>>::empty());
        assert(blocks.deep_view().take(0) =~= Seq::<Seq<char>>::empty());
    }
    while i < blocks.len()
        invariant
            i <= blocks.len(),
            (merged.deep_view(), paragraph@) == merge_scan(blocks.deep_view().take(i as int)),
        decreases blocks.len() - i,
    {
        proof {
            assert(blocks.deep_view().take(i + 1).drop_last() =~= blocks.deep_view().take(i as int));
            assert(blocks.deep_view().take(i + 1).last() == blocks@[i as int]@);
        }
        let raw = chars_of(blocks[i].as_str());
        let b = clean_import_block_chars(&raw);
        if b.len() == 0 {
        } else if is_pdf_boundary_block(&b) {
            flush_pdf_paragraph(&mut merged, &mut paragraph);
            let ghost before = merged.deep_view();
            merged.push(string_of(&b));
            proof {
                assert(merged.deep_view() =~= before.push(b@));
                assert(paragraph@ =~= Seq::<char>::empty());
            }
        } else if paragraph.len() == 0 {
            paragraph = b;
        } else if should_start_new_pdf_paragraph(&paragraph, &b) {
            flush_pdf_paragraph(&mut merged, &mut paragraph);
            paragraph = b;
        } else {
            append_pdf_line(&mut paragraph, &b);
        }
        i += 1;
    }
    proof {
        assert(blocks.deep_view().take(i as int) =~= blocks.deep_view());
    }
    flush_pdf_paragraph(&mut merged, &mut paragraph);
    merged
}

/// Blocks from a paragraph-per-blank-line text, each cleaned to one line.
pub open spec fn text_to_blocks_scan(ps: Seq<Seq<char>>) -> Seq<Seq<char>>
    decreases ps.len(),
{
    if ps.len() == 0 {
        seq![]
    } else {
        let c = clean_block_spec(ps.last());
        text_to_blocks_scan(ps.drop_last()) + if c.len() > 0 {
            split_blocks_spec(c)
        } else {
            seq![]
        }
    }
}

pub open spec fn text_to_blocks_spec(raw: Seq<char>) -> Seq<Seq<char>> {
    text_to_blocks_scan(spec_split("\\n\\s*\\n+"@, raw))
}

pub fn text_to_blocks(raw: &str) -> (r: Vec<String>)
    ensures
        r.deep_view() == text_to_blocks_spec(raw@),
{
    let ps = split("\\n\\s*\\n+", raw);
    let mut blocks: Vec<String> = Vec::new();
    let mut i: usize = 0;
    proof {
        assert(blocks.deep_view() =~= Seq::<Seq<char>>::empty());
    }
    while i < ps.len()
        invariant
            i <= ps.len(),
            blocks.deep_view() == text_to_blocks_scan(ps.deep_view().take(i as int)),
        decreases ps.len() - i,
    {
        proof {
            assert(ps.deep_view().take(i + 1).drop_last() =~= ps.deep_view().take(i as int));
            assert(ps.deep_view().take(i + 1).last() == ps@[i as int]@);
        }
        let p = chars_of(ps[i].as_str());
        let c = clean_block_chars(&p);
        if c.len() > 0 {
            push_split_blocks(&mut blocks, &c);
        } else {
            proof {
                assert(blocks.deep_view() + Seq::<Seq<char>>::empty() =~= blocks.deep_view());
            }
        }
        i += 1;
    }
    proof {
        assert(ps.deep_view().take(i as int) =~= ps.deep_view());
    }
    blocks
}

/// Blocks from text a PDF extractor produced: form feeds separate pages, and
/// each paragraph's wrapped lines are re-joined.
pub open spec fn pdf_blocks_scan(ps: Seq<Seq<char>>) -> Seq<Seq<char>>
    decreases ps.len(),
{
    if ps.len() == 0 {
        seq![]
    } else {
        let c = unwrap_pdf_paragraph_spec(ps.last());
        pdf_blocks_scan(ps.drop_last()) + if c.len() > 0 {
            split_blocks_spec(c)
        } else {
            seq![]
        }
    }
}

pub open spec fn pdf_text_to_blocks_spec(raw: Seq<char>) -> Seq<Seq<char>> {
    pdf_blocks_scan(spec_split("\\n\\s*\\n+"@, replace(raw, "\x0c"@, "\n\n"@)))
}

pub fn pdf_text_to_blocks(raw: &str) -> (r: Vec<String>)
    ensures
        r.deep_view() == pdf_text_to_blocks_spec(raw@),
{
    proof {
        reveal_strlit("\x0c");
    }
    let v = chars_of(raw);
    let text = replace_str(&v, "\x0c", "\n\n");
    let ts = string_of(&text);
    let ps = split("\\n\\s*\\n+", ts.as_str());
    let mut blocks: Vec<String> = Vec::new();
    let mut i: usize = 0;
    proof {
        assert(blocks.deep_view() =~= Seq::<Seq<char>>::empty());
    }
    while i < ps.len()
        invariant
            i <= ps.len(),
            blocks.deep_view() == pdf_blocks_scan(ps.deep_view().take(i as int)),
        decreases ps.len() - i,
    {
        proof {
            assert(ps.deep_view().take(i + 1).drop_last() =~= ps.deep_view().take(i as int));
            assert(ps.deep_view().take(i + 1).last() == ps@[i as int]@);
        }
        let p = chars_of(ps[i].as_str());
        let c = unwrap_pdf_paragraph(&p);
        if c.len() > 0 {
            push_split_blocks(&mut blocks, &c);
        } else {
            proof {
                assert(blocks.deep_view() + Seq::<Seq<char>>::empty() =~= blocks.deep_view());
            }
        }
        i += 1;
    }
    proof {
        assert(ps.deep_view().take(i as int) =~= ps.deep_view());
    }
    blocks
}

/// Number of alphanumeric characters over all blocks.
pub open spec fn count_alnum(s: Seq<char>) -> nat
    decreases s.len(),
{
    if s.len() == 0 {
        0
    } else {
        count_alnum(s.drop_last()) + if spec_is_alphanumeric(s.last()) {
            1nat
        } else {
            0
        }
    }
}

pub open spec fn count_alnum_blocks(bs: Seq<Seq<char>>) -> nat
    decreases bs.len(),
{
    if bs.len() == 0 {
        0
    } else {
        count_alnum_blocks(bs.drop_last()) + count_alnum(bs.last())
    }
}

/// Blocks carry readable text when they hold at least 40 alphanumeric
/// characters.
pub open spec fn readable_text_blocks_spec(bs: Seq<Seq<char>>) -> bool {
    count_alnum_blocks(bs) >= 40
}

pub fn readable_text_blocks(blocks: &[String]) -> (r: bool)
    ensures
        r == readable_text_blocks_spec(blocks@.map_values(|b: String| b@)),
{
    let ghost bv = blocks@.map_values(|b: String| b@);
    let mut total: usize = 0;
    let mut i: usize = 0;
    while i < blocks.len()
        invariant
            i <= blocks.len(),
            bv == blocks@.map_values(|b: String| b@),
            total == count_alnum_blocks(bv.take(i as int)) || (total >= 40 && count_alnum_blocks(bv.take(i as int)) >= 40),
            total <= 40,
        decreases blocks.len() - i,
    {
        let b = chars_of(blocks[i].as_str());
        let mut j: usize = 0;
        let ghost prev = count_alnum_blocks(bv.take(i as int));
        while j < b.len()
            invariant
                j <= b.len(),
                total == prev + count_alnum(b@.take(j as int)) || (total >= 40 && prev + count_alnum(b@.take(j as int)) >= 40),
                total <= 40,
            decreases b.len() - j,
        {
            proof {
                assert(b@.take(j + 1).drop_last() =~= b@.take(j as int));
                assert(b@.take(j + 1).last() == b@[j as int]);
            }
            if total < 40 && is_alphanumeric(b[j]) {
                total += 1;
            }
            j += 1;
        }
        proof {
            assert(b@.take(j as int) =~= b@);
            assert(bv.take(i + 1).drop_last() =~= bv.take(i as int));
            assert(bv.take(i + 1).last() == b@);
        }
        i += 1;
    }
    proof {
        assert(bv.take(i as int) =~= bv);
    }
    total >= 40
}

/// The page count `pdfinfo` reports: the value of the first `Pages:` line
/// (key compared ignoring ASCII case) that parses as a number.
pub open spec fn pdfinfo_line_count(line: Seq<char>) -> Option<nat> {
    match split_once(line, ':') {
        None => None,
        Some((key, value)) => if eq_ignore_case(trim(key), "Pages"@) {
            parse_unsigned(trim(value), usize::MAX as nat)
        } else {
            None
        },
    }
}

pub open spec fn pdfinfo_scan(ls: Seq<Seq<char>>) -> Option<nat>
    decreases ls.len(),
{
    if ls.len() == 0 {
        None
    } else {
        match pdfinfo_line_count(ls[0]) {
            Some(n) => Some(n),
            None => pdfinfo_scan(ls.drop_first()),
        }
    }
}

pub fn parse_pdfinfo_page_count(output: &str) -> (r: Option<usize>)
    ensures
        match r {
            Some(n) => pdfinfo_scan(lines(output@)) == Some(n as nat),
            None => pdfinfo_scan(lines(output@)) is None,
        },
{
    let v = chars_of(output);
    let ls = lines_exec(&v);
    let pages = chars_of("Pages");
    let mut i: usize = 0;
    proof {
        assert(ls.deep_view().skip(0) =~= ls.deep_view());
    }
    while i < ls.len()
        invariant
            i <= ls.len(),
            pages@ == "Pages"@,
            ls.deep_view() == lines(output@),
            pdfinfo_scan(ls.deep_view()) == pdfinfo_scan(ls.deep_view().skip(i as int)),
        decreases ls.len() - i,
    {
        proof {
            lemma_chars_deep(&ls@[i as int]);
            assert(ls.deep_view().skip(i as int)[0] == ls@[i as int]@);
            assert(ls.deep_view().skip(i as int).drop_first() =~= ls.deep_view().skip(i + 1));
        }
        if let Some((key, value)) = split_once_exec(&ls[i], ':') {
            let k = trim_chars(&key);
            if eq_ignore_ascii_case(&k, &pages) {
                let val = trim_chars(&value);
                proof {
                    assert((usize::MAX as u64) as nat == usize::MAX as nat);
                }
                if let Some(n) = parse_unsigned_exec(&val, usize::MAX as u64) {
                    proof {
                        assert(trim(key@) == k@);
                        assert(pdfinfo_line_count(ls@[i as int]@) == Some(n as nat));
                        assert(pdfinfo_scan(ls.deep_view().skip(i as int)) == Some(n as nat));
                        assert(n <= usize::MAX);
                    }
                    return Some(n as usize);
                }
            }
        }
        i += 1;
    }
    None
}

} // verus!
