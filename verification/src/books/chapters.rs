//! Splitting converted book text into chapters at section headings. When
//! the book carries a table of contents, only headings it lists (or the
//! usual front- and back-matter headings) may open a chapter.
use vstd::prelude::*;
use crate::books::{BookChapter, BookDocument};
use crate::books::clean::{
    clean_block_chars, clean_block_spec, clean_import_block_chars, clean_import_block_spec,
    clean_title_chars, clean_title_spec, replace_str,
};
use crate::books::pdf_text::{
    count_alpha, count_alpha_upper, count_upper, ends_with_clause_punct,
};
use crate::patterns::{is_match, spec_is_match};
use crate::text::{
    chars_of, contains, contains_exec, seq_eq, contains_str, eq_ignore_ascii_case, eq_ignore_case, eq_str,
    is_digit, is_whitespace, is_ws, join, join_exec, lemma_chars_deep, lemma_push_deep, lemma_rfind_to,
    lines, lines_exec, push_all, push_str, replace, rfind, rfind_exec, slice, split_char,
    split_char_exec, starts_with, starts_with_str, ends_with, ends_with_str, string_of, trim,
    trim_chars, trim_set, trim_set_chars, trim_start, trim_start_chars, words, words_exec,
};
use crate::unicode::{char_lowercase, is_alphanumeric, spec_char_lowercase, spec_is_alphanumeric};

verus! {

/// A lower-case Roman numeral written with `i v x l c d m`.
pub open spec fn is_roman_numeral_spec(w: Seq<char>) -> bool {
    w.len() > 0 && forall|i: int| 0 <= i < w.len() ==> #[trigger] roman_char(w[i])
}

pub open spec fn roman_char(c: char) -> bool {
    c == 'i' || c == 'v' || c == 'x' || c == 'l' || c == 'c' || c == 'd' || c == 'm'
}

pub fn is_roman_numeral(word: &Vec<char>) -> (r: bool)
    ensures
        r == is_roman_numeral_spec(word@),
{
    if word.len() == 0 {
        return false;
    }
    let mut i: usize = 0;
    while i < word.len()
        invariant
            i <= word.len(),
            forall|k: int| 0 <= k < i ==> #[trigger] roman_char(word@[k]),
        decreases word.len() - i,
    {
        let c = word[i];
        if !(c == 'i' || c == 'v' || c == 'x' || c == 'l' || c == 'c' || c == 'd' || c == 'm') {
            proof {
                assert(!roman_char(word@[i as int]));
            }
            return false;
        }
        i += 1;
    }
    true
}

/// Every character is an ASCII digit.
pub open spec fn all_ascii_digits(w: Seq<char>) -> bool {
    forall|i: int| 0 <= i < w.len() ==> #[trigger] is_digit(w[i])
}

/// Words a chapter title may start with that do not name the chapter:
/// `chapter`, `chap`, `part`, `section`, `the`, `book`, a number or a Roman
/// numeral.
pub open spec fn is_title_prefix_word(w: Seq<char>) -> bool {
    ||| w == "chapter"@
    ||| w == "chap"@
    ||| w == "part"@
    ||| w == "section"@
    ||| w == "the"@
    ||| w == "book"@
    ||| all_ascii_digits(w)
    ||| is_roman_numeral_spec(w)
}

fn all_ascii_digits_exec(w: &Vec<char>) -> (r: bool)
    ensures
        r == all_ascii_digits(w@),
{
    let mut i: usize = 0;
    while i < w.len()
        invariant
            i <= w.len(),
            forall|k: int| 0 <= k < i ==> #[trigger] is_digit(w@[k]),
        decreases w.len() - i,
    {
        if !('0' <= w[i] && w[i] <= '9') {
            proof {
                assert(!is_digit(w@[i as int]));
            }
            return false;
        }
        i += 1;
    }
    true
}

pub fn is_pdf_chapter_title_prefix_word(word: &Vec<char>) -> (r: bool)
    ensures
        r == is_title_prefix_word(word@),
{
    eq_str(word, "chapter") || eq_str(word, "chap") || eq_str(word, "part") || eq_str(word, "section")
        || eq_str(word, "the") || eq_str(word, "book") || all_ascii_digits_exec(word)
        || is_roman_numeral(word)
}

/// What one character contributes to a title key: its lower-case form when
/// alphanumeric, ` and ` for `&`, a space otherwise.
pub open spec fn key_char(c: char) -> Seq<char> {
    if spec_is_alphanumeric(c) {
        spec_char_lowercase(c)
    } else if c == '&' {
        " and "@
    } else {
        " "@
    }
}

pub open spec fn key_chars(s: Seq<char>) -> Seq<char>
    decreases s.len(),
{
    if s.len() == 0 {
        seq![]
    } else {
        key_chars(s.drop_last()) + key_char(s.last())
    }
}

/// The words left once the leading chapter-prefix words are dropped.
pub open spec fn drop_prefix_words(ws: Seq<Seq<char>>) -> Seq<Seq<char>>
    decreases ws.len(),
{
    if ws.len() > 0 && is_title_prefix_word(ws[0]) {
        drop_prefix_words(ws.drop_first())
    } else {
        ws
    }
}

/// The key a chapter title is compared by: the cleaned title lower-cased,
/// `&` read as `and`, punctuation read as spaces, words single-spaced, and
/// leading `Chapter 3`, `Part II`, `The` and the like dropped.
pub open spec fn title_key_spec(title: Seq<char>) -> Seq<char> {
    join(drop_prefix_words(words(key_chars(clean_block_spec(title)))), " "@)
}

pub fn pdf_chapter_title_key(title: &Vec<char>) -> (r: Vec<char>)
    ensures
        r@ == title_key_spec(title@),
{
    let cleaned = clean_block_chars(title);
    let mut normalized: Vec<char> = Vec::new();
    let mut i: usize = 0;
    while i < cleaned.len()
        invariant
            i <= cleaned.len(),
            normalized@ == key_chars(cleaned@.take(i as int)),
        decreases cleaned.len() - i,
    {
        let c = cleaned[i];
        proof {
            assert(cleaned@.take(i + 1).drop_last() =~= cleaned@.take(i as int));
            assert(cleaned@.take(i + 1).last() == c);
        }
        if is_alphanumeric(c) {
            let low = char_lowercase(c);
            push_all(&mut normalized, &low);
        } else if c == '&' {
            push_str(&mut normalized, " and ");
        } else {
            push_str(&mut normalized, " ");
        }
        i += 1;
    }
    proof {
        assert(cleaned@.take(i as int) =~= cleaned@);
    }
    let ws = words_exec(&normalized);
    let mut start: usize = 0;
    proof {
        assert(ws.deep_view().skip(0) =~= ws.deep_view());
    }
    while start < ws.len() && is_pdf_chapter_title_prefix_word(&ws[start])
        invariant
            start <= ws.len(),
            drop_prefix_words(ws.deep_view()) == drop_prefix_words(ws.deep_view().skip(start as int)),
        decreases ws.len() - start,
    {
        proof {
            lemma_chars_deep(&ws@[start as int]);
            assert(ws.deep_view().skip(start as int)[0] == ws@[start as int]@);
            assert(ws.deep_view().skip(start as int).drop_first() =~= ws.deep_view().skip(start + 1));
        }
        start += 1;
    }
    proof {
        if start < ws.len() {
            lemma_chars_deep(&ws@[start as int]);
            assert(ws.deep_view().skip(start as int)[0] == ws@[start as int]@);
        }
    }
    let mut kept: Vec<Vec<char>> = Vec::new();
    let mut k: usize = start;
    proof {
        assert(kept.deep_view() =~= ws.deep_view().subrange(start as int, start as int));
    }
    while k < ws.len()
        invariant
            start <= k <= ws.len(),
            kept.deep_view() == ws.deep_view().subrange(start as int, k as int),
        decreases ws.len() - k,
    {
        let ghost before = kept.deep_view();
        let w = slice(&ws[k], 0, ws[k].len());
        kept.push(w);
        proof {
            lemma_push_deep(before, &kept, w@);
            lemma_chars_deep(&ws@[k as int]);
            assert(w@ =~= ws@[k as int]@);
            assert(ws.deep_view().subrange(start as int, k + 1) =~= ws.deep_view().subrange(
                start as int,
                k as int,
            ).push(ws.deep_view()[k as int]));
        }
        k += 1;
    }
    proof {
        assert(ws.deep_view().subrange(start as int, k as int) =~= ws.deep_view().skip(start as int));
    }
    let sep = chars_of(" ");
    join_exec(&kept, &sep)
}

/// Back and front matter that may open a chapter even when the table of
/// contents does not list it.
pub open spec fn is_front_matter_key(k: Seq<char>) -> bool {
    ||| k == "acknowledgements"@
    ||| k == "acknowledgments"@
    ||| k == "appendix"@
    ||| k == "bibliography"@
    ||| k == "conclusion"@
    ||| k == "epilogue"@
    ||| k == "foreword"@
    ||| k == "introduction"@
    ||| k == "preface"@
    ||| k == "prologue"@
    ||| k == "references"@
}

pub fn is_pdf_front_matter_heading(title: &Vec<char>) -> (r: bool)
    ensures
        r == is_front_matter_key(title_key_spec(title@)),
{
    let k = pdf_chapter_title_key(title);
    eq_str(&k, "acknowledgements") || eq_str(&k, "acknowledgments") || eq_str(&k, "appendix")
        || eq_str(&k, "bibliography") || eq_str(&k, "conclusion") || eq_str(&k, "epilogue")
        || eq_str(&k, "foreword") || eq_str(&k, "introduction") || eq_str(&k, "preface")
        || eq_str(&k, "prologue") || eq_str(&k, "references")
}

/// The pattern a page reference in a table of contents matches: an optional
/// `p`, `pg`, `page` or `pages` (with an optional dot), then a number or a
/// Roman numeral, optionally a dash and a second one.
pub open spec fn page_locator_pattern() -> Seq<char> {
    "(?i)^(?:p(?:ages?|g)?\\.?\\s*)?(?:\\d+|[ivxlcdm]+)(?:\\s*-\\s*(?:\\d+|[ivxlcdm]+))?$"@
}

/// A page reference cleaned, with every kind of dash read as `-`.
pub open spec fn normalize_locator_spec(text: Seq<char>) -> Seq<char> {
    replace(
        replace(
            replace(
                replace(
                    replace(replace(clean_block_spec(text), seq!['\u{2010}'], "-"@), seq!['\u{2011}'], "-"@),
                    seq!['\u{2012}'],
                    "-"@,
                ),
                seq!['\u{2013}'],
                "-"@,
            ),
            seq!['\u{2014}'],
            "-"@,
        ),
        seq!['\u{2212}'],
        "-"@,
    )
}

/// Whether the text is a page reference of a table of contents.
pub open spec fn is_page_locator_spec(text: Seq<char>) -> bool {
    spec_is_match(page_locator_pattern(), normalize_locator_spec(text))
}

pub fn is_pdf_page_locator(text: &Vec<char>) -> (r: bool)
    ensures
        r == is_page_locator_spec(text@),
{
    proof {
        reveal_strlit("\u{2010}");
        reveal_strlit("\u{2011}");
        reveal_strlit("\u{2012}");
        reveal_strlit("\u{2013}");
        reveal_strlit("\u{2014}");
        reveal_strlit("\u{2212}");
    }
    let c = clean_block_chars(text);
    let a = replace_str(&c, "\u{2010}", "-");
    let b = replace_str(&a, "\u{2011}", "-");
    let d = replace_str(&b, "\u{2012}", "-");
    let e = replace_str(&d, "\u{2013}", "-");
    let f = replace_str(&e, "\u{2014}", "-");
    let g = replace_str(&f, "\u{2212}", "-");
    let s = string_of(&g);
    proof {
        assert(c@ == clean_block_spec(text@));
        assert(seq!['\u{2010}'] == "\u{2010}"@);
        assert(seq!['\u{2011}'] == "\u{2011}"@);
        assert(seq!['\u{2012}'] == "\u{2012}"@);
        assert(seq!['\u{2013}'] == "\u{2013}"@);
        assert(seq!['\u{2014}'] == "\u{2014}"@);
        assert(seq!['\u{2212}'] == "\u{2212}"@);
        assert(s@ == normalize_locator_spec(text@));
    }
    is_match(
        "(?i)^(?:p(?:ages?|g)?\\.?\\s*)?(?:\\d+|[ivxlcdm]+)(?:\\s*-\\s*(?:\\d+|[ivxlcdm]+))?$",
        s.as_str(),
    )
}

/// Only dashes, colons and white space (a Markdown table's rule row).
pub open spec fn is_rule_text(t: Seq<char>) -> bool {
    forall|i: int| 0 <= i < t.len() ==> (#[trigger] t[i] == '-' || t[i] == ':' || is_ws(t[i]))
}

fn is_rule_text_exec(t: &Vec<char>) -> (r: bool)
    ensures
        r == is_rule_text(t@),
{
    let mut i: usize = 0;
    while i < t.len()
        invariant
            i <= t.len(),
            forall|k: int| 0 <= k < i ==> (#[trigger] t@[k] == '-' || t@[k] == ':' || is_ws(t@[k])),
        decreases t.len() - i,
    {
        let c = t[i];
        if !(c == '-' || c == ':' || is_whitespace(c)) {
            return false;
        }
        i += 1;
    }
    true
}

/// The cells of a Markdown table row: the row without its outer pipes, split
/// at every `|`, each cell with `\|` read as `|` and cleaned.
pub open spec fn table_cells(t: Seq<char>) -> Seq<Seq<char>> {
    split_char(trim_set(t, seq!['|']), '|').map_values(|c: Seq<char>| clean_block_spec(replace(c, "\\|"@, "|"@)))
}

/// The chapter title a table-of-contents row names: a row `| title | page |`
/// whose title is not the header `Title` or a rule, and whose page cell is a
/// page reference.
pub open spec fn table_row_title(line: Seq<char>) -> Option<Seq<char>> {
    let t = trim(line);
    if !(starts_with(t, "|"@) && ends_with(t, "|"@)) {
        None
    } else {
        let cells = table_cells(t);
        if cells.len() < 2 {
            None
        } else {
            let title = trim(cells[0]);
            let page = trim(cells[1]);
            if eq_ignore_case(title, "title"@) || is_rule_text(title) || !is_page_locator_spec(page) {
                None
            } else {
                Some(title)
            }
        }
    }
}

/// The cells of a table row, as [`table_cells`] describes them.
pub fn table_row_cells(t: &Vec<char>) -> (r: Vec<Vec<char>>)
    ensures
        r.deep_view() == table_cells(t@),
{
    proof {
        reveal_strlit("\\|");
        reveal_strlit("|");
    }
    let mut pipe: Vec<char> = Vec::new();
    pipe.push('|');
    let inner = trim_set_chars(t, &pipe);
    proof {
        assert(pipe@ =~= seq!['|']);
    }
    let parts = split_char_exec(&inner, '|');
    let mut cells: Vec<Vec<char>> = Vec::new();
    let mut i: usize = 0;
    while i < parts.len()
        invariant
            i <= parts.len(),
            parts.deep_view() == split_char(trim_set(t@, seq!['|']), '|'),
            cells.deep_view() == parts.deep_view().take(i as int).map_values(
                |c: Seq<char>| clean_block_spec(replace(c, "\\|"@, "|"@)),
            ),
        decreases parts.len() - i,
    {
        proof {
            reveal_strlit("\\|");
        }
        let unescaped = replace_str(&parts[i], "\\|", "|");
        let cell = clean_block_chars(&unescaped);
        let ghost before = cells.deep_view();
        cells.push(cell);
        proof {
            lemma_push_deep(before, &cells, cell@);
            lemma_chars_deep(&parts@[i as int]);
            assert(parts.deep_view().take(i + 1) =~= parts.deep_view().take(i as int).push(
                parts.deep_view()[i as int],
            ));
            assert(cells.deep_view() =~= parts.deep_view().take(i + 1).map_values(
                |c: Seq<char>| clean_block_spec(replace(c, "\\|"@, "|"@)),
            ));
        }
        i += 1;
    }
    proof {
        assert(parts.deep_view().take(i as int) =~= parts.deep_view());
    }
    cells
}

pub fn pdf_toc_title_from_markdown_table_row(line: &Vec<char>) -> (r: Option<Vec<char>>)
    ensures
        match r {
            Some(t) => table_row_title(line@) == Some(t@),
            None => table_row_title(line@) is None,
        },
{
    let t = trim_chars(line);
    if !(starts_with_str(&t, "|") && ends_with_str(&t, "|")) {
        return None;
    }
    let cells = table_row_cells(&t);
    if cells.len() < 2 {
        return None;
    }
    proof {
        lemma_chars_deep(&cells@[0]);
        lemma_chars_deep(&cells@[1]);
    }
    let title = trim_chars(&cells[0]);
    let page = trim_chars(&cells[1]);
    let header = chars_of("title");
    if eq_ignore_ascii_case(&title, &header) || is_rule_text_exec(&title) || !is_pdf_page_locator(
        &page,
    ) {
        return None;
    }
    Some(title)
}

/// The chapter title a one-line table-of-contents entry `title - page`
/// names (split at the last ` - `), when the title has at least three
/// letters and the rest is a page reference.
pub open spec fn single_line_title(block: Seq<char>) -> Option<Seq<char>> {
    let t = trim(block);
    match rfind(t, " - "@) {
        Some(i) => {
            let title = clean_block_spec(t.take(i));
            let page = t.skip(i + 3);
            if count_alpha(title) < 3 || !is_page_locator_spec(page) {
                None
            } else {
                Some(title)
            }
        },
        None => None,
    }
}

pub fn pdf_toc_title_from_single_line(block: &Vec<char>) -> (r: Option<Vec<char>>)
    ensures
        match r {
            Some(t) => single_line_title(block@) == Some(t@),
            None => single_line_title(block@) is None,
        },
{
    proof {
        reveal_strlit(" - ");
    }
    let t = trim_chars(block);
    let sep = chars_of(" - ");
    match rfind_exec(&t, &sep) {
        Some(i) => {
            proof {
                lemma_rfind_to(t@, sep@, t@.len() - 3);
            }
            let head = slice(&t, 0, i);
            let title = clean_block_chars(&head);
            let page = slice(&t, i + 3, t.len());
            proof {
                assert(head@ =~= t@.take(i as int));
                assert(page@ =~= t@.skip(i + 3));
            }
            let (alpha, _) = count_alpha_upper(&title);
            if alpha < 3 || !is_pdf_page_locator(&page) {
                None
            } else {
                Some(title)
            }
        },
        None => None,
    }
}

/// The table-of-contents titles a block names: those of its table rows, in
/// order, then the block itself read as a one-line entry.
pub open spec fn row_titles(ls: Seq<Seq<char>>) -> Seq<Seq<char>>
    decreases ls.len(),
{
    if ls.len() == 0 {
        seq![]
    } else {
        row_titles(ls.drop_last()) + match table_row_title(ls.last()) {
            Some(t) => seq![t],
            None => seq![],
        }
    }
}

pub open spec fn block_toc_titles(block: Seq<char>) -> Seq<Seq<char>> {
    row_titles(lines(block)) + match single_line_title(block) {
        Some(t) => seq![t],
        None => seq![],
    }
}

/// The keys so far with the key of one more title added, unless it is
/// empty or already there.
pub open spec fn add_key(keys: Seq<Seq<char>>, title: Seq<char>) -> Seq<Seq<char>> {
    let k = title_key_spec(title);
    if k.len() > 0 && !keys.contains(k) {
        keys.push(k)
    } else {
        keys
    }
}

pub open spec fn add_keys(keys: Seq<Seq<char>>, titles: Seq<Seq<char>>) -> Seq<Seq<char>>
    decreases titles.len(),
{
    if titles.len() == 0 {
        keys
    } else {
        add_key(add_keys(keys, titles.drop_last()), titles.last())
    }
}

/// The distinct keys of every table-of-contents title in the blocks, in
/// order of first appearance.
pub open spec fn toc_keys_spec(blocks: Seq<Seq<char>>) -> Seq<Seq<char>>
    decreases blocks.len(),
{
    if blocks.len() == 0 {
        seq![]
    } else {
        add_keys(toc_keys_spec(blocks.drop_last()), block_toc_titles(blocks.last()))
    }
}

/// The table-of-contents titles of a block, as [`block_toc_titles`]
/// describes them.
pub fn pdf_toc_titles_from_block(block: &Vec<char>) -> (r: Vec<Vec<char>>)
    ensures
        r.deep_view() == block_toc_titles(block@),
{
    let ls = lines_exec(block);
    let mut titles: Vec<Vec<char>> = Vec::new();
    let mut i: usize = 0;
    proof {
        assert(titles.deep_view() =~= row_titles(ls.deep_view().take(0)));
    }
    while i < ls.len()
        invariant
            i <= ls.len(),
            ls.deep_view() == lines(block@),
            titles.deep_view() == row_titles(ls.deep_view().take(i as int)),
        decreases ls.len() - i,
    {
        proof {
            lemma_chars_deep(&ls@[i as int]);
            assert(ls.deep_view().take(i + 1).drop_last() =~= ls.deep_view().take(i as int));
            assert(ls.deep_view().take(i + 1).last() == ls@[i as int]@);
        }
        let ghost before = titles.deep_view();
        match pdf_toc_title_from_markdown_table_row(&ls[i]) {
            Some(t) => {
                let ghost tv = t@;
                titles.push(t);
                proof {
                    lemma_push_deep(before, &titles, tv);
                    assert(before.push(tv) =~= before + seq![tv]);
                }
            },
            None => {
                proof {
                    assert(before + Seq::<Seq<char>>::empty() =~= before);
                }
            },
        }
        i += 1;
    }
    proof {
        assert(ls.deep_view().take(i as int) =~= ls.deep_view());
    }
    let ghost before = titles.deep_view();
    match pdf_toc_title_from_single_line(block) {
        Some(t) => {
            let ghost tv = t@;
            titles.push(t);
            proof {
                lemma_push_deep(before, &titles, tv);
                assert(before.push(tv) =~= before + seq![tv]);
            }
        },
        None => {
            proof {
                assert(before + Seq::<Seq<char>>::empty() =~= before);
            }
        },
    }
    titles
}

/// Whether `keys` already holds `k`.
pub(crate) fn holds_key(keys: &Vec<Vec<char>>, k: &Vec<char>) -> (r: bool)
    ensures
        r == keys.deep_view().contains(k@),
{
    let mut i: usize = 0;
    while i < keys.len()
        invariant
            i <= keys.len(),
            forall|m: int| 0 <= m < i ==> keys.deep_view()[m] != k@,
        decreases keys.len() - i,
    {
        proof {
            lemma_chars_deep(&keys@[i as int]);
        }
        if seq_eq(&keys[i], k) {
            proof {
                assert(keys.deep_view()[i as int] == k@);
            }
            return true;
        }
        i += 1;
    }
    false
}

fn push_key(keys: &mut Vec<Vec<char>>, title: &Vec<char>)
    ensures
        final(keys).deep_view() == add_key(old(keys).deep_view(), title@),
{
    let k = pdf_chapter_title_key(title);
    if k.len() > 0 && !holds_key(keys, &k) {
        let ghost before = keys.deep_view();
        let ghost kv = k@;
        keys.push(k);
        proof {
            lemma_push_deep(before, keys, kv);
        }
    }
}

/// The keys of the table of contents found in the blocks (see
/// [`toc_keys_spec`]).
fn toc_title_keys_chars(blocks: &[String]) -> (r: Vec<Vec<char>>)
    ensures
        r.deep_view() == toc_keys_spec(blocks@.map_values(|b: String| b@)),
{
    let ghost bv = blocks@.map_values(|b: String| b@);
    let mut keys: Vec<Vec<char>> = Vec::new();
    let mut i: usize = 0;
    proof {
        assert(keys.deep_view() =~= Seq::<Seq<char>>::empty());
    }
    while i < blocks.len()
        invariant
            i <= blocks.len(),
            bv == blocks@.map_values(|b: String| b@),
            keys.deep_view() == toc_keys_spec(bv.take(i as int)),
        decreases blocks.len() - i,
    {
        let b = chars_of(blocks[i].as_str());
        let titles = pdf_toc_titles_from_block(&b);
        let ghost start = keys.deep_view();
        let mut j: usize = 0;
        while j < titles.len()
            invariant
                j <= titles.len(),
                keys.deep_view() == add_keys(start, titles.deep_view().take(j as int)),
            decreases titles.len() - j,
        {
            proof {
                lemma_chars_deep(&titles@[j as int]);
                assert(titles.deep_view().take(j + 1).drop_last() =~= titles.deep_view().take(j as int));
                assert(titles.deep_view().take(j + 1).last() == titles@[j as int]@);
            }
            push_key(&mut keys, &titles[j]);
            j += 1;
        }
        proof {
            assert(titles.deep_view().take(j as int) =~= titles.deep_view());
            assert(bv.take(i + 1).drop_last() =~= bv.take(i as int));
            assert(bv.take(i + 1).last() == b@);
        }
        i += 1;
    }
    proof {
        assert(bv.take(i as int) =~= bv);
    }
    keys
}

/// Two title keys name the same chapter loosely: both have at least eight
/// characters and one contains the other.
pub open spec fn keys_related(k: Seq<char>, tk: Seq<char>) -> bool {
    (if k.len() <= tk.len() {
        k.len()
    } else {
        tk.len()
    }) >= 8 && (contains(k, tk) || contains(tk, k))
}

/// Whether a title matches the table of contents: its key is non-empty and
/// either listed or loosely related to a listed key.
pub open spec fn toc_matches_spec(keys: Seq<Seq<char>>, title: Seq<char>) -> bool {
    let tk = title_key_spec(title);
    tk.len() > 0 && (keys.contains(tk) || exists|i: int| 0 <= i < keys.len() && #[trigger] keys_related(keys[i], tk))
}

fn keys_related_exec(k: &Vec<char>, tk: &Vec<char>) -> (r: bool)
    ensures
        r == keys_related(k@, tk@),
{
    let min = if k.len() <= tk.len() {
        k.len()
    } else {
        tk.len()
    };
    min >= 8 && (contains_exec(k, tk) || contains_exec(tk, k))
}

fn toc_matches_title_chars(keys: &Vec<Vec<char>>, title: &Vec<char>) -> (r: bool)
    ensures
        r == toc_matches_spec(keys.deep_view(), title@),
{
    let tk = pdf_chapter_title_key(title);
    if tk.len() == 0 {
        return false;
    }
    if holds_key(keys, &tk) {
        return true;
    }
    let mut i: usize = 0;
    while i < keys.len()
        invariant
            i <= keys.len(),
            forall|m: int| 0 <= m < i ==> !#[trigger] keys_related(keys.deep_view()[m], tk@),
            tk@ == title_key_spec(title@),
            tk@.len() > 0,
            !keys.deep_view().contains(tk@),
        decreases keys.len() - i,
    {
        proof {
            lemma_chars_deep(&keys@[i as int]);
        }
        if keys_related_exec(&keys[i], &tk) {
            proof {
                assert(keys_related(keys.deep_view()[i as int], tk@));
            }
            return true;
        }
        i += 1;
    }
    false
}

/// Whether a section title may open a chapter: always without a table of
/// contents; with one, only a visual (`#`) heading that the table of
/// contents lists, or a front- or back-matter heading.
pub open spec fn toc_allows_spec(keys: Seq<Seq<char>>, title: Seq<char>, visual_heading: bool) -> bool {
    keys.len() == 0 || (visual_heading && (toc_matches_spec(keys, title) || is_front_matter_key(
        title_key_spec(title),
    )))
}

pub fn pdf_toc_allows_section_title(keys: &Vec<Vec<char>>, title: &Vec<char>, visual_heading: bool) -> (r: bool)
    ensures
        r == toc_allows_spec(keys.deep_view(), title@, visual_heading),
{
    if keys.len() == 0 {
        return true;
    }
    if !visual_heading {
        return false;
    }
    toc_matches_title_chars(keys, title) || is_pdf_front_matter_heading(title)
}

/// A line that reads as a section heading: `INDEX` in any case, or 8 to 90
/// characters without closing punctuation, with at least five letters, at
/// least half of them upper case.
pub open spec fn section_heading_line_spec(text: Seq<char>) -> bool {
    let t = trim(text);
    eq_ignore_case(t, "index"@) || (8 <= t.len() <= 90 && !ends_with_clause_punct(t) && count_alpha(t)
        >= 5 && count_upper(t) * 2 >= count_alpha(t))
}

pub fn looks_like_pdf_section_heading_line(text: &Vec<char>) -> (r: bool)
    ensures
        r == section_heading_line_spec(text@),
{
    let t = trim_chars(text);
    let index = chars_of("index");
    if eq_ignore_ascii_case(&t, &index) {
        return true;
    }
    let n = t.len();
    if n < 8 || n > 90 {
        return false;
    }
    let last = t[n - 1];
    if last == '.' || last == ',' || last == ';' || last == ':' {
        return false;
    }
    let (alpha, upper) = count_alpha_upper(&t);
    if alpha < 5 {
        return false;
    }
    upper * 2 >= alpha
}

/// The title a block opens a section with: a `#` heading's cleaned text, or
/// a heading-like line cleaned; never an image or a multi-line table.
pub open spec fn section_title_spec(block: Seq<char>) -> Option<Seq<char>> {
    let t = trim(block);
    if starts_with(t, "!["@) || (starts_with(t, "|"@) && contains(t, "\n"@)) {
        None
    } else if starts_with(t, "#"@) {
        let title = clean_title_spec(trim(crate::text::trim_start_set(t, seq!['#'])));
        if title.len() > 0 {
            Some(title)
        } else {
            None
        }
    } else if section_heading_line_spec(t) {
        Some(clean_title_spec(t))
    } else {
        None
    }
}

pub fn pdf_section_title(block: &Vec<char>) -> (r: Option<Vec<char>>)
    ensures
        match r {
            Some(t) => section_title_spec(block@) == Some(t@),
            None => section_title_spec(block@) is None,
        },
{
    let t = trim_chars(block);
    if starts_with_str(&t, "![") || (starts_with_str(&t, "|") && contains_str(&t, "\n")) {
        return None;
    }
    if starts_with_str(&t, "#") {
        let mut hash: Vec<char> = Vec::new();
        hash.push('#');
        proof {
            assert(hash@ =~= seq!['#']);
        }
        let rest = crate::text::trim_start_set_chars(&t, &hash);
        let inner = trim_chars(&rest);
        let title = clean_title_chars(&inner);
        if title.len() > 0 {
            return Some(title);
        }
        return None;
    }
    if looks_like_pdf_section_heading_line(&t) {
        proof {
            lemma_trim_twice(block@);
        }
        return Some(clean_title_chars(&t));
    }
    None
}

/// Trimming is idempotent.
proof fn lemma_trim_twice(s: Seq<char>)
    ensures
        trim(trim(s)) == trim(s),
{
    crate::books::pdf_text::lemma_trim_idem(s);
}

/// A chapter as plain values: title, whether the title was made up, blocks.
pub open spec fn chapter_view(c: BookChapter) -> (Seq<char>, bool, Seq<Seq<char>>) {
    (c.title@, c.generated_title, c.blocks.deep_view())
}

pub open spec fn chapters_view(cs: Seq<BookChapter>) -> Seq<(Seq<char>, bool, Seq<Seq<char>>)> {
    cs.map_values(|c: BookChapter| chapter_view(c))
}

/// Whether a block starts (after white space) with `#`.
pub open spec fn is_visual_heading(block: Seq<char>) -> bool {
    starts_with(trim_start(block), "#"@)
}

/// The scan state of chapter splitting: the finished chapters, and the title,
/// made-up flag and blocks of the chapter being filled.
pub open spec fn split_step(
    st: (Seq<(Seq<char>, bool, Seq<Seq<char>>)>, Seq<char>, bool, Seq<Seq<char>>),
    block: Seq<char>,
    keys: Seq<Seq<char>>,
) -> (Seq<(Seq<char>, bool, Seq<Seq<char>>)>, Seq<char>, bool, Seq<Seq<char>>) {
    let (chapters, title, generated, current) = st;
    match section_title_spec(block) {
        Some(t) => if !toc_allows_spec(keys, t, is_visual_heading(block)) {
            (chapters, title, generated, current.push(block))
        } else {
            (
                if current.len() > 0 {
                    chapters.push((title, generated, current))
                } else {
                    chapters
                },
                t,
                false,
                if is_visual_heading(block) {
                    seq![block]
                } else {
                    seq![]
                },
            )
        },
        None => (chapters, title, generated, current.push(block)),
    }
}

pub open spec fn split_scan(blocks: Seq<Seq<char>>, keys: Seq<Seq<char>>, fallback: Seq<char>) -> (Seq<(Seq<char>, bool, Seq<Seq<char>>)>, Seq<char>, bool, Seq<Seq<char>>)
    decreases blocks.len(),
{
    if blocks.len() == 0 {
        (seq![], fallback, true, seq![])
    } else {
        split_step(split_scan(blocks.drop_last(), keys, fallback), blocks.last(), keys)
    }
}

/// The chapters the blocks split into: a new chapter at every section title
/// the table of contents allows (a `#` heading stays as the chapter's first
/// block; a plain heading line becomes only its title), the part before the
/// first one under the made-up `fallback` title; the last chapter is kept
/// when it has blocks or is the only one.
pub open spec fn split_chapters_spec(blocks: Seq<Seq<char>>, fallback: Seq<char>) -> Seq<(Seq<char>, bool, Seq<Seq<char>>)> {
    let (chapters, title, generated, current) = split_scan(blocks, toc_keys_spec(blocks), fallback);
    if current.len() > 0 || chapters.len() == 0 {
        chapters.push((title, generated, current))
    } else {
        chapters
    }
}

/// A block that only became a chapter title: an allowed plain heading line.
pub open spec fn is_consumed_heading(block: Seq<char>, keys: Seq<Seq<char>>) -> bool {
    match section_title_spec(block) {
        Some(t) => toc_allows_spec(keys, t, is_visual_heading(block)) && !is_visual_heading(block),
        None => false,
    }
}

/// All blocks of the chapters, in order.
pub open spec fn all_blocks(cs: Seq<(Seq<char>, bool, Seq<Seq<char>>)>) -> Seq<Seq<char>>
    decreases cs.len(),
{
    if cs.len() == 0 {
        seq![]
    } else {
        all_blocks(cs.drop_last()) + cs.last().2
    }
}

/// The blocks that are kept as content.
pub open spec fn kept_blocks(blocks: Seq<Seq<char>>, keys: Seq<Seq<char>>) -> Seq<Seq<char>>
    decreases blocks.len(),
{
    if blocks.len() == 0 {
        seq![]
    } else if is_consumed_heading(blocks.last(), keys) {
        kept_blocks(blocks.drop_last(), keys)
    } else {
        kept_blocks(blocks.drop_last(), keys).push(blocks.last())
    }
}

proof fn lemma_all_blocks_push(cs: Seq<(Seq<char>, bool, Seq<Seq<char>>)>, c: (Seq<char>, bool, Seq<Seq<char>>))
    ensures
        all_blocks(cs.push(c)) == all_blocks(cs) + c.2,
{
    assert(cs.push(c).drop_last() =~= cs);
}

proof fn lemma_split_scan(blocks: Seq<Seq<char>>, keys: Seq<Seq<char>>, fallback: Seq<char>)
    ensures
        ({
            let (chapters, title, generated, current) = split_scan(blocks, keys, fallback);
            &&& all_blocks(chapters) + current == kept_blocks(blocks, keys)
            &&& forall|i: int| 0 <= i < chapters.len() ==> (#[trigger] chapters[i]).2.len() > 0
            &&& forall|i: int| 0 < i < chapters.len() ==> !(#[trigger] chapters[i]).1
            &&& (chapters.len() > 0 ==> !generated)
            &&& (generated ==> title == fallback)
            &&& (chapters.len() > 0 && chapters[0].1 ==> chapters[0].0 == fallback)
        }),
    decreases blocks.len(),
{
    if blocks.len() > 0 {
        lemma_split_scan(blocks.drop_last(), keys, fallback);
        let (chapters, title, generated, current) = split_scan(blocks.drop_last(), keys, fallback);
        let b = blocks.last();
        match section_title_spec(b) {
            Some(t) => {
                if toc_allows_spec(keys, t, is_visual_heading(b)) {
                    if current.len() > 0 {
                        lemma_all_blocks_push(chapters, (title, generated, current));
                    }
                    if is_visual_heading(b) {
                        assert(Seq::<Seq<char>>::empty().push(b) =~= seq![b]);
                    }
                }
            },
            None => {},
        }
        let (c2, t2, g2, cur2) = split_scan(blocks, keys, fallback);
        assert(all_blocks(c2) + cur2 =~= kept_blocks(blocks, keys));
    } else {
        assert(all_blocks(seq![]) + Seq::<Seq<char>>::empty() =~= kept_blocks(blocks, keys));
    }
}

/// Splitting into chapters loses no content and invents none: the chapters'
/// blocks, in order, are the input blocks less the plain heading lines that
/// became chapter titles. There is always at least one chapter; every chapter
/// but a lone last one has blocks; only the first chapter can carry the
/// made-up title, and then it carries `fallback` itself.
pub proof fn lemma_split_chapters_keeps_content(blocks: Seq<Seq<char>>, fallback: Seq<char>)
    ensures
        ({
            let cs = split_chapters_spec(blocks, fallback);
            &&& all_blocks(cs) == kept_blocks(blocks, toc_keys_spec(blocks))
            &&& cs.len() > 0
            &&& forall|i: int| 0 <= i < cs.len() - 1 ==> (#[trigger] cs[i]).2.len() > 0
            &&& forall|i: int| 0 < i < cs.len() ==> !(#[trigger] cs[i]).1
            &&& (cs[0].1 ==> cs[0].0 == fallback)
        }),
{
    let keys = toc_keys_spec(blocks);
    lemma_split_scan(blocks, keys, fallback);
    let (chapters, title, generated, current) = split_scan(blocks, keys, fallback);
    if current.len() > 0 || chapters.len() == 0 {
        lemma_all_blocks_push(chapters, (title, generated, current));
        let cs = chapters.push((title, generated, current));
        assert forall|i: int| 0 <= i < cs.len() - 1 implies (#[trigger] cs[i]).2.len() > 0 by {
            assert(cs[i] == chapters[i]);
        }
        assert forall|i: int| 0 < i < cs.len() implies !(#[trigger] cs[i]).1 by {
            if i < chapters.len() {
                assert(cs[i] == chapters[i]);
            }
        }
    } else {
        assert(all_blocks(chapters) + Seq::<Seq<char>>::empty() =~= all_blocks(chapters));
    }
}

/// Split converted blocks into chapters (see [`split_chapters_spec`]).
pub fn split_blocks_into_chapters(blocks: Vec<String>, fallback_title: &str) -> (r: Vec<BookChapter>)
    ensures
        chapters_view(r@) == split_chapters_spec(blocks.deep_view(), fallback_title@),
{
    let ghost bv = blocks.deep_view();
    let keys = toc_title_keys_chars(blocks.as_slice());
    proof {
        assert(blocks@.map_values(|b: String| b@) =~= bv);
    }
    let mut chapters: Vec<BookChapter> = Vec::new();
    let mut title = crate::text::owned(fallback_title);
    let mut generated = true;
    let mut current: Vec<String> = Vec::new();
    let mut i: usize = 0;
    proof {
        assert(chapters_view(chapters@) =~= Seq::<(Seq<char>, bool, Seq<Seq<char>>)>::empty());
        assert(current.deep_view() =~= Seq::<Seq<char>>::empty());
    }
    while i < blocks.len()
        invariant
            i <= blocks.len(),
            bv == blocks.deep_view(),
            keys.deep_view() == toc_keys_spec(bv),
            (chapters_view(chapters@), title@, generated, current.deep_view()) == split_scan(
                bv.take(i as int),
                toc_keys_spec(bv),
                fallback_title@,
            ),
        decreases blocks.len() - i,
    {
        let block = &blocks[i];
        let b = chars_of(block.as_str());
        proof {
            assert(bv.take(i + 1).drop_last() =~= bv.take(i as int));
            assert(bv.take(i + 1).last() == b@);
        }
        let trimmed_start = trim_start_chars(&b);
        let visual = starts_with_str(&trimmed_start, "#");
        let ghost cur_before = current.deep_view();
        let ghost chs_before = chapters_view(chapters@);
        match pdf_section_title(&b) {
            Some(t) => {
                if !pdf_toc_allows_section_title(&keys, &t, visual) {
                    current.push(block.clone());
                    proof {
                        assert(current.deep_view() =~= cur_before.push(b@));
                    }
                } else {
                    if current.len() > 0 {
                        let mut done: Vec<String> = Vec::new();
                        std::mem::swap(&mut done, &mut current);
                        let mut old_title = String::new();
                        std::mem::swap(&mut old_title, &mut title);
                        let ghost tv = old_title@;
                        let ghost dv = done.deep_view();
                        let ch = BookChapter { title: old_title, generated_title: generated, blocks: done };
                        chapters.push(ch);
                        proof {
                            assert(chapters_view(chapters@) =~= chs_before.push((tv, generated, dv)));
                        }
                    }
                    title = string_of(&t);
                    generated = false;
                    current = Vec::new();
                    if visual {
                        current.push(block.clone());
                        proof {
                            assert(current.deep_view() =~= seq![b@]);
                        }
                    } else {
                        proof {
                            assert(current.deep_view() =~= Seq::<Seq<char>>::empty());
                        }
                    }
                }
            },
            None => {
                current.push(block.clone());
                proof {
                    assert(current.deep_view() =~= cur_before.push(b@));
                }
            },
        }
        i += 1;
    }
    proof {
        assert(bv.take(i as int) =~= bv);
    }
    if current.len() > 0 || chapters.len() == 0 {
        let ghost chs_before = chapters_view(chapters@);
        let ghost tv = title@;
        let ghost cv = current.deep_view();
        chapters.push(BookChapter { title, generated_title: generated, blocks: current });
        proof {
            assert(chapters_view(chapters@) =~= chs_before.push((tv, generated, cv)));
        }
    }
    chapters
}

/// The keys of the table of contents found in the blocks, distinct, in order
/// of first appearance (see [`toc_keys_spec`]).
pub fn pdf_toc_title_keys(blocks: &[String]) -> (r: Vec<String>)
    ensures
        r@.map_values(|k: String| k@) == toc_keys_spec(blocks@.map_values(|b: String| b@)),
{
    let keys = toc_title_keys_chars(blocks);
    let mut out: Vec<String> = Vec::new();
    let mut i: usize = 0;
    while i < keys.len()
        invariant
            i <= keys.len(),
            out@.map_values(|k: String| k@) == keys.deep_view().take(i as int),
        decreases keys.len() - i,
    {
        let k = string_of(&keys[i]);
        let ghost before = out@;
        out.push(k);
        proof {
            lemma_chars_deep(&keys@[i as int]);
            assert(keys.deep_view()[i as int] == keys@[i as int].deep_view());
            assert(k@ == keys.deep_view()[i as int]);
            assert(out@ == before.push(k));
            assert(keys.deep_view().take(i + 1) =~= keys.deep_view().take(i as int).push(k@));
            assert(out@.map_values(|k: String| k@) =~= keys.deep_view().take(i + 1));
        }
        i += 1;
    }
    proof {
        assert(keys.deep_view().take(i as int) =~= keys.deep_view());
    }
    out
}

/// Whether a title matches the table of contents given by its keys (see
/// [`toc_matches_spec`]).
pub fn pdf_toc_matches_title(keys: &[String], title: &str) -> (r: bool)
    ensures
        r == toc_matches_spec(keys@.map_values(|k: String| k@), title@),
{
    let mut kv: Vec<Vec<char>> = Vec::new();
    let mut i: usize = 0;
    while i < keys.len()
        invariant
            i <= keys.len(),
            kv.deep_view() == keys@.map_values(|k: String| k@).take(i as int),
        decreases keys.len() - i,
    {
        let k = chars_of(keys[i].as_str());
        let ghost before = kv.deep_view();
        let ghost k_view = k@;
        kv.push(k);
        proof {
            lemma_push_deep(before, &kv, k_view);
            assert(keys@.map_values(|k: String| k@).take(i + 1) =~= keys@.map_values(|k: String| k@).take(i as int).push(k_view));
        }
        i += 1;
    }
    proof {
        assert(keys@.map_values(|k: String| k@).take(i as int) =~= keys@.map_values(|k: String| k@));
    }
    let t = chars_of(title);
    toc_matches_title_chars(&kv, &t)
}

/// A chapter's blocks, each cleaned, blank ones dropped.
pub open spec fn clean_blocks_spec(bs: Seq<Seq<char>>) -> Seq<Seq<char>>
    decreases bs.len(),
{
    if bs.len() == 0 {
        seq![]
    } else if clean_import_block_spec(bs.last()).len() == 0 {
        clean_blocks_spec(bs.drop_last())
    } else {
        clean_blocks_spec(bs.drop_last()).push(clean_import_block_spec(bs.last()))
    }
}

/// A chapter normalised: a made-up title cleaned, a real one cleaned as a
/// title (an empty real title reads `Chapter`), blocks cleaned.
pub open spec fn normalized_chapter(c: (Seq<char>, bool, Seq<Seq<char>>)) -> (Seq<char>, bool, Seq<Seq<char>>) {
    let title = if c.1 {
        clean_block_spec(c.0)
    } else {
        clean_title_spec(c.0)
    };
    (if title.len() == 0 && !c.1 {
        "Chapter"@
    } else {
        title
    }, c.1, clean_blocks_spec(c.2))
}

/// The chapters normalised, those left without blocks dropped.
pub open spec fn normalized_chapters(cs: Seq<(Seq<char>, bool, Seq<Seq<char>>)>) -> Seq<(Seq<char>, bool, Seq<Seq<char>>)>
    decreases cs.len(),
{
    if cs.len() == 0 {
        seq![]
    } else if normalized_chapter(cs.last()).2.len() == 0 {
        normalized_chapters(cs.drop_last())
    } else {
        normalized_chapters(cs.drop_last()).push(normalized_chapter(cs.last()))
    }
}

fn normalize_chapter(c: &BookChapter) -> (r: BookChapter)
    ensures
        chapter_view(r) == normalized_chapter(chapter_view(*c)),
{
    let tc = chars_of(c.title.as_str());
    let t = if c.generated_title {
        clean_block_chars(&tc)
    } else {
        clean_title_chars(&tc)
    };
    let title = if t.len() == 0 && !c.generated_title {
        crate::text::owned("Chapter")
    } else {
        string_of(&t)
    };
    let mut blocks: Vec<String> = Vec::new();
    let mut i: usize = 0;
    proof {
        assert(blocks.deep_view() =~= clean_blocks_spec(c.blocks.deep_view().take(0)));
    }
    while i < c.blocks.len()
        invariant
            i <= c.blocks.len(),
            blocks.deep_view() == clean_blocks_spec(c.blocks.deep_view().take(i as int)),
        decreases c.blocks.len() - i,
    {
        let b = chars_of(c.blocks[i].as_str());
        let cleaned = clean_import_block_chars(&b);
        proof {
            assert(c.blocks.deep_view().take(i + 1).drop_last() =~= c.blocks.deep_view().take(i as int));
            assert(c.blocks.deep_view().take(i + 1).last() == b@);
        }
        if cleaned.len() > 0 {
            let ghost before = blocks.deep_view();
            let s = string_of(&cleaned);
            blocks.push(s);
            proof {
                assert(blocks.deep_view() =~= before.push(cleaned@));
            }
        }
        i += 1;
    }
    proof {
        assert(c.blocks.deep_view().take(i as int) =~= c.blocks.deep_view());
    }
    BookChapter { title, generated_title: c.generated_title, blocks }
}

/// Clean every chapter's title and blocks, and drop chapters left empty.
pub fn normalize_document(document: &mut BookDocument)
    ensures
        chapters_view(final(document).chapters@) == normalized_chapters(chapters_view(old(document).chapters@)),
        final(document).title == old(document).title,
        final(document).assets == old(document).assets,
        final(document).notes == old(document).notes,
{
    let mut out: Vec<BookChapter> = Vec::new();
    let mut i: usize = 0;
    let ghost cv = chapters_view(document.chapters@);
    proof {
        assert(chapters_view(out@) =~= normalized_chapters(cv.take(0)));
    }
    while i < document.chapters.len()
        invariant
            i <= document.chapters.len(),
            cv == chapters_view(document.chapters@),
            chapters_view(out@) == normalized_chapters(cv.take(i as int)),
        decreases document.chapters.len() - i,
    {
        let n = normalize_chapter(&document.chapters[i]);
        proof {
            assert(cv.take(i + 1).drop_last() =~= cv.take(i as int));
            assert(cv.take(i + 1).last() == chapter_view(document.chapters@[i as int]));
        }
        if n.blocks.len() > 0 {
            let ghost before = chapters_view(out@);
            let ghost nv = chapter_view(n);
            out.push(n);
            proof {
                assert(chapters_view(out@) =~= before.push(nv));
            }
        }
        i += 1;
    }
    proof {
        assert(cv.take(i as int) =~= cv);
    }
    document.chapters = out;
}

} // verus!
