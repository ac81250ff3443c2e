//! Reading scopes: a page, a block, a section or a saved selection, checked
//! before any text is read. A bad target is an error, never a fallback to
//! the whole graph.
use vstd::prelude::*;
use crate::patterns::{captures, capture_view, group_text, group_text_exec, matches_ok, spec_captures, splice_matches, splice_matches_exec, CaptureMatch};
use crate::collections::{get_prop, property_value, Page, props_view};
use pulldown_cmark::{Event, Options, Parser, Tag, TagEnd};
use crate::text::{
    chars_of, eq_str, find, find_from, find_from_exec, join, join_exec, lemma_chars_deep,
    lemma_find_from, lemma_push_deep, push_all, starts_with, starts_with_str, string_of, trim,
    trim_chars, words, words_exec,
};

verus! {

/// How much of a page a research question may read.
#[derive(Debug, Clone, Copy, PartialEq, Eq, Structural)]
pub enum ReadingScope {
    Page,
    Block,
    Section,
    Selection,
}

/// Text the reader selected, with the blocks it spans.
#[derive(Debug, Clone)]
pub struct ReadingSelection {
    pub block_ids: Vec<String>,
    pub text: String,
}

/// What a research question is scoped to.
#[derive(Debug, Clone)]
pub struct ResearchTarget {
    pub page_id: String,
    pub scope: ReadingScope,
    pub block_id: Option<String>,
    pub selection: Option<ReadingSelection>,
}

/// The section a focused block lies in.
#[derive(Debug, Clone)]
pub struct ReadingSection {
    pub title: String,
    pub block_id: String,
}

/// What the reader is told about a scope.
#[derive(Debug, Clone)]
pub struct ResearchScopeInfo {
    pub page_id: String,
    pub page_title: String,
    pub is_journal: bool,
    pub is_book: bool,
    pub block_count: usize,
    pub section: Option<ReadingSection>,
}

/// One block of a page.
#[derive(Debug, Clone)]
pub struct Block {
    pub id: String,
    pub parent_id: Option<String>,
    pub content: String,
    pub order_index: i32,
}

/// A page and the blocks of it a question may read, captured once.
#[derive(Debug, Clone)]
pub struct ReadingSource {
    pub page: Page,
    pub blocks: Vec<Block>,
}

/// A rejected research target.
#[derive(Debug, Clone, PartialEq, Eq)]
pub enum ScopeError {
    /// The target's fields do not fit its scope.
    IncompatibleFields,
    /// A selection needs unique block ids and non-blank text.
    InvalidSelection,
    /// A selected block is not on the page.
    BlockNotOnPage,
    /// The selected blocks are not consecutive in reading order.
    NotContiguous,
    /// The selection holds no author or source text.
    EmptySelectionText,
    /// The selected text is no longer found across the selected blocks.
    TextMismatch,
}

impl ScopeError {
    /// The message shown for the error.
    pub open spec fn message_spec(self) -> Seq<char> {
        match self {
            ScopeError::IncompatibleFields => "Research scope: missing or incompatible scope fields"@,
            ScopeError::InvalidSelection => "Research scope: selection requires unique block IDs and nonempty text"@,
            ScopeError::BlockNotOnPage => "Research scope: selected block is not on this page"@,
            ScopeError::NotContiguous => "Research scope: selected blocks must be contiguous and in reading order"@,
            ScopeError::EmptySelectionText => "Research scope: selection contains no author/source text"@,
            ScopeError::TextMismatch => "Research scope: selected text no longer matches the saved source"@,
        }
    }

    pub fn message(&self) -> (r: String)
        ensures
            r@ == self.message_spec(),
    {
        match self {
            ScopeError::IncompatibleFields => crate::text::owned("Research scope: missing or incompatible scope fields"),
            ScopeError::InvalidSelection => crate::text::owned("Research scope: selection requires unique block IDs and nonempty text"),
            ScopeError::BlockNotOnPage => crate::text::owned("Research scope: selected block is not on this page"),
            ScopeError::NotContiguous => crate::text::owned("Research scope: selected blocks must be contiguous and in reading order"),
            ScopeError::EmptySelectionText => crate::text::owned("Research scope: selection contains no author/source text"),
            ScopeError::TextMismatch => crate::text::owned("Research scope: selected text no longer matches the saved source"),
        }
    }
}

/// Whether a target names a non-blank block.
pub open spec fn has_block_spec(t: ResearchTarget) -> bool {
    match t.block_id {
        Some(id) => trim(id@).len() > 0,
        None => false,
    }
}

/// The fields a scope needs, and nothing else: a page scope has neither a
/// block nor a selection; a block or section scope has a non-blank block and
/// no selection; a selection scope has a selection and no block.
pub open spec fn target_fields_ok(t: ResearchTarget) -> bool {
    match t.scope {
        ReadingScope::Page => t.block_id is None && t.selection is None,
        ReadingScope::Block | ReadingScope::Section => has_block_spec(t) && t.selection is None,
        ReadingScope::Selection => t.block_id is None && t.selection is Some,
    }
}

/// Check that a target's fields fit its scope.
pub fn check_target_fields(target: &ResearchTarget) -> (r: Result<(), ScopeError>)
    ensures
        r is Ok <==> target_fields_ok(*target),
        r matches Err(e) ==> e == ScopeError::IncompatibleFields,
{
    let has_block = match &target.block_id {
        Some(id) => {
            let c = chars_of(id.as_str());
            let t = trim_chars(&c);
            t.len() > 0
        },
        None => false,
    };
    let ok = match target.scope {
        ReadingScope::Page => target.block_id.is_none() && target.selection.is_none(),
        ReadingScope::Block | ReadingScope::Section => has_block && target.selection.is_none(),
        ReadingScope::Selection => target.block_id.is_none() && target.selection.is_some(),
    };
    if ok {
        Ok(())
    } else {
        Err(ScopeError::IncompatibleFields)
    }
}

/// Text with its white space collapsed: the words joined by single spaces.
pub open spec fn normalize_spec(text: Seq<char>) -> Seq<char> {
    join(words(text), " "@)
}

pub fn normalize(text: &str) -> (r: String)
    ensures
        r@ == normalize_spec(text@),
{
    let c = chars_of(text);
    let ws = words_exec(&c);
    let sep = chars_of(" ");
    let j = join_exec(&ws, &sep);
    string_of(&j)
}

/// The ids as plain values.
pub open spec fn ids_view(ids: Seq<String>) -> Seq<Seq<char>> {
    ids.map_values(|s: String| s@)
}

/// The position of the first block with id `id`.
pub open spec fn position_of(ids: Seq<Seq<char>>, id: Seq<char>, i: int) -> Option<int>
    decreases ids.len() - i,
{
    if i < 0 || i >= ids.len() {
        None
    } else if ids[i] == id {
        Some(i)
    } else {
        position_of(ids, id, i + 1)
    }
}

/// Whether every selected id is on the page.
pub open spec fn all_on_page(sel: Seq<Seq<char>>, page: Seq<Seq<char>>) -> bool {
    forall|k: int| 0 <= k < sel.len() ==> #[trigger] position_of(page, sel[k], 0) is Some
}

/// The page positions of the selected ids.
pub open spec fn positions(sel: Seq<Seq<char>>, page: Seq<Seq<char>>) -> Seq<int> {
    sel.map_values(|id: Seq<char>| match position_of(page, id, 0) {
        Some(p) => p,
        None => -1,
    })
}

/// Whether positions follow each other one by one.
pub open spec fn consecutive(ps: Seq<int>) -> bool {
    forall|k: int| 0 <= k < ps.len() - 1 ==> #[trigger] ps[k + 1] == ps[k] + 1
}

/// A selection's blocks in the page: rejected unless its ids are non-empty
/// and distinct and its text is not blank, unless every id is on the page,
/// and unless the blocks follow each other in reading order; otherwise their
/// positions.
pub open spec fn selection_indices_spec(sel_ids: Seq<Seq<char>>, text: Seq<char>, page: Seq<Seq<char>>) -> Result<Seq<int>, ScopeError> {
    if sel_ids.len() == 0 || !sel_ids.no_duplicates() || trim(text).len() == 0 {
        Err(ScopeError::InvalidSelection)
    } else if !all_on_page(sel_ids, page) {
        Err(ScopeError::BlockNotOnPage)
    } else if !consecutive(positions(sel_ids, page)) {
        Err(ScopeError::NotContiguous)
    } else {
        Ok(positions(sel_ids, page))
    }
}

fn position_exec(page: &Vec<Vec<char>>, id: &Vec<char>) -> (r: Option<usize>)
    ensures
        match r {
            Some(p) => position_of(page.deep_view(), id@, 0) == Some(p as int) && p < page.len(),
            None => position_of(page.deep_view(), id@, 0) is None,
        },
{
    let ghost pv = page.deep_view();
    let mut i: usize = 0;
    while i < page.len()
        invariant
            i <= page.len(),
            pv == page.deep_view(),
            position_of(pv, id@, 0) == position_of(pv, id@, i as int),
        decreases page.len() - i,
    {
        proof {
            lemma_chars_deep(&page@[i as int]);
        }
        if crate::text::seq_eq(&page[i], id) {
            return Some(i);
        }
        i += 1;
    }
    None
}

fn to_chars_list(v: &[String]) -> (r: Vec<Vec<char>>)
    ensures
        r.deep_view() == ids_view(v@),
{
    let mut out: Vec<Vec<char>> = Vec::new();
    let mut i: usize = 0;
    while i < v.len()
        invariant
            i <= v.len(),
            out.deep_view() == ids_view(v@).take(i as int),
        decreases v.len() - i,
    {
        let c = chars_of(v[i].as_str());
        let ghost before = out.deep_view();
        let ghost cv = c@;
        out.push(c);
        proof {
            lemma_push_deep(before, &out, cv);
            assert(ids_view(v@).take(i + 1) =~= ids_view(v@).take(i as int).push(cv));
        }
        i += 1;
    }
    proof {
        assert(ids_view(v@).take(i as int) =~= ids_view(v@));
    }
    out
}

/// Validate a selection against the ids of a page's blocks (in reading
/// order) and return the selected blocks' positions.
pub fn selection_indices(selection: &ReadingSelection, page_block_ids: &[String]) -> (r: Result<Vec<usize>, ScopeError>)
    ensures
        match r {
            Ok(ps) => selection_indices_spec(ids_view(selection.block_ids@), selection.text@, ids_view(page_block_ids@))
                == Ok::<Seq<int>, ScopeError>(ps@.map_values(|p: usize| p as int)),
            Err(e) => selection_indices_spec(ids_view(selection.block_ids@), selection.text@, ids_view(page_block_ids@))
                == Err::<Seq<int>, ScopeError>(e),
        },
{
    let sel = to_chars_list(selection.block_ids.as_slice());
    let page = to_chars_list(page_block_ids);
    let ghost sv = sel.deep_view();
    let ghost pv = page.deep_view();
    let tc = chars_of(selection.text.as_str());
    let tt = trim_chars(&tc);
    // distinct ids
    let mut distinct = true;
    let mut a: usize = 0;
    while a < sel.len()
        invariant
            a <= sel.len(),
            sv == sel.deep_view(),
            distinct <==> forall|x: int, y: int| 0 <= x < y < sel.len() && x < a ==> sv[x] != sv[y],
        decreases sel.len() - a,
    {
        let mut b: usize = a + 1;
        let ghost prior = distinct;
        let mut row_ok = true;
        while b < sel.len()
            invariant
                a < b <= sel.len(),
                sv == sel.deep_view(),
                row_ok <==> forall|y: int| a < y < b ==> sv[a as int] != sv[y],
            decreases sel.len() - b,
        {
            proof {
                lemma_chars_deep(&sel@[a as int]);
                lemma_chars_deep(&sel@[b as int]);
                assert(sv[a as int] == sel@[a as int]@);
                assert(sv[b as int] == sel@[b as int]@);
            }
            if crate::text::seq_eq(&sel[a], &sel[b]) {
                row_ok = false;
            }
            b += 1;
        }
        distinct = distinct && row_ok;
        proof {
            assert(distinct <==> forall|x: int, y: int| 0 <= x < y < sel.len() && x < a + 1 ==> sv[x] != sv[y]) by {
                if !row_ok {
                    let y = choose|y: int| a < y < b && sv[a as int] == sv[y];
                    assert(!(sv[a as int] != sv[y]));
                }
                if !prior {
                    let (x, y) = choose|x: int, y: int| 0 <= x < y < sel.len() && x < a && sv[x] == sv[y];
                    assert(!(sv[x] != sv[y]));
                }
            }
        }
        a += 1;
    }
    proof {
        assert(distinct <==> sv.no_duplicates()) by {
            if distinct {
                assert forall|x: int, y: int| 0 <= x < sv.len() && 0 <= y < sv.len() && x != y implies sv[x] != sv[y] by {
                    if x < y {
                    } else {
                    }
                }
            } else {
                let (x, y) = choose|x: int, y: int| 0 <= x < y < sel.len() && x < a && !(sv[x] != sv[y]);
            }
        }
    }
    if sel.len() == 0 || !distinct || tt.len() == 0 {
        return Err(ScopeError::InvalidSelection);
    }
    let mut ps: Vec<usize> = Vec::new();
    let mut k: usize = 0;
    while k < sel.len()
        invariant
            k <= sel.len(),
            sv == sel.deep_view(),
            pv == page.deep_view(),
            sv == ids_view(selection.block_ids@),
            pv == ids_view(page_block_ids@),
            !(sv.len() == 0 || !sv.no_duplicates() || trim(selection.text@).len() == 0),
            forall|m: int| 0 <= m < k ==> #[trigger] position_of(pv, sv[m], 0) is Some,
            ps@.map_values(|p: usize| p as int) == positions(sv, pv).take(k as int),
            ps.len() == k,
            forall|m: int| 0 <= m < ps.len() ==> #[trigger] ps@[m] < page.len(),
        decreases sel.len() - k,
    {
        proof {
            lemma_chars_deep(&sel@[k as int]);
            assert(sv[k as int] == sel@[k as int]@);
        }
        match position_exec(&page, &sel[k]) {
            Some(p) => {
                let ghost before = ps@;
                ps.push(p);
                proof {
                    assert(ps@.map_values(|p: usize| p as int) =~= positions(sv, pv).take(k + 1));
                }
            },
            None => {
                proof {
                    assert(!all_on_page(sv, pv)) by {
                        assert(position_of(pv, sv[k as int], 0) is None);
                    }
                }
                return Err(ScopeError::BlockNotOnPage);
            },
        }
        k += 1;
    }
    proof {
        assert(positions(sv, pv).take(k as int) =~= positions(sv, pv));
        assert(all_on_page(sv, pv));
    }
    let n = ps.len();
    let mut w: usize = 0;
    proof {
        assert(n > 0);
    }
    while w + 1 < n
        invariant
            w < n,
            n == ps.len(),
            ps.len() == sel.len(),
            sv == ids_view(selection.block_ids@),
            pv == ids_view(page_block_ids@),
            !(sv.len() == 0 || !sv.no_duplicates() || trim(selection.text@).len() == 0),
            all_on_page(sv, pv),
            ps@.map_values(|p: usize| p as int) == positions(sv, pv),
            forall|m: int| 0 <= m < ps.len() ==> #[trigger] ps@[m] < page.len(),
            forall|m: int| 0 <= m < w ==> #[trigger] positions(sv, pv)[m + 1] == positions(sv, pv)[m] + 1,
        decreases n - w,
    {
        if ps[w + 1] != ps[w] + 1 {
            proof {
                assert(positions(sv, pv)[w + 1] != positions(sv, pv)[w as int] + 1);
            }
            return Err(ScopeError::NotContiguous);
        }
        proof {
            assert(positions(sv, pv)[w + 1] == positions(sv, pv)[w as int] + 1);
        }
        w += 1;
    }
    proof {
        assert(consecutive(positions(sv, pv)));
    }
    Ok(ps)
}

/// The starts of the non-overlapping occurrences of `pat` in `text` from
/// `from` on, left to right (`str::match_indices`).
pub open spec fn match_starts(text: Seq<char>, pat: Seq<char>, from: int) -> Seq<int>
    recommends
        pat.len() > 0,
    decreases text.len() + 1 - from,
{
    if pat.len() == 0 || from < 0 {
        seq![]
    } else {
        match find_from(text, pat, from) {
            Some(k) => {
                proof {
                    lemma_find_from(text, pat, from);
                }
                seq![k] + match_starts(text, pat, k + pat.len())
            },
            None => seq![],
        }
    }
}

/// Whether the selected text can be found spanning exactly the selected
/// blocks: an occurrence (among the non-overlapping ones, left to right) in
/// the blocks' texts joined by spaces that starts inside the first block and
/// ends inside the last. Positions are counted in characters; every compared
/// position is a character boundary, so the comparisons are those of the
/// byte offsets.
pub open spec fn matches_bounds_spec(parts: Seq<Seq<char>>, selected: Seq<char>) -> bool {
    let text = join(parts, " "@);
    let last_start = text.len() - parts.last().len();
    exists|i: int| 0 <= i < match_starts(text, selected, 0).len() && #[trigger] match_starts(text, selected, 0)[i]
        < parts[0].len() && match_starts(text, selected, 0)[i] + selected.len() > last_start
}

pub fn selection_matches_bounds(parts: &Vec<Vec<char>>, selected: &Vec<char>) -> (r: bool)
    requires
        parts.len() > 0,
        selected.len() > 0,
    ensures
        r == matches_bounds_spec(parts.deep_view(), selected@),
{
    let sep = chars_of(" ");
    let text = join_exec(parts, &sep);
    let _n = text.len();
    proof {
        lemma_chars_deep(&parts@[0]);
        lemma_chars_deep(&parts@[parts.len() - 1]);
        lemma_join_len(parts.deep_view(), sep@);
    }
    let first_len = parts[0].len();
    let last_start = text.len() - parts[parts.len() - 1].len();
    proof {
        assert(parts.deep_view()[0] == parts@[0].deep_view());
        assert(parts.deep_view().last() == parts@[parts.len() - 1].deep_view());
        assert(sep@ == " "@);
        assert(text@ == join(parts.deep_view(), " "@));
    }
    let ghost ms = match_starts(text@, selected@, 0);
    let mut from: usize = 0;
    let ghost mut seen: int = 0;
    loop
        invariant
            from <= text.len(),
            0 <= seen <= ms.len(),
            ms == match_starts(text@, selected@, 0),
            ms.skip(seen) == match_starts(text@, selected@, from as int),
            selected@.len() > 0,
            parts.len() > 0,
            text@ == join(parts.deep_view(), " "@),
            first_len == parts.deep_view()[0].len(),
            last_start == text@.len() - parts.deep_view().last().len(),
            forall|i: int| 0 <= i < seen ==> !(#[trigger] ms[i] < first_len && ms[i] + selected@.len() > last_start),
        decreases text.len() - from,
    {
        match find_from_exec(&text, selected, from) {
            None => {
                proof {
                    assert(match_starts(text@, selected@, from as int) =~= Seq::<int>::empty());
                    assert(ms.len() == seen) by {
                        assert(ms.skip(seen).len() == 0);
                    }
                    assert(!matches_bounds_spec(parts.deep_view(), selected@)) by {
                        if matches_bounds_spec(parts.deep_view(), selected@) {
                            let i = choose|i: int| 0 <= i < ms.len() && #[trigger] ms[i] < first_len && ms[i] + selected@.len() > last_start;
                            assert(!(ms[i] < first_len && ms[i] + selected@.len() > last_start));
                        }
                    }
                }
                return false;
            },
            Some(k) => {
                proof {
                    lemma_find_from(text@, selected@, from as int);
                    assert(ms.skip(seen)[0] == k);
                    assert(ms[seen] == k);
                    assert(ms.skip(seen).drop_first() =~= ms.skip(seen + 1));
                }
                if k < first_len && k + selected.len() > last_start {
                    proof {
                        assert(ms[seen] < first_len && ms[seen] + selected@.len() > last_start);
                    }
                    return true;
                }
                proof {
                    seen = seen + 1;
                }
                from = k + selected.len();
            },
        }
    }
}

proof fn lemma_join_len(parts: Seq<Seq<char>>, sep: Seq<char>)
    requires
        parts.len() > 0,
    ensures
        join(parts, sep).len() >= parts.last().len(),
        join(parts, sep).len() >= parts[0].len(),
    decreases parts.len(),
{
    if parts.len() > 1 {
        lemma_join_len(parts.drop_last(), sep);
    }
}

/// A page reads as a book: marked `collection: book` or `type: book`, or
/// `book: true` (as a boolean or a string), or titled under `Books/`.
pub open spec fn is_book_page_spec(title: Seq<char>, p: Option<Seq<(Seq<char>, (bool, Seq<char>))>>) -> bool {
    ||| get_prop(p, "collection"@) == Some((true, "book"@))
    ||| get_prop(p, "type"@) == Some((true, "book"@))
    ||| get_prop(p, "book"@) == Some((false, "true"@))
    ||| get_prop(p, "book"@) == Some((true, "true"@))
    ||| starts_with(title, "Books/"@)
}

fn prop_equals(page: &Page, key: &str, text: bool, value: &str) -> (r: bool)
    ensures
        r == (get_prop(props_view(page.properties), key@) == Some((text, value@))),
{
    match property_value(&page.properties, key) {
        Some((t, v)) => {
            let vc = chars_of(v.as_str());
            t == text && eq_str(&vc, value)
        },
        None => false,
    }
}

/// Whether a page reads as a book (see [`is_book_page_spec`]).
pub fn is_book_page(page: &Page) -> (r: bool)
    ensures
        r == is_book_page_spec(page.title@, props_view(page.properties)),
{
    let title = chars_of(page.title.as_str());
    prop_equals(page, "collection", true, "book") || prop_equals(page, "type", true, "book")
        || prop_equals(page, "book", false, "true") || prop_equals(page, "book", true, "true")
        || starts_with_str(&title, "Books/")
}

/// The texts of the blocks at the given positions.
pub open spec fn texts_at(texts: Seq<Seq<char>>, ps: Seq<int>) -> Seq<Seq<char>> {
    ps.map_values(|p: int| texts[p])
}

/// What a selection exposes: the position of its first block and the text
/// that block is read as (the selection's own text, its note references
/// already stripped by the caller). Rejected as [`selection_indices_spec`]
/// says; when the stripped text collapses to nothing; and when the
/// normalised text is found spanning the selected blocks neither in their
/// normalised source nor in their rendered text.
pub open spec fn capture_selection_spec(
    sel_ids: Seq<Seq<char>>,
    text: Seq<char>,
    stripped: Seq<char>,
    page_ids: Seq<Seq<char>>,
    contents: Seq<Seq<char>>,
    rendered: Seq<Seq<char>>,
) -> Result<(int, Seq<char>), ScopeError> {
    match selection_indices_spec(sel_ids, text, page_ids) {
        Err(e) => Err(e),
        Ok(ps) => {
            let st = normalize_spec(stripped);
            if st.len() == 0 {
                Err(ScopeError::EmptySelectionText)
            } else if !matches_bounds_spec(texts_at(contents.map_values(|c: Seq<char>| normalize_spec(c)), ps), st)
                && !matches_bounds_spec(texts_at(rendered, ps), st) {
                Err(ScopeError::TextMismatch)
            } else {
                Ok((ps[0], stripped))
            }
        },
    }
}

fn texts_at_exec(texts: &Vec<Vec<char>>, ps: &Vec<usize>) -> (r: Vec<Vec<char>>)
    requires
        forall|m: int| 0 <= m < ps.len() ==> #[trigger] ps@[m] < texts.len(),
    ensures
        r.deep_view() == texts_at(texts.deep_view(), ps@.map_values(|p: usize| p as int)),
{
    let mut out: Vec<Vec<char>> = Vec::new();
    let mut i: usize = 0;
    while i < ps.len()
        invariant
            i <= ps.len(),
            forall|m: int| 0 <= m < ps.len() ==> #[trigger] ps@[m] < texts.len(),
            out.deep_view() == texts_at(texts.deep_view(), ps@.map_values(|p: usize| p as int)).take(i as int),
        decreases ps.len() - i,
    {
        let t = slice_all(&texts[ps[i]]);
        let ghost before = out.deep_view();
        let ghost tv = t@;
        out.push(t);
        proof {
            lemma_push_deep(before, &out, tv);
            lemma_chars_deep(&texts@[ps@[i as int] as int]);
            assert(texts.deep_view()[ps@[i as int] as int] == texts@[ps@[i as int] as int]@);
            assert(texts_at(texts.deep_view(), ps@.map_values(|p: usize| p as int)).take(i + 1)
                =~= before.push(tv));
        }
        i += 1;
    }
    proof {
        assert(texts_at(texts.deep_view(), ps@.map_values(|p: usize| p as int)).take(i as int)
            =~= texts_at(texts.deep_view(), ps@.map_values(|p: usize| p as int)));
    }
    out
}

fn slice_all(v: &Vec<char>) -> (r: Vec<char>)
    ensures
        r@ == v@,
{
    let r = crate::text::slice(v, 0, v.len());
    proof {
        assert(r@ =~= v@);
    }
    r
}

/// Check a selection against its page and return the block it exposes:
/// the first selected block, read as the selection's stripped text only.
/// `rendered` holds each page block's text as rendered Markdown.
pub fn capture_selection(
    selection: &ReadingSelection,
    stripped_text: &str,
    blocks: &[Block],
    rendered: &[String],
) -> (r: Result<Block, ScopeError>)
    requires
        rendered@.len() == blocks@.len(),
    ensures
        match r {
            Ok(b) => capture_selection_spec(
                ids_view(selection.block_ids@),
                selection.text@,
                stripped_text@,
                blocks@.map_values(|b: Block| b.id@),
                blocks@.map_values(|b: Block| b.content@),
                ids_view(rendered@),
            ) matches Ok((p, t)) && b.id@ == blocks@[p].id@ && b.content@ == t,
            Err(e) => capture_selection_spec(
                ids_view(selection.block_ids@),
                selection.text@,
                stripped_text@,
                blocks@.map_values(|b: Block| b.id@),
                blocks@.map_values(|b: Block| b.content@),
                ids_view(rendered@),
            ) == Err::<(int, Seq<char>), ScopeError>(e),
        },
{
    let mut ids: Vec<String> = Vec::new();
    let mut contents: Vec<Vec<char>> = Vec::new();
    let mut k: usize = 0;
    while k < blocks.len()
        invariant
            k <= blocks.len(),
            ids_view(ids@) == blocks@.map_values(|b: Block| b.id@).take(k as int),
            contents.deep_view() == blocks@.map_values(|b: Block| normalize_spec(b.content@)).take(k as int),
        decreases blocks.len() - k,
    {
        let id = blocks[k].id.clone();
        let ghost before = ids@;
        let ghost idv = id@;
        ids.push(id);
        proof {
            assert(idv == blocks@[k as int].id@);
            assert(ids_view(ids@) =~= ids_view(before).push(idv));
        }
        let n = normalize(blocks[k].content.as_str());
        let nc = chars_of(n.as_str());
        let ghost cb = contents.deep_view();
        let ghost ncv = nc@;
        contents.push(nc);
        proof {
            lemma_push_deep(cb, &contents, ncv);
            assert(ids_view(ids@) =~= blocks@.map_values(|b: Block| b.id@).take(k + 1));
            assert(contents.deep_view() =~= blocks@.map_values(|b: Block| normalize_spec(b.content@)).take(k + 1));
        }
        k += 1;
    }
    proof {
        assert(ids_view(ids@) =~= blocks@.map_values(|b: Block| b.id@));
        assert(contents.deep_view() =~= blocks@.map_values(|b: Block| normalize_spec(b.content@)));
        assert(blocks@.map_values(|b: Block| normalize_spec(b.content@)) =~= blocks@.map_values(|b: Block| b.content@).map_values(|c: Seq<char>| normalize_spec(c)));
    }
    let ps = match selection_indices(selection, ids.as_slice()) {
        Ok(ps) => ps,
        Err(e) => {
            return Err(e);
        },
    };
    let ghost psv = ps@.map_values(|p: usize| p as int);
    proof {
        lemma_selection_positions(ids_view(selection.block_ids@), selection.text@, ids_view(ids@), psv);
        assert forall|m: int| 0 <= m < ps.len() implies #[trigger] ps@[m] < blocks.len() by {
            assert(psv[m] == ps@[m] as int);
        }
    }
    let normalized = normalize(stripped_text);
    let st = chars_of(normalized.as_str());
    if st.len() == 0 {
        return Err(ScopeError::EmptySelectionText);
    }
    let rendered_chars = to_chars_list(rendered);
    proof {
        assert(rendered_chars.deep_view().len() == rendered_chars.len());
        assert(rendered_chars.len() == blocks.len());
        assert(contents.deep_view().len() == contents.len());
    }
    let by_source = texts_at_exec(&contents, &ps);
    let by_render = texts_at_exec(&rendered_chars, &ps);
    proof {
        assert(ps.len() > 0);
        assert(by_source.deep_view().len() == by_source.len());
        assert(by_render.deep_view().len() == by_render.len());
    }
    if !selection_matches_bounds(&by_source, &st) && !selection_matches_bounds(&by_render, &st) {
        return Err(ScopeError::TextMismatch);
    }
    let first = ps[0];
    Ok(Block {
        id: blocks[first].id.clone(),
        parent_id: blocks[first].parent_id.clone(),
        content: crate::text::owned(stripped_text),
        order_index: blocks[first].order_index,
    })
}

/// The positions a valid selection yields are on the page, and there is at
/// least one.
proof fn lemma_selection_positions(sel_ids: Seq<Seq<char>>, text: Seq<char>, page: Seq<Seq<char>>, ps: Seq<int>)
    requires
        selection_indices_spec(sel_ids, text, page) == Ok::<Seq<int>, ScopeError>(ps),
    ensures
        ps.len() > 0,
        forall|m: int| 0 <= m < ps.len() ==> 0 <= #[trigger] ps[m] < page.len(),
{
    assert forall|m: int| 0 <= m < ps.len() implies 0 <= #[trigger] ps[m] < page.len() by {
        assert(position_of(page, sel_ids[m], 0) is Some);
        lemma_position_of(page, sel_ids[m], 0);
    }
}

proof fn lemma_position_of(ids: Seq<Seq<char>>, id: Seq<char>, i: int)
    requires
        0 <= i,
    ensures
        position_of(ids, id, i) matches Some(p) ==> i <= p < ids.len() && ids[p] == id,
    decreases ids.len() - i,
{
    if i < ids.len() && ids[i] != id {
        lemma_position_of(ids, id, i + 1);
    }
}


// ---------------------------------------------------------------------------
// Markdown as it reads.
// ---------------------------------------------------------------------------

/// The Markdown parser's events the reading texts are made of.
pub enum MdEvent {
    Text(String),
    Code(String),
    SoftBreak,
    HardBreak,
    Rule,
    StartHeading(u8),
    EndHeading,
    EndParagraph,
    EndItem,
    EndCodeBlock,
    EndTableCell,
    EndTableRow,
    Other,
}

/// An event as plain values: kind (0 text, 1 code, 2 soft break, 3 hard
/// break, 4 rule, 5 heading start, 6 heading end, 7–11 the ends of a
/// paragraph, item, code block, table cell, table row, 12 anything else),
/// heading level, text.
pub type MdView = (u8, u8, Seq<char>);

pub open spec fn md_view(e: MdEvent) -> MdView {
    match e {
        MdEvent::Text(t) => (0u8, 0u8, t@),
        MdEvent::Code(t) => (1u8, 0u8, t@),
        MdEvent::SoftBreak => (2u8, 0u8, Seq::empty()),
        MdEvent::HardBreak => (3u8, 0u8, Seq::empty()),
        MdEvent::Rule => (4u8, 0u8, Seq::empty()),
        MdEvent::StartHeading(l) => (5u8, l, Seq::empty()),
        MdEvent::EndHeading => (6u8, 0u8, Seq::empty()),
        MdEvent::EndParagraph => (7u8, 0u8, Seq::empty()),
        MdEvent::EndItem => (8u8, 0u8, Seq::empty()),
        MdEvent::EndCodeBlock => (9u8, 0u8, Seq::empty()),
        MdEvent::EndTableCell => (10u8, 0u8, Seq::empty()),
        MdEvent::EndTableRow => (11u8, 0u8, Seq::empty()),
        MdEvent::Other => (12u8, 0u8, Seq::empty()),
    }
}

pub open spec fn md_views(es: Seq<MdEvent>) -> Seq<MdView> {
    es.map_values(|e: MdEvent| md_view(e))
}

/// The events `pulldown_cmark::Parser::new_ext` with all options yields for
/// a Markdown text.
pub uninterp spec fn spec_markdown_events(markdown: Seq<char>) -> Seq<MdView>;

/// `pulldown_cmark::Parser::new_ext(markdown, Options::all())`, each event
/// converted one for one. The result is named; CommonMark parsing is not
/// restated.
#[verifier::external_body]
fn markdown_events(markdown: &str) -> (r: Vec<MdEvent>)
    ensures
        md_views(r@) == spec_markdown_events(markdown@),
{
    Parser::new_ext(markdown, Options::all()).map(|e| match e {
        Event::Text(t) => MdEvent::Text(t.to_string()),
        Event::Code(t) => MdEvent::Code(t.to_string()),
        Event::SoftBreak => MdEvent::SoftBreak,
        Event::HardBreak => MdEvent::HardBreak,
        Event::Rule => MdEvent::Rule,
        Event::Start(Tag::Heading { level, .. }) => MdEvent::StartHeading(level as u8),
        Event::End(TagEnd::Heading(_)) => MdEvent::EndHeading,
        Event::End(TagEnd::Paragraph) => MdEvent::EndParagraph,
        Event::End(TagEnd::Item) => MdEvent::EndItem,
        Event::End(TagEnd::CodeBlock) => MdEvent::EndCodeBlock,
        Event::End(TagEnd::TableCell) => MdEvent::EndTableCell,
        Event::End(TagEnd::TableRow) => MdEvent::EndTableRow,
        _ => MdEvent::Other,
    }).collect()
}

/// The text of the events: texts and code as they are, a space for each
/// break, rule and end of a paragraph, heading, item, code block, cell or
/// row.
pub open spec fn events_text(es: Seq<MdView>) -> Seq<char>
    decreases es.len(),
{
    if es.len() == 0 {
        Seq::empty()
    } else {
        let k = es.last().0;
        events_text(es.drop_last()) + if k == 0 || k == 1 {
            es.last().2
        } else if k == 2 || k == 3 || k == 4 || (6 <= k && k <= 11) {
            " "@
        } else {
            Seq::empty()
        }
    }
}

/// The label a wiki link `[[target|label]]` shows: after the first `|`, or
/// the whole target.
pub open spec fn wiki_label_spec(inner: Seq<char>) -> Seq<char> {
    match find(inner, "|"@) {
        Some(k) => inner.subrange(k + 1, inner.len() as int),
        None => inner,
    }
}

pub fn wiki_label(inner: &str) -> (r: String)
    ensures
        r@ == wiki_label_spec(inner@),
{
    let c = chars_of(inner);
    let bar = chars_of("|");
    match crate::text::find_exec(&c, &bar) {
        Some(k) => {
            proof {
                reveal_strlit("|");
                crate::text::lemma_find_from(c@, bar@, 0);
                assert(crate::text::matches_at(c@, bar@, k as int));
                assert(k + 1 <= c.len());
            }
            string_of(&crate::text::slice(&c, k + 1, c.len()))
        },
        None => string_of(&c),
    }
}

/// A wiki link `[[…]]`, its inside as group 1.
pub open spec fn wiki_link_re() -> Seq<char> {
    "\\[\\[([^\\[\\]\\n]+)\\]\\]"@
}

/// The label of each wiki link.
pub open spec fn wiki_label_reps(ms: Seq<(int, int, Seq<Option<Seq<char>>>)>) -> Seq<Seq<char>> {
    ms.map_values(|m: (int, int, Seq<Option<Seq<char>>>)| wiki_label_spec(group_text(m, 1)))
}

/// A text with its wiki links, given as the matches of `wiki_link_re`,
/// shown by their labels.
pub open spec fn labelled_text(text: Seq<char>, ms: Seq<(int, int, Seq<Option<Seq<char>>>)>) -> Seq<char> {
    splice_matches(text, ms, wiki_label_reps(ms))
}

/// A text with its wiki links shown by their labels.
pub open spec fn wiki_labels_spec(text: Seq<char>) -> Seq<char> {
    labelled_text(text, spec_captures(wiki_link_re(), text))
}

/// A text with its wiki links, given as the matches of `wiki_link_re` in
/// it, shown by their labels.
pub fn replace_wiki_links_at(text: &str, ms: &Vec<CaptureMatch>) -> (r: String)
    requires
        matches_ok(text@, ms@.map_values(|m: CaptureMatch| capture_view(m))),
    ensures
        r@ == labelled_text(text@, ms@.map_values(|m: CaptureMatch| capture_view(m))),
{
    let ghost mv = ms@.map_values(|m: CaptureMatch| capture_view(m));
    let mut reps: Vec<Vec<char>> = Vec::new();
    let mut i: usize = 0;
    proof {
        assert(reps.deep_view() =~= wiki_label_reps(mv).take(0));
    }
    while i < ms.len()
        invariant
            i <= ms@.len(),
            mv == ms@.map_values(|m: CaptureMatch| capture_view(m)),
            reps.deep_view() == wiki_label_reps(mv).take(i as int),
        decreases ms@.len() - i,
    {
        let g = group_text_exec(&ms[i], 1);
        let gs = string_of(&g);
        let label = wiki_label(gs.as_str());
        let rc = chars_of(label.as_str());
        let ghost before = reps.deep_view();
        let ghost rcv = rc@;
        reps.push(rc);
        proof {
            assert(mv[i as int] == capture_view(ms@[i as int]));
            crate::text::lemma_chars_deep(&reps@[i as int]);
            assert(reps.deep_view() =~= before.push(rcv));
            assert(reps.deep_view() =~= wiki_label_reps(mv).take(i + 1));
        }
        i += 1;
    }
    proof {
        assert(wiki_label_reps(mv).take(i as int) =~= wiki_label_reps(mv));
    }
    let tc = chars_of(text);
    let out = splice_matches_exec(&tc, ms, &reps);
    string_of(&out)
}

/// A text with its wiki links shown by their labels.
fn replace_wiki_links(text: &str) -> (r: String)
    ensures
        r@ == wiki_labels_spec(text@),
{
    let ms = captures("\\[\\[([^\\[\\]\\n]+)\\]\\]", text);
    replace_wiki_links_at(text, &ms)
}

/// A block's Markdown as it reads: its text with wiki links shown by their
/// labels, white space collapsed.
pub open spec fn rendered_text_spec(markdown: Seq<char>) -> Seq<char> {
    normalize_spec(wiki_labels_spec(events_text(spec_markdown_events(markdown))))
}

pub fn rendered_text(markdown: &str) -> (r: String)
    ensures
        r@ == rendered_text_spec(markdown@),
{
    let es = markdown_events(markdown);
    let mut out: Vec<char> = Vec::new();
    let mut i: usize = 0;
    proof {
        assert(md_views(es@).take(0) =~= Seq::<MdView>::empty());
    }
    while i < es.len()
        invariant
            i <= es.len(),
            out@ == events_text(md_views(es@).take(i as int)),
        decreases es.len() - i,
    {
        proof {
            assert(md_views(es@).take(i + 1).drop_last() =~= md_views(es@).take(i as int));
        }
        match &es[i] {
            MdEvent::Text(t) => crate::text::push_str(&mut out, t.as_str()),
            MdEvent::Code(t) => crate::text::push_str(&mut out, t.as_str()),
            MdEvent::SoftBreak | MdEvent::HardBreak | MdEvent::Rule | MdEvent::EndHeading
            | MdEvent::EndParagraph | MdEvent::EndItem | MdEvent::EndCodeBlock | MdEvent::EndTableCell
            | MdEvent::EndTableRow => {
                out.push(' ');
                proof {
                    reveal_strlit(" ");
                }
            },
            _ => {},
        }
        i += 1;
    }
    proof {
        assert(md_views(es@).take(es.len() as int) =~= md_views(es@));
    }
    let replaced = replace_wiki_links(string_of(&out).as_str());
    normalize(replaced.as_str())
}

/// The title of a heading that starts a block: the texts up to the
/// heading's end, breaks as spaces.
pub open spec fn heading_title_from(es: Seq<MdView>, i: int, acc: Seq<char>) -> Seq<char>
    decreases es.len() - i,
{
    if i < 0 || i >= es.len() || es[i].0 == 6 {
        acc
    } else {
        let k = es[i].0;
        heading_title_from(
            es,
            i + 1,
            acc + if k == 0 || k == 1 {
                es[i].2
            } else if k == 2 || k == 3 {
                " "@
            } else {
                Seq::empty()
            },
        )
    }
}

fn heading_piece(e: &MdEvent) -> (r: (Vec<char>, bool))
    ensures
        r.1 == (md_view(*e).0 == 6),
        r.0@ == if md_view(*e).0 == 0 || md_view(*e).0 == 1 {
            md_view(*e).2
        } else if md_view(*e).0 == 2 || md_view(*e).0 == 3 {
            " "@
        } else {
            Seq::empty()
        },
{
    match e {
        MdEvent::EndHeading => (Vec::new(), true),
        MdEvent::Text(t) => (chars_of(t.as_str()), false),
        MdEvent::Code(t) => (chars_of(t.as_str()), false),
        MdEvent::SoftBreak | MdEvent::HardBreak => (chars_of(" "), false),
        _ => (Vec::new(), false),
    }
}

/// A block's heading: its level and title, when the block starts with a
/// heading whose title is not blank.
pub open spec fn block_heading_spec(content: Seq<char>) -> Option<(u8, Seq<char>)> {
    let es = spec_markdown_events(content);
    if es.len() == 0 || es[0].0 != 5 {
        None
    } else {
        let t = trim(heading_title_from(es, 1, Seq::empty()));
        if t.len() == 0 {
            None
        } else {
            Some((es[0].1, t))
        }
    }
}

pub fn block_heading(content: &str) -> (r: Option<(u8, String)>)
    ensures
        match r {
            Some((l, t)) => block_heading_spec(content@) == Some((l, t@)),
            None => block_heading_spec(content@) is None,
        },
{
    let es = markdown_events(content);
    let ghost ev = md_views(es@);
    if es.len() == 0 {
        return None;
    }
    let level = match &es[0] {
        MdEvent::StartHeading(l) => *l,
        _ => {
            return None;
        },
    };
    let mut title: Vec<char> = Vec::new();
    let mut i: usize = 1;
    while i < es.len()
        invariant
            1 <= i <= es.len(),
            ev == md_views(es@),
            heading_title_from(ev, 1, Seq::empty()) == heading_title_from(ev, i as int, title@),
        ensures
            heading_title_from(ev, 1, Seq::empty()) == title@,
        decreases es.len() - i,
    {
        let ghost before = title@;
        let (piece, end) = heading_piece(&es[i]);
        proof {
            assert(ev[i as int] == md_view(es@[i as int]));
        }
        if end {
            break;
        }
        crate::text::push_all(&mut title, &piece);
        proof {
            assert(heading_title_from(ev, i as int, before) == heading_title_from(ev, i + 1, title@));
        }
        i += 1;
    }
    proof {
        assert(heading_title_from(ev, 1, Seq::empty()) == title@);
        assert(ev[0] == md_view(es@[0]));
        assert(ev[0].1 == level);
    }
    let t = trim_chars(&title);
    if t.len() == 0 {
        None
    } else {
        Some((level, string_of(&t)))
    }
}

} // verus!
