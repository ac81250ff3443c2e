//! What a Chat question may read: nothing, the whole graph, one whole book,
//! or a page, block, section or selection. Absence of notes is never read as
//! "search everything".
use vstd::prelude::*;
use crate::collections::{collection_spec, collection_of, props_view, Page};
use crate::reading_scope::{
    ReadingScope, ReadingSelection, ReadingSource, ResearchScopeInfo, ResearchTarget,
};
use crate::text::{
    chars_of, contains_exec, eq_str, lemma_chars_deep, seq_eq, split_char, split_char_exec,
    starts_with, starts_with_str, string_of,
};

verus! {

/// The context a Chat question is asked in.
#[derive(Debug, Clone)]
pub enum AssistantContext {
    /// No notes at all.
    Nothing,
    Graph,
    Page { page_id: String },
    Book { page_id: String },
    Block { page_id: String, block_id: String },
    Section { page_id: String, block_id: String },
    Selection { page_id: String, selection: ReadingSelection },
}

/// How far an answer may reach beyond the notes.
#[derive(Debug, Clone, Copy, PartialEq, Eq, Structural)]
pub enum AssistantMode {
    Answer,
    Web,
    Deep,
}

/// Whether and how the web is consulted.
#[derive(Debug, Clone, Copy, PartialEq, Eq, Structural)]
pub enum ResearchWebMode {
    Off,
    Search,
    Research,
}

/// The web mode of an answering mode: none for a plain answer, a search for
/// `Web`, a research run for `Deep`.
pub open spec fn web_mode_spec(mode: AssistantMode) -> ResearchWebMode {
    match mode {
        AssistantMode::Answer => ResearchWebMode::Off,
        AssistantMode::Web => ResearchWebMode::Search,
        AssistantMode::Deep => ResearchWebMode::Research,
    }
}

pub fn web_mode_for(mode: AssistantMode) -> (r: ResearchWebMode)
    ensures
        r == web_mode_spec(mode),
{
    match mode {
        AssistantMode::Answer => ResearchWebMode::Off,
        AssistantMode::Web => ResearchWebMode::Search,
        AssistantMode::Deep => ResearchWebMode::Research,
    }
}

/// The book a page belongs to.
#[derive(Debug, Clone)]
pub struct AssistantBook {
    pub page_id: String,
    pub title: String,
}

/// A scope as shown to the reader, with the book it lies in.
#[derive(Debug, Clone)]
pub struct AssistantContextInfo {
    pub scope: ResearchScopeInfo,
    pub book: Option<AssistantBook>,
}

/// What a question was captured to read. The graph snapshot itself is held
/// by the caller that took it.
#[derive(Debug, Clone)]
pub enum AssistantSource {
    /// No notes at all.
    Nothing,
    Graph,
    Reading(Vec<ReadingSource>),
}

/// What has to be read for a context.
#[derive(Debug, Clone)]
pub enum CapturePlan {
    /// Nothing at all.
    Nothing,
    /// A snapshot of the whole graph.
    WholeGraph,
    /// Every page of the book whose root page is named.
    WholeBook(String),
    /// One reading target.
    Reading(ResearchTarget),
}

/// The plan as plain values: its kind (0 nothing, 1 graph, 2 book,
/// 3 reading), the page, the scope, the block and the selection's ids and
/// text.
pub open spec fn plan_view(p: CapturePlan) -> (nat, Seq<char>, Option<ReadingScope>, Option<Seq<char>>, Option<(Seq<Seq<char>>, Seq<char>)>) {
    match p {
        CapturePlan::Nothing => (0, seq![], None, None, None),
        CapturePlan::WholeGraph => (1, seq![], None, None, None),
        CapturePlan::WholeBook(id) => (2, id@, None, None, None),
        CapturePlan::Reading(t) => (3, t.page_id@, Some(t.scope), match t.block_id {
            Some(b) => Some(b@),
            None => None,
        }, match t.selection {
            Some(s) => Some((s.block_ids@.map_values(|i: String| i@), s.text@)),
            None => None,
        }),
    }
}

/// The plan a context calls for: each single-page context becomes the
/// reading target of the same scope with only its own fields.
pub open spec fn capture_plan_spec(c: AssistantContext) -> (nat, Seq<char>, Option<ReadingScope>, Option<Seq<char>>, Option<(Seq<Seq<char>>, Seq<char>)>) {
    match c {
        AssistantContext::Nothing => (0, seq![], None, None, None),
        AssistantContext::Graph => (1, seq![], None, None, None),
        AssistantContext::Book { page_id } => (2, page_id@, None, None, None),
        AssistantContext::Page { page_id } => (3, page_id@, Some(ReadingScope::Page), None, None),
        AssistantContext::Block { page_id, block_id } => (3, page_id@, Some(ReadingScope::Block), Some(block_id@), None),
        AssistantContext::Section { page_id, block_id } => (3, page_id@, Some(ReadingScope::Section), Some(block_id@), None),
        AssistantContext::Selection { page_id, selection } => (3, page_id@, Some(ReadingScope::Selection), None, Some(
            (selection.block_ids@.map_values(|i: String| i@), selection.text@),
        )),
    }
}

fn clone_ids(ids: &Vec<String>) -> (r: Vec<String>)
    ensures
        r@.map_values(|i: String| i@) == ids@.map_values(|i: String| i@),
{
    let mut out: Vec<String> = Vec::new();
    let mut i: usize = 0;
    while i < ids.len()
        invariant
            i <= ids.len(),
            out@.map_values(|i: String| i@) == ids@.map_values(|i: String| i@).take(i as int),
        decreases ids.len() - i,
    {
        let s = ids[i].clone();
        let ghost before = out@;
        let ghost sv = s@;
        out.push(s);
        proof {
            assert(sv == ids@[i as int]@);
            assert(out@.map_values(|i: String| i@) =~= before.map_values(|i: String| i@).push(sv));
            assert(out@.map_values(|i: String| i@) =~= ids@.map_values(|i: String| i@).take(i + 1));
        }
        i += 1;
    }
    proof {
        assert(ids@.map_values(|i: String| i@).take(i as int) =~= ids@.map_values(|i: String| i@));
    }
    out
}

/// Decide what a context has to read.
pub fn capture_plan(context: &AssistantContext) -> (r: CapturePlan)
    ensures
        plan_view(r) == capture_plan_spec(*context),
{
    match context {
        AssistantContext::Nothing => CapturePlan::Nothing,
        AssistantContext::Graph => CapturePlan::WholeGraph,
        AssistantContext::Book { page_id } => CapturePlan::WholeBook(page_id.clone()),
        AssistantContext::Page { page_id } => CapturePlan::Reading(ResearchTarget {
            page_id: page_id.clone(),
            scope: ReadingScope::Page,
            block_id: None,
            selection: None,
        }),
        AssistantContext::Block { page_id, block_id } => CapturePlan::Reading(ResearchTarget {
            page_id: page_id.clone(),
            scope: ReadingScope::Block,
            block_id: Some(block_id.clone()),
            selection: None,
        }),
        AssistantContext::Section { page_id, block_id } => CapturePlan::Reading(ResearchTarget {
            page_id: page_id.clone(),
            scope: ReadingScope::Section,
            block_id: Some(block_id.clone()),
            selection: None,
        }),
        AssistantContext::Selection { page_id, selection } => {
            let ids = clone_ids(&selection.block_ids);
            CapturePlan::Reading(ResearchTarget {
                page_id: page_id.clone(),
                scope: ReadingScope::Selection,
                block_id: None,
                selection: Some(ReadingSelection { block_ids: ids, text: selection.text.clone() }),
            })
        },
    }
}

/// A page is a book collection: not a journal day, marked with the kind
/// `book`.
pub open spec fn is_book_collection_spec(page: Page) -> bool {
    !page.is_journal && match collection_spec(props_view(page.properties)) {
        Some((kind, _)) => kind == "book"@,
        None => false,
    }
}

pub fn is_book_collection(page: &Page) -> (r: bool)
    ensures
        r == is_book_collection_spec(*page),
{
    if page.is_journal {
        return false;
    }
    match collection_of(page) {
        Some(info) => {
            let k = chars_of(info.kind.as_str());
            eq_str(&k, "book")
        },
        None => false,
    }
}

/// The book folder an imported page's title names: the first path segment
/// after `Books/`, unless empty, `.`, `..` or holding a backslash.
pub open spec fn book_folder_spec(title: Seq<char>) -> Option<Seq<char>> {
    if !starts_with(title, "Books/"@) {
        None
    } else {
        let folder = split_char(title.skip(6), '/')[0];
        if folder.len() == 0 || folder == "."@ || folder == ".."@ || folder.contains('\\') {
            None
        } else {
            Some(folder)
        }
    }
}

pub fn imported_book_folder(title: &str) -> (r: Option<String>)
    ensures
        match r {
            Some(f) => book_folder_spec(title@) == Some(f@),
            None => book_folder_spec(title@) is None,
        },
{
    proof {
        reveal_strlit("Books/");
    }
    let t = chars_of(title);
    if !starts_with_str(&t, "Books/") {
        return None;
    }
    let rest = crate::text::slice(&t, 6, t.len());
    proof {
        assert(rest@ =~= t@.skip(6));
    }
    let parts = split_char_exec(&rest, '/');
    proof {
        lemma_split_nonempty(rest@, '/');
        lemma_chars_deep(&parts@[0]);
    }
    let folder = &parts[0];
    let mut has_backslash = false;
    let mut i: usize = 0;
    while i < folder.len()
        invariant
            i <= folder.len(),
            has_backslash <==> exists|k: int| 0 <= k < i && folder@[k] == '\\',
        decreases folder.len() - i,
    {
        if folder[i] == '\\' {
            has_backslash = true;
        }
        i += 1;
    }
    proof {
        assert(has_backslash <==> folder@.contains('\\'));
    }
    if folder.len() == 0 || eq_str(folder, ".") || eq_str(folder, "..") || has_backslash {
        return None;
    }
    Some(string_of(folder))
}

/// Splitting always yields at least one piece.
proof fn lemma_split_nonempty(s: Seq<char>, c: char)
    ensures
        split_char(s, c).len() > 0,
{
}

/// An import manifest names a book: written by the book importer and
/// listing the page among the pages it generated.
pub open spec fn manifest_names_book_spec(importer_version: Seq<char>, generated: Seq<Seq<char>>, title: Seq<char>) -> bool {
    starts_with(importer_version, "grafium-book-import-"@) && generated.contains(title)
}

pub fn manifest_names_book(importer_version: &str, generated_pages: &[String], title: &str) -> (r: bool)
    ensures
        r == manifest_names_book_spec(importer_version@, generated_pages@.map_values(|p: String| p@), title@),
{
    let v = chars_of(importer_version);
    if !starts_with_str(&v, "grafium-book-import-") {
        return false;
    }
    let t = chars_of(title);
    let ghost gv = generated_pages@.map_values(|p: String| p@);
    let mut i: usize = 0;
    while i < generated_pages.len()
        invariant
            i <= generated_pages.len(),
            gv == generated_pages@.map_values(|p: String| p@),
            forall|k: int| 0 <= k < i ==> gv[k] != t@,
            v@ == importer_version@,
            t@ == title@,
            starts_with(v@, "grafium-book-import-"@),
        decreases generated_pages.len() - i,
    {
        let g = chars_of(generated_pages[i].as_str());
        if seq_eq(&g, &t) {
            proof {
                assert(gv[i as int] == t@);
            }
            return true;
        }
        i += 1;
    }
    false
}

/// The ids in order, each kept once, leaving out those already `seen`.
pub open spec fn new_ids(seen: Seq<Seq<char>>, ids: Seq<Seq<char>>) -> Seq<Seq<char>>
    decreases ids.len(),
{
    if ids.len() == 0 {
        seq![]
    } else {
        let prev = new_ids(seen, ids.drop_last());
        if seen.contains(ids.last()) || prev.contains(ids.last()) {
            prev
        } else {
            prev.push(ids.last())
        }
    }
}

/// The members of a book collection: the pages its blocks link to, in
/// order, each once, never the book page itself.
pub fn collection_members(page_id: &str, linked_ids: &[String]) -> (r: Vec<String>)
    ensures
        r@.map_values(|i: String| i@) == new_ids(seq![page_id@], linked_ids@.map_values(|i: String| i@)),
{
    let ghost lv = linked_ids@.map_values(|i: String| i@);
    let pid = chars_of(page_id);
    let mut out: Vec<String> = Vec::new();
    let mut i: usize = 0;
    proof {
        assert(out@.map_values(|i: String| i@) =~= new_ids(seq![page_id@], lv.take(0)));
    }
    while i < linked_ids.len()
        invariant
            i <= linked_ids.len(),
            lv == linked_ids@.map_values(|i: String| i@),
            pid@ == page_id@,
            out@.map_values(|i: String| i@) == new_ids(seq![page_id@], lv.take(i as int)),
        decreases linked_ids.len() - i,
    {
        let id = chars_of(linked_ids[i].as_str());
        proof {
            assert(lv.take(i + 1).drop_last() =~= lv.take(i as int));
            assert(lv.take(i + 1).last() == id@);
        }
        let ghost ov = out@.map_values(|i: String| i@);
        let mut seen = seq_eq(&id, &pid);
        proof {
            assert(seen <==> seq![page_id@].contains(id@)) by {
                if seq![page_id@].contains(id@) {
                    let k = choose|k: int| 0 <= k < 1 && seq![page_id@][k] == id@;
                    assert(k == 0);
                }
                if seen {
                    assert(seq![page_id@][0] == id@);
                }
            }
        }
        let mut k: usize = 0;
        while k < out.len()
            invariant
                k <= out.len(),
                ov == out@.map_values(|i: String| i@),
                seen <==> (seq![page_id@].contains(id@) || exists|m: int| 0 <= m < k && ov[m] == id@),
            decreases out.len() - k,
        {
            let o = chars_of(out[k].as_str());
            if seq_eq(&o, &id) {
                proof {
                    assert(ov[k as int] == id@);
                }
                seen = true;
            }
            k += 1;
        }
        proof {
            assert((exists|m: int| 0 <= m < k && ov[m] == id@) <==> ov.contains(id@));
        }
        if !seen {
            let s = string_of(&id);
            out.push(s);
            proof {
                assert(out@.map_values(|i: String| i@) =~= ov.push(id@));
            }
        }
        i += 1;
    }
    proof {
        assert(lv.take(i as int) =~= lv);
    }
    out
}

/// A book may only be read as a whole from its own root page.
pub fn check_book_root(root_id: &str, page_id: &str) -> (r: Result<(), String>)
    ensures
        r is Ok <==> root_id@ == page_id@,
        r matches Err(m) ==> m@ == "Chat context: select the identified whole book, not its current member"@,
{
    let a = chars_of(root_id);
    let b = chars_of(page_id);
    if seq_eq(&a, &b) {
        Ok(())
    } else {
        Err(crate::text::owned("Chat context: select the identified whole book, not its current member"))
    }
}

} // verus!
