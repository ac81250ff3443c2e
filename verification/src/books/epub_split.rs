//! Cutting one EPUB content file into chapters at the anchors that its
//! table-of-contents entries point to.
use vstd::prelude::*;
use crate::books::clean::tag_re;
use crate::books::epub::{
    attr_events, attr_get, attr_lookup, entries_view, entry_view, pairs_view, parse_attrs,
    EpubTocEntry, TocEntryView,
};
use crate::books::epub_toc::copy_toc_entry;
use crate::patterns::{find_iter, found_view, spec_find_iter, well_placed, FoundMatch};
use crate::text::{
    lemma_char_index_mono, lemma_chars_deep, chars_of, char_index_of_byte, char_index_of_byte_wide, is_whitespace, is_ws,
    lemma_char_index_of_byte, lemma_rfind_to, lemma_utf8_len_add, lemma_utf8_len_bounds,
    rfind, rfind_exec, seq_eq, slice, string_of, trim, trim_chars, trim_end_set,
    trim_end_set_chars, trim_start_set, trim_start_set_chars, utf8_len, utf8_len_wide,
};
use crate::unicode::{spec_str_lowercase, str_lowercase};

verus! {

// ---------------------------------------------------------------------------
// The anchor a tag names.
// ---------------------------------------------------------------------------

/// Index of the first white-space character of `t` from `i` on, or its
/// length.
pub open spec fn first_ws_index(t: Seq<char>, i: int) -> int
    decreases t.len() - i,
{
    if i < 0 || i >= t.len() {
        t.len() as int
    } else if is_ws(t[i]) {
        i
    } else {
        first_ws_index(t, i + 1)
    }
}

/// The tag without its brackets and slashes, trimmed.
pub open spec fn tag_body(tag: Seq<char>) -> Seq<char> {
    let a = trim_start_set(trim_start_set(trim(tag), seq!['<']), seq!['/']);
    trim(trim_end_set(trim_end_set(a, seq!['>']), seq!['/']))
}

/// The attribute list of a tag: what follows its name.
pub open spec fn tag_attr_text(tag: Seq<char>) -> Seq<char> {
    let t = tag_body(tag);
    t.skip(first_ws_index(t, 0))
}

/// The attributes of a whole tag such as `<a id="x" href="y">`, in the
/// order met; a later pair with the same name overrides an earlier one.
pub fn parse_tag_attrs(tag: &str) -> (r: Vec<(Vec<char>, Vec<char>)>)
    ensures
        pairs_view(r@) == attr_events(tag_attr_text(tag@), 0),
{
    let raw = chars_of(tag);
    let t0 = trim_chars(&raw);
    let lt = vec!['<'];
    let sl = vec!['/'];
    let gt = vec!['>'];
    proof {
        assert(lt@ =~= seq!['<']);
        assert(sl@ =~= seq!['/']);
        assert(gt@ =~= seq!['>']);
    }
    let t1 = trim_start_set_chars(&t0, &lt);
    let t2 = trim_start_set_chars(&t1, &sl);
    let t3 = trim_end_set_chars(&t2, &gt);
    let t4 = trim_end_set_chars(&t3, &sl);
    let t = trim_chars(&t4);
    let mut i: usize = 0;
    while i < t.len() && !is_whitespace(t[i])
        invariant
            i <= t.len(),
            first_ws_index(t@, 0) == first_ws_index(t@, i as int),
        decreases t.len() - i,
    {
        i += 1;
    }
    let rest = slice(&t, i, t.len());
    proof {
        assert(rest@ =~= t@.skip(i as int));
    }
    parse_attrs(&rest)
}

/// The anchor name a tag carries: its `id`, else its `name`, trimmed, when
/// not blank.
pub open spec fn tag_fragment(tag: Seq<char>) -> Option<Seq<char>> {
    let ev = attr_events(tag_attr_text(tag), 0);
    let v = match attr_lookup(ev, "id"@) {
        Some(x) => Some(x),
        None => attr_lookup(ev, "name"@),
    };
    match v {
        Some(x) => if trim(x).len() > 0 {
            Some(trim(x))
        } else {
            None
        },
        None => None,
    }
}

fn tag_fragment_exec(tag: &str) -> (r: Option<Vec<char>>)
    ensures
        match r {
            Some(f) => tag_fragment(tag@) == Some(f@),
            None => tag_fragment(tag@) is None,
        },
{
    let attrs = parse_tag_attrs(tag);
    let v = match attr_get(&attrs, "id") {
        Some(x) => Some(x),
        None => attr_get(&attrs, "name"),
    };
    match v {
        Some(x) => {
            let t = trim_chars(&x);
            if t.len() > 0 {
                Some(t)
            } else {
                None
            }
        },
        None => None,
    }
}

/// The entry a fragment belongs to: the last entry with that fragment, as
/// a map from fragments to entries keeps the last one inserted.
pub open spec fn entry_for_fragment(entries: Seq<TocEntryView>, f: Seq<char>) -> Option<TocEntryView>
    decreases entries.len(),
{
    if entries.len() == 0 {
        None
    } else if entries.last().1 == Some(f) {
        Some(entries.last())
    } else {
        entry_for_fragment(entries.drop_last(), f)
    }
}

fn entry_for_fragment_exec(entries: &[EpubTocEntry], f: &Vec<char>) -> (r: Option<EpubTocEntry>)
    ensures
        match r {
            Some(e) => entry_for_fragment(entries_view(entries@), f@) == Some(entry_view(e)),
            None => entry_for_fragment(entries_view(entries@), f@) is None,
        },
{
    let mut i = entries.len();
    proof {
        assert(entries_view(entries@).take(i as int) =~= entries_view(entries@));
    }
    while i > 0
        invariant
            i <= entries.len(),
            entry_for_fragment(entries_view(entries@), f@) == entry_for_fragment(
                entries_view(entries@).take(i as int),
                f@,
            ),
        decreases i,
    {
        let ghost pre = entries_view(entries@).take(i as int);
        proof {
            assert(pre.drop_last() =~= entries_view(entries@).take(i - 1));
            assert(pre.last() == entry_view(entries@[i - 1]));
        }
        match &entries[i - 1].fragment {
            Some(g) => {
                let gc = chars_of(g.as_str());
                if seq_eq(&gc, f) {
                    return Some(copy_toc_entry(&entries[i - 1]));
                }
            },
            None => {},
        }
        i -= 1;
    }
    None
}

// ---------------------------------------------------------------------------
// Where a chapter starts.
// ---------------------------------------------------------------------------

/// The text before byte `b` (`str::get(..b)`), empty when `b` is not a
/// character boundary.
pub open spec fn byte_prefix(s: Seq<char>, b: int) -> Seq<char> {
    match char_index_of_byte(s, b) {
        Some(k) => s.take(k),
        None => seq![],
    }
}

/// The closing tags that end a block.
pub open spec fn close_markers() -> Seq<Seq<char>> {
    seq!["</p"@, "</div"@, "</section"@, "</article"@, "</h1"@, "</h2"@, "</h3"@]
}

/// The opening tags that start a block.
pub open spec fn open_markers() -> Seq<Seq<char>> {
    seq!["<p"@, "<div"@, "<section"@, "<article"@, "<h1"@, "<h2"@, "<h3"@]
}

/// Byte offset of the last occurrence of `m` in `s` (`str::rfind`).
pub open spec fn rfind_byte(s: Seq<char>, m: Seq<char>) -> Option<int> {
    match rfind(s, m) {
        Some(k) => Some(utf8_len(s.take(k)) as int),
        None => None,
    }
}

/// The greatest byte offset of a last occurrence of one of the markers
/// that is at least `floor`.
pub open spec fn latest_marker(s: Seq<char>, ms: Seq<Seq<char>>, floor: int) -> Option<int>
    decreases ms.len(),
{
    if ms.len() == 0 {
        None
    } else {
        let rest = latest_marker(s, ms.drop_last(), floor);
        match rfind_byte(s, ms.last()) {
            Some(b) => if b >= floor {
                match rest {
                    Some(r) => Some(
                        if r >= b {
                            r
                        } else {
                            b
                        },
                    ),
                    None => Some(b),
                }
            } else {
                rest
            },
            None => rest,
        }
    }
}

/// Where the chapter of an anchor at byte `offset` starts: at the last block
/// opening before the anchor that no block closing follows, else at the
/// anchor itself. Offsets are read in the lower-cased text before the
/// anchor.
pub open spec fn segment_start_spec(html: Seq<char>, offset: int) -> int {
    let lower = spec_str_lowercase(byte_prefix(html, offset));
    let last_close = match latest_marker(lower, close_markers(), 0) {
        Some(b) => b,
        None => 0,
    };
    match latest_marker(lower, open_markers(), last_close) {
        Some(b) => b,
        None => offset,
    }
}

fn rfind_byte_exec(s: &Vec<char>, m: &str) -> (r: Option<u128>)
    ensures
        match r {
            Some(b) => rfind_byte(s@, m@) == Some(b as int),
            None => rfind_byte(s@, m@) is None,
        },
{
    let mc = chars_of(m);
    match rfind_exec(s, &mc) {
        Some(k) => {
            proof {
                lemma_rfind_to(s@, mc@, s@.len() - mc@.len());
            }
            let pre = slice(s, 0, k);
            proof {
                assert(pre@ =~= s@.take(k as int));
            }
            Some(utf8_len_wide(&pre))
        },
        None => None,
    }
}

fn latest_marker_exec(s: &Vec<char>, ms: &Vec<&str>, floor: u128) -> (r: Option<u128>)
    ensures
        match r {
            Some(b) => latest_marker(s@, ms@.map_values(|m: &str| m@), floor as int) == Some(b as int),
            None => latest_marker(s@, ms@.map_values(|m: &str| m@), floor as int) is None,
        },
{
    let ghost views = ms@.map_values(|m: &str| m@);
    let mut best: Option<u128> = None;
    let mut i: usize = 0;
    proof {
        assert(views.take(0) =~= Seq::<Seq<char>>::empty());
    }
    while i < ms.len()
        invariant
            i <= ms.len(),
            views == ms@.map_values(|m: &str| m@),
            match best {
                Some(b) => latest_marker(s@, views.take(i as int), floor as int) == Some(b as int),
                None => latest_marker(s@, views.take(i as int), floor as int) is None,
            },
        decreases ms.len() - i,
    {
        proof {
            assert(views.take(i + 1).drop_last() =~= views.take(i as int));
            assert(views.take(i + 1).last() == ms@[i as int]@);
        }
        match rfind_byte_exec(s, ms[i]) {
            Some(b) => {
                if b >= floor {
                    best = match best {
                        Some(r) => Some(
                            if r >= b {
                                r
                            } else {
                                b
                            },
                        ),
                        None => Some(b),
                    };
                }
            },
            None => {},
        }
        i += 1;
    }
    proof {
        assert(views.take(i as int) =~= views);
    }
    best
}

fn close_marker_list() -> (r: Vec<&'static str>)
    ensures
        r@.map_values(|m: &str| m@) == close_markers(),
{
    let r = vec!["</p", "</div", "</section", "</article", "</h1", "</h2", "</h3"];
    proof {
        assert(r@.map_values(|m: &str| m@) =~= close_markers());
    }
    r
}

fn open_marker_list() -> (r: Vec<&'static str>)
    ensures
        r@.map_values(|m: &str| m@) == open_markers(),
{
    let r = vec!["<p", "<div", "<section", "<article", "<h1", "<h2", "<h3"];
    proof {
        assert(r@.map_values(|m: &str| m@) =~= open_markers());
    }
    r
}

/// Where the chapter of the anchor at byte `anchor_offset` starts: the
/// last block opening (`<p`, `<div`, `<section`, `<article`, `<h1`–`<h3`)
/// before the anchor with no block closing after it, else the anchor.
pub fn html_segment_start_for_anchor(html: &str, anchor_offset: usize) -> (r: u128)
    ensures
        r == segment_start_spec(html@, anchor_offset as int),
{
    let h = chars_of(html);
    let prefix = match char_index_of_byte_wide(&h, anchor_offset as u128) {
        Some(k) => {
            proof {
                lemma_char_index_of_byte(h@, anchor_offset as int);
            }
            slice(&h, 0, k)
        },
        None => Vec::new(),
    };
    proof {
        assert(prefix@ =~= byte_prefix(html@, anchor_offset as int));
    }
    let ps = string_of(&prefix);
    let lower_s = str_lowercase(ps.as_str());
    let lower = chars_of(lower_s.as_str());
    let closes = close_marker_list();
    let opens = open_marker_list();
    let last_close = match latest_marker_exec(&lower, &closes, 0) {
        Some(b) => b,
        None => 0,
    };
    match latest_marker_exec(&lower, &opens, last_close) {
        Some(b) => b,
        None => anchor_offset as u128,
    }
}

// ---------------------------------------------------------------------------
// Cutting a file at its anchors.
// ---------------------------------------------------------------------------

/// A chapter start: its byte offset and the entry that begins there.
pub type MarkView = (int, TocEntryView);

/// The chapter starts found in the tags met so far, and the fragments they
/// used: each tag whose anchor has an entry and was not met before starts a
/// chapter where its block begins.
pub open spec fn mark_scan(html: Seq<char>, tags: Seq<(int, int, Seq<char>)>, entries: Seq<TocEntryView>) -> (Seq<MarkView>, Seq<Seq<char>>)
    decreases tags.len(),
{
    if tags.len() == 0 {
        (seq![], seq![])
    } else {
        let (marks, seen) = mark_scan(html, tags.drop_last(), entries);
        let t = tags.last();
        match tag_fragment(t.2) {
            None => (marks, seen),
            Some(f) => match entry_for_fragment(entries, f) {
                None => (marks, seen),
                Some(e) => if seen.contains(f) {
                    (marks, seen)
                } else {
                    (marks.push((segment_start_spec(html, t.0), e)), seen.push(f))
                },
            },
        }
    }
}

/// `x` placed after every element whose offset is not greater.
pub open spec fn insert_by_offset(sorted: Seq<MarkView>, x: MarkView) -> Seq<MarkView>
    decreases sorted.len(),
{
    if sorted.len() == 0 {
        seq![x]
    } else if sorted.last().0 <= x.0 {
        sorted.push(x)
    } else {
        insert_by_offset(sorted.drop_last(), x).push(sorted.last())
    }
}

/// The marks ordered by offset, marks with equal offsets kept in their order
/// (`sort_by_key`, which is stable).
pub open spec fn sort_by_offset(s: Seq<MarkView>) -> Seq<MarkView>
    decreases s.len(),
{
    if s.len() == 0 {
        s
    } else {
        insert_by_offset(sort_by_offset(s.drop_last()), s.last())
    }
}

/// Character index of the `i`-th mark.
pub open spec fn mark_index(html: Seq<char>, marks: Seq<MarkView>, i: int) -> int {
    char_index_of_byte(html, marks[i].0)->0
}

/// Character index where the `i`-th chapter ends.
pub open spec fn mark_end(html: Seq<char>, marks: Seq<MarkView>, i: int) -> int {
    if i + 1 < marks.len() {
        mark_index(html, marks, i + 1)
    } else {
        html.len() as int
    }
}

/// The prelude before the first chapter, and each chapter with its entry.
pub type SegmentsView = (Seq<char>, Seq<(TocEntryView, Seq<char>)>);

/// The file cut at the chapter starts of its tags: without any, all of it
/// is prelude; with some, `None` when one of their offsets falls inside a
/// character (where the text cannot be cut).
pub open spec fn split_at_tags_spec(html: Seq<char>, tags: Seq<(int, int, Seq<char>)>, entries: Seq<TocEntryView>) -> Option<SegmentsView> {
    let marks = sort_by_offset(mark_scan(html, tags, entries).0);
    if marks.len() == 0 {
        Some((html, seq![]))
    } else if forall|i: int| 0 <= i < marks.len() ==> #[trigger] char_index_of_byte(html, marks[i].0) is Some {
        Some(
            (
                html.take(mark_index(html, marks, 0)),
                Seq::new(
                    marks.len(),
                    |i: int| (marks[i].1, html.subrange(mark_index(html, marks, i), mark_end(html, marks, i))),
                ),
            ),
        )
    } else {
        None
    }
}

/// One chapter cut from a content file.
pub struct EpubHtmlChapterSegment {
    pub entry: EpubTocEntry,
    pub html: String,
}

/// A content file cut into the part before its first chapter and its
/// chapters.
pub struct EpubHtmlSegments {
    pub prelude: String,
    pub chapters: Vec<EpubHtmlChapterSegment>,
}

pub open spec fn segments_view(s: EpubHtmlSegments) -> SegmentsView {
    (
        s.prelude@,
        s.chapters@.map_values(|c: EpubHtmlChapterSegment| (entry_view(c.entry), c.html@)),
    )
}

pub open spec fn opt_segments_view(r: Option<EpubHtmlSegments>) -> Option<SegmentsView> {
    match r {
        Some(s) => Some(segments_view(s)),
        None => None,
    }
}

/// Marks as plain values.
pub open spec fn marks_view(v: Seq<(u128, EpubTocEntry)>) -> Seq<MarkView> {
    v.map_values(|p: (u128, EpubTocEntry)| (p.0 as int, entry_view(p.1)))
}

/// Inserting from the back stops where `insert_by_offset` places the mark.
proof fn lemma_insert_by_offset(s: Seq<MarkView>, x: MarkView, j: int)
    requires
        0 <= j <= s.len(),
        forall|k: int| j <= k < s.len() ==> #[trigger] s[k].0 > x.0,
        j == 0 || s[j - 1].0 <= x.0,
    ensures
        insert_by_offset(s, x) == s.insert(j, x),
    decreases s.len(),
{
    if s.len() == 0 {
        assert(s.insert(j, x) =~= seq![x]);
    } else if s.last().0 <= x.0 {
        assert(j == s.len());
        assert(s.insert(j, x) =~= s.push(x));
    } else {
        lemma_insert_by_offset(s.drop_last(), x, j);
        assert(s.drop_last().insert(j, x).push(s.last()) =~= s.insert(j, x));
    }
}

fn copy_mark(m: &(u128, EpubTocEntry)) -> (r: (u128, EpubTocEntry))
    ensures
        r.0 == m.0,
        entry_view(r.1) == entry_view(m.1),
{
    (m.0, copy_toc_entry(&m.1))
}

/// The marks ordered by offset, stably.
fn sort_marks(v: &Vec<(u128, EpubTocEntry)>) -> (r: Vec<(u128, EpubTocEntry)>)
    ensures
        marks_view(r@) == sort_by_offset(marks_view(v@)),
{
    let mut out: Vec<(u128, EpubTocEntry)> = Vec::new();
    let mut i: usize = 0;
    proof {
        assert(marks_view(v@).take(0) =~= Seq::<MarkView>::empty());
        assert(marks_view(out@) =~= Seq::<MarkView>::empty());
    }
    while i < v.len()
        invariant
            i <= v.len(),
            marks_view(out@) == sort_by_offset(marks_view(v@).take(i as int)),
        decreases v.len() - i,
    {
        let x = copy_mark(&v[i]);
        let ghost xv = (x.0 as int, entry_view(x.1));
        let ghost before = marks_view(out@);
        let mut j = out.len();
        while j > 0 && out[j - 1].0 > x.0
            invariant
                j <= out.len(),
                before == marks_view(out@),
                xv == (x.0 as int, entry_view(x.1)),
                forall|k: int| j <= k < before.len() ==> #[trigger] before[k].0 > xv.0,
            decreases j,
        {
            j -= 1;
        }
        proof {
            lemma_insert_by_offset(before, xv, j as int);
            assert(marks_view(v@).take(i + 1).drop_last() =~= marks_view(v@).take(i as int));
            assert(marks_view(v@).take(i + 1).last() == (v@[i as int].0 as int, entry_view(v@[i as int].1)));
        }
        out.insert(j, x);
        proof {
            assert(marks_view(out@) =~= before.insert(j as int, xv));
        }
        i += 1;
    }
    proof {
        assert(marks_view(v@).take(i as int) =~= marks_view(v@));
    }
    out
}

/// Sorting leaves the marks in order of offset.
proof fn lemma_sorted_marks(s: Seq<MarkView>)
    ensures
        sort_by_offset(s).len() == s.len(),
        forall|a: int, b: int|
            0 <= a <= b < s.len() ==> #[trigger] sort_by_offset(s)[a].0 <= #[trigger] sort_by_offset(s)[b].0,
    decreases s.len(),
{
    if s.len() > 0 {
        lemma_sorted_marks(s.drop_last());
        lemma_insert_sorted(sort_by_offset(s.drop_last()), s.last());
    }
}

proof fn lemma_insert_sorted(s: Seq<MarkView>, x: MarkView)
    requires
        forall|a: int, b: int| 0 <= a <= b < s.len() ==> #[trigger] s[a].0 <= #[trigger] s[b].0,
    ensures
        insert_by_offset(s, x).len() == s.len() + 1,
        forall|a: int, b: int|
            0 <= a <= b < s.len() + 1 ==> #[trigger] insert_by_offset(s, x)[a].0
                <= #[trigger] insert_by_offset(s, x)[b].0,
    decreases s.len(),
{
    if s.len() > 0 && s.last().0 > x.0 {
        let t = s.drop_last();
        lemma_insert_sorted(t, x);
        let r = insert_by_offset(t, x);
        assert forall|k: int| 0 <= k < r.len() implies #[trigger] r[k].0 <= s.last().0 by {
            lemma_insert_members(t, x, k);
            if k < r.len() && r[k] != x {
                let m = choose|m: int| 0 <= m < t.len() && t[m] == r[k];
                assert(s[m].0 <= s[s.len() - 1].0);
            }
        }
    }
}

/// Every element of an insertion is the inserted mark or one of the old ones.
proof fn lemma_insert_members(s: Seq<MarkView>, x: MarkView, k: int)
    requires
        0 <= k < s.len() + 1,
    ensures
        insert_by_offset(s, x).len() == s.len() + 1,
        insert_by_offset(s, x)[k] == x || exists|m: int| 0 <= m < s.len() && s[m] == insert_by_offset(s, x)[k],
    decreases s.len(),
{
    if s.len() == 0 {
    } else if s.last().0 <= x.0 {
        if k < s.len() {
            assert(s[k] == insert_by_offset(s, x)[k]);
        }
    } else {
        let t = s.drop_last();
        if k < s.len() {
            lemma_insert_members(t, x, k);
            if insert_by_offset(t, x)[k] != x {
                let m = choose|m: int| 0 <= m < t.len() && t[m] == insert_by_offset(t, x)[k];
                assert(s[m] == insert_by_offset(s, x)[k]);
            }
        } else {
            lemma_insert_members(t, x, 0);
            assert(s[s.len() - 1] == insert_by_offset(s, x)[k]);
        }
    }
}

pub(crate) fn seen_contains(seen: &Vec<Vec<char>>, f: &Vec<char>) -> (r: bool)
    ensures
        r == seen.deep_view().contains(f@),
{
    let mut j: usize = 0;
    while j < seen.len()
        invariant
            j <= seen.len(),
            forall|k: int| 0 <= k < j ==> seen.deep_view()[k] != f@,
        decreases seen.len() - j,
    {
        if seq_eq(&seen[j], f) {
            proof {
                assert(seen.deep_view()[j as int] == f@);
            }
            return true;
        }
        proof {
            assert(seen.deep_view()[j as int] == seen@[j as int]@);
        }
        j += 1;
    }
    false
}

/// The file cut at the chapter starts that its tags (the `find_iter`
/// matches of `<[^>]+>` in it) and the entries give.
pub fn split_html_at_tags(html: &str, tags: &Vec<FoundMatch>, entries: &[EpubTocEntry]) -> (r: Option<EpubHtmlSegments>)
    ensures
        opt_segments_view(r) == split_at_tags_spec(
            html@,
            tags@.map_values(|m: FoundMatch| found_view(m)),
            entries_view(entries@),
        ),
{
    let ghost tv = tags@.map_values(|m: FoundMatch| found_view(m));
    let ghost ev = entries_view(entries@);
    let mut marks: Vec<(u128, EpubTocEntry)> = Vec::new();
    let mut seen: Vec<Vec<char>> = Vec::new();
    let mut i: usize = 0;
    proof {
        assert(tv.take(0) =~= Seq::<(int, int, Seq<char>)>::empty());
        assert(marks_view(marks@) =~= Seq::<MarkView>::empty());
        assert(seen.deep_view() =~= Seq::<Seq<char>>::empty());
    }
    while i < tags.len()
        invariant
            i <= tags.len(),
            tv == tags@.map_values(|m: FoundMatch| found_view(m)),
            ev == entries_view(entries@),
            (marks_view(marks@), seen.deep_view()) == mark_scan(html@, tv.take(i as int), ev),
        decreases tags.len() - i,
    {
        let ghost pm = marks_view(marks@);
        let ghost ps = seen.deep_view();
        proof {
            assert(tv.take(i + 1).drop_last() =~= tv.take(i as int));
            assert(tv.take(i + 1).last() == found_view(tags@[i as int]));
        }
        let t = &tags[i];
        match tag_fragment_exec(t.text.as_str()) {
            Some(f) => match entry_for_fragment_exec(entries, &f) {
                Some(e) => {
                    if !seen_contains(&seen, &f) {
                        let start = html_segment_start_for_anchor(html, t.start);
                        let ghost evw = entry_view(e);
                        marks.push((start, e));
                        let ghost fv = f@;
                        let ghost old_seen = seen@;
                        seen.push(f);
                        proof {
                            assert(marks_view(marks@) =~= pm.push((start as int, evw)));
                            assert forall|k: int| 0 <= k < ps.len() implies #[trigger] seen@[k].deep_view() == ps[k] by {
                                assert(seen@[k] == old_seen[k]);
                                crate::text::lemma_chars_deep(&old_seen[k]);
                            }
                            crate::text::lemma_push_deep(ps, &seen, fv);
                        }
                    }
                },
                None => {},
            },
            None => {},
        }
        i += 1;
    }
    proof {
        assert(tv.take(i as int) =~= tv);
    }
    let sorted = sort_marks(&marks);
    let ghost sv = marks_view(sorted@);
    proof {
        lemma_sorted_marks(marks_view(marks@));
        assert(sv == sort_by_offset(mark_scan(html@, tv, ev).0));
    }
    if sorted.len() == 0 {
        let empty: Vec<EpubHtmlChapterSegment> = Vec::new();
        let r = EpubHtmlSegments { prelude: crate::text::owned(html), chapters: empty };
        proof {
            assert(segments_view(r).1 =~= Seq::<(TocEntryView, Seq<char>)>::empty());
        }
        return Some(r);
    }
    let h = chars_of(html);
    let mut idx: Vec<usize> = Vec::new();
    let mut j: usize = 0;
    while j < sorted.len()
        invariant
            j <= sorted.len(),
            sv == marks_view(sorted@),
            sv == sort_by_offset(mark_scan(html@, tv, ev).0),
            tv == tags@.map_values(|m: FoundMatch| found_view(m)),
            ev == entries_view(entries@),
            sv.len() > 0,
            h@ == html@,
            idx@.len() == j,
            forall|k: int| 0 <= k < j ==> char_index_of_byte(h@, sv[k].0) == Some(#[trigger] idx@[k] as int),
        decreases sorted.len() - j,
    {
        match char_index_of_byte_wide(&h, sorted[j].0) {
            Some(k) => {
                idx.push(k);
            },
            None => {
                proof {
                    assert(char_index_of_byte(html@, sv[j as int].0) is None);
                }
                return None;
            },
        }
        j += 1;
    }
    let n = sorted.len();
    proof {
        assert forall|a: int, b: int| 0 <= a <= b < n implies #[trigger] idx@[a] <= #[trigger] idx@[b] by {
            assert(char_index_of_byte(h@, sv[a].0) == Some(idx@[a] as int));
            assert(char_index_of_byte(h@, sv[b].0) == Some(idx@[b] as int));
            lemma_char_index_mono(h@, sv[a].0, sv[b].0);
        }
        assert forall|a: int| 0 <= a < n implies #[trigger] idx@[a] <= h@.len() by {
            assert(char_index_of_byte(h@, sv[a].0) == Some(idx@[a] as int));
            lemma_char_index_of_byte(h@, sv[a].0);
        }
        assert forall|a: int| 0 <= a < n implies mark_index(html@, sv, a) == #[trigger] idx@[a] by {
            assert(char_index_of_byte(h@, sv[a].0) == Some(idx@[a] as int));
        }
    }
    let pre = slice(&h, 0, idx[0]);
    let ghost spec_chapters = Seq::new(
        sv.len(),
        |c: int| (sv[c].1, html@.subrange(mark_index(html@, sv, c), mark_end(html@, sv, c))),
    );
    let mut chapters: Vec<EpubHtmlChapterSegment> = Vec::new();
    let mut c: usize = 0;
    while c < n
        invariant
            c <= n,
            n == sorted.len(),
            n == idx@.len(),
            sv == marks_view(sorted@),
            h@ == html@,
            forall|a: int, b: int| 0 <= a <= b < n ==> #[trigger] idx@[a] <= #[trigger] idx@[b],
            forall|a: int| 0 <= a < n ==> #[trigger] idx@[a] <= h@.len(),
            forall|a: int| 0 <= a < n ==> mark_index(html@, sv, a) == #[trigger] idx@[a],
            forall|a: int| 0 <= a < n ==> char_index_of_byte(html@, sv[a].0) == Some(#[trigger] idx@[a] as int),
            sv == sort_by_offset(mark_scan(html@, tv, ev).0),
            tv == tags@.map_values(|m: FoundMatch| found_view(m)),
            ev == entries_view(entries@),
            spec_chapters == Seq::new(
                sv.len(),
                |c: int| (sv[c].1, html@.subrange(mark_index(html@, sv, c), mark_end(html@, sv, c))),
            ),
            chapters@.map_values(|x: EpubHtmlChapterSegment| (entry_view(x.entry), x.html@))
                == spec_chapters.take(c as int),
        decreases n - c,
    {
        let end = if c + 1 < n {
            idx[c + 1]
        } else {
            h.len()
        };
        let piece = slice(&h, idx[c], end);
        let entry = copy_toc_entry(&sorted[c].1);
        let ghost before = chapters@.map_values(|x: EpubHtmlChapterSegment| (entry_view(x.entry), x.html@));
        let ghost old_ch = chapters@;
        let seg = EpubHtmlChapterSegment { entry, html: string_of(&piece) };
        let ghost segv = (entry_view(seg.entry), seg.html@);
        chapters.push(seg);
        proof {
            assert(sv[c as int].1 == entry_view(sorted@[c as int].1));
            assert(spec_chapters[c as int] == segv);
            assert(chapters@ == old_ch.push(seg));
            assert(chapters@.map_values(|x: EpubHtmlChapterSegment| (entry_view(x.entry), x.html@))
                =~= before.push(segv));
            assert(chapters@.map_values(|x: EpubHtmlChapterSegment| (entry_view(x.entry), x.html@))
                =~= spec_chapters.take(c + 1));
        }
        c += 1;
    }
    let r = EpubHtmlSegments { prelude: string_of(&pre), chapters };
    proof {
        assert(sv == sort_by_offset(mark_scan(html@, tv, ev).0));
        assert forall|a: int| 0 <= a < sv.len() implies #[trigger] char_index_of_byte(html@, sv[a].0) is Some by {
            assert(char_index_of_byte(html@, sv[a].0) == Some(idx@[a] as int));
        }
        assert(spec_chapters.take(n as int) =~= spec_chapters);
        assert(pre@ =~= html@.take(mark_index(html@, sv, 0)));
    }
    Some(r)
}

/// A content file cut into chapters at the anchors of its table-of-contents
/// entries (see `split_html_at_tags`), the tags found by the regex engine.
pub fn split_epub_html_by_toc_entries(html: &str, entries: &[EpubTocEntry]) -> (r: Option<EpubHtmlSegments>)
    ensures
        opt_segments_view(r) == split_at_tags_spec(html@, spec_find_iter(tag_re(), html@), entries_view(entries@)),
{
    let tags = find_iter("(?is)<[^>]+>", html);
    split_html_at_tags(html, &tags, entries)
}

} // verus!
