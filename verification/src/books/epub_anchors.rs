//! The heading anchors that links into an EPUB resolve to: one per
//! table-of-contents target, and one per content file.
use vstd::prelude::*;
use crate::books::clean::tag_re;
use crate::books::epub::{entries_view, entry_view, epub_target_key, target_key_spec, EpubTocEntry, TocEntryView};
use crate::books::epub_split::{
    opt_segments_view, split_at_tags_spec, split_epub_html_by_toc_entries, SegmentsView,
};
use crate::books::epub_toc::{
    entries_for_item, epub_segment_chapter_title, epub_toc_entries_for_item, is_html_media,
    is_html_media_spec, manifest_get, manifest_lookup, manifest_view, plausible_epub_toc_title,
    plausible_toc_title, segment_title_spec, EpubManifestItem,
};
use crate::books::html::{html_blocks_spec, html_to_blocks};
use crate::books::outline::{anchors_view, book_heading_slug, heading_slug_spec, lookup_anchor, pair_keys, Anchors};
use crate::patterns::spec_find_iter;
use crate::text::{chars_of, seq_eq, string_of};

verus! {

// ---------------------------------------------------------------------------
// Anchors as a map from link targets to heading slugs.
// ---------------------------------------------------------------------------

/// The pairs with `k` mapped to `v`: the first pair with key `k` takes the
/// new value, or the pair is added (`HashMap::insert`).
pub open spec fn map_set(a: Seq<(Seq<char>, Seq<char>)>, k: Seq<char>, v: Seq<char>) -> Seq<(Seq<char>, Seq<char>)>
    decreases a.len(),
{
    if a.len() == 0 {
        seq![(k, v)]
    } else if a[0].0 == k {
        a.update(0, (k, v))
    } else {
        seq![a[0]] + map_set(a.drop_first(), k, v)
    }
}

/// The pairs with `k` mapped to `v` unless `k` is already present
/// (`HashMap::entry(k).or_insert(v)`).
pub open spec fn map_set_if_absent(a: Seq<(Seq<char>, Seq<char>)>, k: Seq<char>, v: Seq<char>) -> Seq<(Seq<char>, Seq<char>)> {
    if pair_keys(a).contains(k) {
        a
    } else {
        a.push((k, v))
    }
}

/// Setting from the first pair with the key on.
proof fn lemma_map_set_at(a: Seq<(Seq<char>, Seq<char>)>, k: Seq<char>, v: Seq<char>, j: int)
    requires
        0 <= j <= a.len(),
        forall|m: int| 0 <= m < j ==> #[trigger] a[m].0 != k,
        j < a.len() ==> a[j].0 == k,
    ensures
        map_set(a, k, v) == if j < a.len() {
            a.update(j, (k, v))
        } else {
            a.push((k, v))
        },
    decreases a.len(),
{
    if a.len() == 0 {
        assert(a.push((k, v)) =~= seq![(k, v)]);
    } else if a[0].0 == k {
        assert(j == 0);
    } else {
        let t = a.drop_first();
        assert forall|m: int| 0 <= m < j - 1 implies #[trigger] t[m].0 != k by {
            assert(t[m] == a[m + 1]);
        }
        lemma_map_set_at(t, k, v, j - 1);
        if j < a.len() {
            assert(seq![a[0]] + t.update(j - 1, (k, v)) =~= a.update(j, (k, v)));
        } else {
            assert(seq![a[0]] + t.push((k, v)) =~= a.push((k, v)));
        }
    }
}

/// A read after setting a key gives the value set; other keys keep theirs.
pub proof fn lemma_map_set_lookup(a: Seq<(Seq<char>, Seq<char>)>, k: Seq<char>, v: Seq<char>, q: Seq<char>)
    ensures
        lookup_anchor(map_set(a, k, v), q) == if q == k {
            Some(v)
        } else {
            lookup_anchor(a, q)
        },
    decreases a.len(),
{
    if a.len() == 0 {
        assert(seq![(k, v)].drop_first() =~= Seq::<(Seq<char>, Seq<char>)>::empty());
        assert(seq![(k, v)][0] == (k, v));
        assert(map_set(a, k, v) == seq![(k, v)]);
        assert(lookup_anchor(seq![(k, v)].drop_first(), q) is None);
        assert(lookup_anchor(a, q) is None);
    } else if a[0].0 == k {
        let u = a.update(0, (k, v));
        assert(u.drop_first() =~= a.drop_first());
        assert(u[0] == (k, v));
    } else {
        lemma_map_set_lookup(a.drop_first(), k, v, q);
        let u = seq![a[0]] + map_set(a.drop_first(), k, v);
        assert(u.drop_first() =~= map_set(a.drop_first(), k, v));
        assert(u[0] == a[0]);
        assert(map_set(a, k, v) == u);
    }
}

/// A read after setting an absent key gives the new value; a present key,
/// and every other key, keeps its value.
pub proof fn lemma_map_set_if_absent_lookup(a: Seq<(Seq<char>, Seq<char>)>, k: Seq<char>, v: Seq<char>, q: Seq<char>)
    ensures
        lookup_anchor(map_set_if_absent(a, k, v), q) == if q == k && lookup_anchor(a, q) is None {
            Some(v)
        } else {
            lookup_anchor(a, q)
        },
    decreases a.len(),
{
    lemma_lookup_present(a, k);
    if !pair_keys(a).contains(k) {
        lemma_lookup_push(a, k, v, q);
    }
}

/// A key is present exactly when a read finds it.
proof fn lemma_lookup_present(a: Seq<(Seq<char>, Seq<char>)>, k: Seq<char>)
    ensures
        pair_keys(a).contains(k) <==> lookup_anchor(a, k) is Some,
    decreases a.len(),
{
    if a.len() > 0 {
        lemma_lookup_present(a.drop_first(), k);
        if pair_keys(a).contains(k) && a[0].0 != k {
            let i = choose|i: int| 0 <= i < pair_keys(a).len() && pair_keys(a)[i] == k;
            assert(pair_keys(a.drop_first())[i - 1] == k);
        }
        if pair_keys(a.drop_first()).contains(k) {
            let i = choose|i: int| 0 <= i < pair_keys(a.drop_first()).len() && pair_keys(a.drop_first())[i] == k;
            assert(pair_keys(a)[i + 1] == k);
        }
        if a[0].0 == k {
            assert(pair_keys(a)[0] == k);
        }
    }
}

/// Appending a pair with a new key changes only that key's read.
proof fn lemma_lookup_push(a: Seq<(Seq<char>, Seq<char>)>, k: Seq<char>, v: Seq<char>, q: Seq<char>)
    requires
        !pair_keys(a).contains(k),
    ensures
        lookup_anchor(a.push((k, v)), q) == if q == k {
            Some(v)
        } else {
            lookup_anchor(a, q)
        },
    decreases a.len(),
{
    if a.len() == 0 {
        assert(seq![(k, v)].drop_first() =~= Seq::<(Seq<char>, Seq<char>)>::empty());
        assert(a.push((k, v)) =~= seq![(k, v)]);
    } else {
        assert(a.push((k, v)).drop_first() =~= a.drop_first().push((k, v)));
        assert(pair_keys(a)[0] == a[0].0);
        if pair_keys(a.drop_first()).contains(k) {
            let i = choose|i: int| 0 <= i < pair_keys(a.drop_first()).len() && pair_keys(a.drop_first())[i] == k;
            assert(pair_keys(a)[i + 1] == k);
        }
        lemma_lookup_push(a.drop_first(), k, v, q);
    }
}

fn key_index(a: &Anchors, k: &Vec<char>) -> (r: usize)
    ensures
        r <= a@.len(),
        forall|m: int| 0 <= m < r ==> #[trigger] anchors_view(*a)[m].0 != k@,
        r < a@.len() ==> anchors_view(*a)[r as int].0 == k@,
{
    let mut j: usize = 0;
    while j < a.len()
        invariant
            j <= a@.len(),
            forall|m: int| 0 <= m < j ==> #[trigger] anchors_view(*a)[m].0 != k@,
        decreases a.len() - j,
    {
        if seq_eq(&a[j].0, k) {
            return j;
        }
        j += 1;
    }
    j
}

fn copy_chars(v: &Vec<char>) -> (r: Vec<char>)
    ensures
        r@ == v@,
{
    crate::text::slice(v, 0, v.len())
}

/// `HashMap::insert` on anchors.
fn anchors_set(a: &mut Anchors, k: &Vec<char>, v: &Vec<char>)
    ensures
        anchors_view(*final(a)) == map_set(anchors_view(*old(a)), k@, v@),
{
    let ghost before = anchors_view(*a);
    let j = key_index(a, k);
    proof {
        lemma_map_set_at(before, k@, v@, j as int);
    }
    if j < a.len() {
        a.set(j, (copy_chars(k), copy_chars(v)));
        proof {
            assert(anchors_view(*a) =~= before.update(j as int, (k@, v@)));
        }
    } else {
        a.push((copy_chars(k), copy_chars(v)));
        proof {
            assert(anchors_view(*a) =~= before.push((k@, v@)));
        }
    }
}

/// `HashMap::entry(k).or_insert(v)` on anchors.
fn anchors_set_if_absent(a: &mut Anchors, k: &Vec<char>, v: &Vec<char>)
    ensures
        anchors_view(*final(a)) == map_set_if_absent(anchors_view(*old(a)), k@, v@),
{
    let ghost before = anchors_view(*a);
    let j = key_index(a, k);
    if j < a.len() {
        proof {
            assert(pair_keys(before)[j as int] == k@);
        }
    } else {
        proof {
            if pair_keys(before).contains(k@) {
                let i = choose|i: int| 0 <= i < pair_keys(before).len() && pair_keys(before)[i] == k@;
                assert(before[i].0 != k@);
            }
        }
        a.push((copy_chars(k), copy_chars(v)));
        proof {
            assert(anchors_view(*a) =~= before.push((k@, v@)));
        }
    }
}

/// `HashMap::entry(k).or_insert(v)` on chapter anchors: a file keeps the
/// first anchor it was given.
pub fn chapter_anchor_or_insert(a: &mut Anchors, k: &str, v: &Vec<char>)
    ensures
        anchors_view(*final(a)) == map_set_if_absent(anchors_view(*old(a)), k@, v@),
{
    let kc = chars_of(k);
    anchors_set_if_absent(a, &kc, v);
}

// ---------------------------------------------------------------------------
// The anchors of a book.
// ---------------------------------------------------------------------------

/// Anchors so far, and the files that already have one of their own.
pub type AnchorState = (Seq<(Seq<char>, Seq<char>)>, Seq<Seq<char>>);

/// A chapter cut from a file anchors its target, and, the first time its
/// file is met, the file itself, at the slug of its title, when the title
/// is plausible.
pub open spec fn segment_anchor_step(st: AnchorState, seg: (TocEntryView, Seq<char>)) -> AnchorState {
    let title = segment_title_spec(seg.0.2, html_blocks_spec(seg.1));
    if !plausible_toc_title(title) {
        st
    } else {
        let anchor = heading_slug_spec(title);
        let a1 = map_set(st.0, target_key_spec(seg.0.0, seg.0.1), anchor);
        if st.1.contains(seg.0.0) {
            (a1, st.1)
        } else {
            (map_set(a1, seg.0.0, anchor), st.1.push(seg.0.0))
        }
    }
}

pub open spec fn segments_anchor_fold(st: AnchorState, segs: Seq<(TocEntryView, Seq<char>)>) -> AnchorState
    decreases segs.len(),
{
    if segs.len() == 0 {
        st
    } else {
        segment_anchor_step(segments_anchor_fold(st, segs.drop_last()), segs.last())
    }
}

/// One file of the reading order: the chapters it is cut into at its
/// table-of-contents anchors give anchors; `None` where a cut falls inside
/// a character.
pub open spec fn item_anchor_step(
    st: Option<AnchorState>,
    manifest: Seq<(Seq<char>, (Seq<char>, Seq<char>, Seq<char>))>,
    entries: Seq<TocEntryView>,
    texts: Seq<(Seq<char>, Seq<char>)>,
    idref: Seq<char>,
) -> Option<AnchorState> {
    match st {
        None => None,
        Some(s) => match manifest_lookup(manifest, idref) {
            None => Some(s),
            Some(item) => if !is_html_media_spec(item.1) {
                Some(s)
            } else {
                let es = entries_for_item(entries, item.0);
                if es.len() == 0 {
                    Some(s)
                } else {
                    match lookup_anchor(texts, item.0) {
                        None => Some(s),
                        Some(html) => match split_at_tags_spec(html, spec_find_iter(tag_re(), html), es) {
                            None => None,
                            Some(segs) => Some(segments_anchor_fold(s, segs.1)),
                        },
                    }
                }
            },
        },
    }
}

pub open spec fn spine_anchor_fold(
    manifest: Seq<(Seq<char>, (Seq<char>, Seq<char>, Seq<char>))>,
    entries: Seq<TocEntryView>,
    texts: Seq<(Seq<char>, Seq<char>)>,
    spine: Seq<Seq<char>>,
) -> Option<AnchorState>
    decreases spine.len(),
{
    if spine.len() == 0 {
        Some((seq![], seq![]))
    } else {
        item_anchor_step(spine_anchor_fold(manifest, entries, texts, spine.drop_last()), manifest, entries, texts, spine.last())
    }
}

/// A plausible table-of-contents entry anchors its target and its file at
/// the slug of its title, where they have none yet.
pub open spec fn toc_anchor_step(a: Seq<(Seq<char>, Seq<char>)>, e: TocEntryView) -> Seq<(Seq<char>, Seq<char>)> {
    if !plausible_toc_title(e.2) {
        a
    } else {
        let anchor = heading_slug_spec(e.2);
        map_set_if_absent(map_set_if_absent(a, target_key_spec(e.0, e.1), anchor), e.0, anchor)
    }
}

pub open spec fn toc_anchor_fold(a: Seq<(Seq<char>, Seq<char>)>, entries: Seq<TocEntryView>) -> Seq<(Seq<char>, Seq<char>)>
    decreases entries.len(),
{
    if entries.len() == 0 {
        a
    } else {
        toc_anchor_step(toc_anchor_fold(a, entries.drop_last()), entries.last())
    }
}

/// The anchors of a book: from the chapters its files are cut into, then
/// from its table of contents.
pub open spec fn chapter_anchors_spec(
    manifest: Seq<(Seq<char>, (Seq<char>, Seq<char>, Seq<char>))>,
    entries: Seq<TocEntryView>,
    texts: Seq<(Seq<char>, Seq<char>)>,
    spine: Seq<Seq<char>>,
) -> Option<Seq<(Seq<char>, Seq<char>)>> {
    match spine_anchor_fold(manifest, entries, texts, spine) {
        Some(st) => Some(toc_anchor_fold(st.0, entries)),
        None => None,
    }
}

/// Text files as plain values.
pub open spec fn texts_view(texts: Seq<(String, String)>) -> Seq<(Seq<char>, Seq<char>)> {
    texts.map_values(|p: (String, String)| (p.0@, p.1@))
}

/// The text read for a file: the first one recorded under its path.
pub(crate) fn text_for(texts: &Vec<(String, String)>, href: &str) -> (r: Option<String>)
    ensures
        match r {
            Some(t) => lookup_anchor(texts_view(texts@), href@) == Some(t@),
            None => lookup_anchor(texts_view(texts@), href@) is None,
        },
{
    let hc = chars_of(href);
    let mut j: usize = 0;
    proof {
        assert(texts_view(texts@).skip(0) =~= texts_view(texts@));
    }
    while j < texts.len()
        invariant
            j <= texts.len(),
            hc@ == href@,
            lookup_anchor(texts_view(texts@), href@) == lookup_anchor(texts_view(texts@).skip(j as int), href@),
        decreases texts.len() - j,
    {
        let kc = chars_of(texts[j].0.as_str());
        proof {
            assert(texts_view(texts@).skip(j as int).drop_first() =~= texts_view(texts@).skip(j + 1));
            assert(texts_view(texts@).skip(j as int)[0] == (texts@[j as int].0@, texts@[j as int].1@));
        }
        if seq_eq(&kc, &hc) {
            return Some(crate::text::owned(texts[j].1.as_str()));
        }
        j += 1;
    }
    proof {
        assert(texts_view(texts@).skip(j as int) =~= Seq::<(Seq<char>, Seq<char>)>::empty());
    }
    None
}

fn opt_fragment(f: &Option<String>) -> (r: Option<&str>)
    ensures
        match r {
            Some(x) => *f matches Some(g) && x@ == g@,
            None => f is None,
        },
{
    match f {
        Some(g) => Some(g.as_str()),
        None => None,
    }
}

fn segments_anchor_exec(a: &mut Anchors, seen: &mut Vec<Vec<char>>, segs: &Vec<crate::books::epub_split::EpubHtmlChapterSegment>)
    ensures
        (anchors_view(*final(a)), final(seen).deep_view()) == segments_anchor_fold(
            (anchors_view(*old(a)), old(seen).deep_view()),
            segs@.map_values(|c: crate::books::epub_split::EpubHtmlChapterSegment| (entry_view(c.entry), c.html@)),
        ),
{
    let ghost sv = segs@.map_values(|c: crate::books::epub_split::EpubHtmlChapterSegment| (entry_view(c.entry), c.html@));
    let ghost start = (anchors_view(*a), seen.deep_view());
    let mut i: usize = 0;
    proof {
        assert(sv.take(0) =~= Seq::<(TocEntryView, Seq<char>)>::empty());
    }
    while i < segs.len()
        invariant
            i <= segs.len(),
            sv == segs@.map_values(|c: crate::books::epub_split::EpubHtmlChapterSegment| (entry_view(c.entry), c.html@)),
            (anchors_view(*a), seen.deep_view()) == segments_anchor_fold(start, sv.take(i as int)),
        decreases segs.len() - i,
    {
        proof {
            assert(sv.take(i + 1).drop_last() =~= sv.take(i as int));
            assert(sv.take(i + 1).last() == sv[i as int]);
        }
        let seg = &segs[i];
        let blocks = html_to_blocks(seg.html.as_str());
        proof {
            assert(blocks.deep_view() =~= blocks@.map_values(|b: String| b@));
        }
        let title = epub_segment_chapter_title(seg.entry.title.as_str(), blocks.as_slice());
        if plausible_epub_toc_title(title.as_str()) {
            let tc = chars_of(title.as_str());
            let anchor = book_heading_slug(&tc);
            let key = epub_target_key(seg.entry.href.as_str(), opt_fragment(&seg.entry.fragment));
            let kc = chars_of(key.as_str());
            anchors_set(a, &kc, &anchor);
            let hc = chars_of(seg.entry.href.as_str());
            let ghost before_seen = seen.deep_view();
            let is_seen = crate::books::epub_split::seen_contains(seen, &hc);
            if !is_seen {
                anchors_set(a, &hc, &anchor);
                let ghost old_seen = seen@;
                let ghost hv = hc@;
                seen.push(hc);
                proof {
                    assert forall|k: int| 0 <= k < before_seen.len() implies #[trigger] seen@[k].deep_view() == before_seen[k] by {
                        assert(seen@[k] == old_seen[k]);
                    }
                    crate::text::lemma_push_deep(before_seen, seen, hv);
                }
            }
        }
        i += 1;
    }
    proof {
        assert(sv.take(i as int) =~= sv);
    }
}

/// The heading anchors of a book, from its manifest, reading order and
/// table of contents, and the texts read for its content files (path and
/// text; a file missing there could not be read and gives no anchors).
/// `None` where a chapter cut would fall inside a character.
pub fn precompute_epub_chapter_anchors(
    manifest: &Vec<(String, EpubManifestItem)>,
    spine: &Vec<String>,
    toc_entries: &[EpubTocEntry],
    texts: &Vec<(String, String)>,
) -> (r: Option<Anchors>)
    ensures
        match r {
            Some(a) => chapter_anchors_spec(
                manifest_view(manifest@),
                entries_view(toc_entries@),
                texts_view(texts@),
                spine@.map_values(|s: String| s@),
            ) == Some(anchors_view(a)),
            None => chapter_anchors_spec(
                manifest_view(manifest@),
                entries_view(toc_entries@),
                texts_view(texts@),
                spine@.map_values(|s: String| s@),
            ) is None,
        },
{
    let ghost mv = manifest_view(manifest@);
    let ghost ev = entries_view(toc_entries@);
    let ghost tv = texts_view(texts@);
    let ghost spv = spine@.map_values(|s: String| s@);
    let mut anchors: Anchors = Vec::new();
    let mut seen: Vec<Vec<char>> = Vec::new();
    let mut i: usize = 0;
    proof {
        assert(spv.take(0) =~= Seq::<Seq<char>>::empty());
        assert(anchors_view(anchors) =~= Seq::<(Seq<char>, Seq<char>)>::empty());
        assert(seen.deep_view() =~= Seq::<Seq<char>>::empty());
    }
    while i < spine.len()
        invariant
            i <= spine.len(),
            mv == manifest_view(manifest@),
            ev == entries_view(toc_entries@),
            tv == texts_view(texts@),
            spv == spine@.map_values(|s: String| s@),
            spine_anchor_fold(mv, ev, tv, spv.take(i as int)) == Some((anchors_view(anchors), seen.deep_view())),
        decreases spine.len() - i,
    {
        proof {
            assert(spv.take(i + 1).drop_last() =~= spv.take(i as int));
            assert(spv.take(i + 1).last() == spine@[i as int]@);
        }
        match manifest_get(manifest, spine[i].as_str()) {
            Some(item) => {
                if is_html_media(item.media_type.as_str()) {
                    let es = epub_toc_entries_for_item(toc_entries, item.href.as_str());
                    if es.len() > 0 {
                        match text_for(texts, item.href.as_str()) {
                            Some(html) => {
                                match split_epub_html_by_toc_entries(html.as_str(), es.as_slice()) {
                                    Some(segs) => {
                                        segments_anchor_exec(&mut anchors, &mut seen, &segs.chapters);
                                    },
                                    None => {
                                        proof {
                                            assert(spine_anchor_fold(mv, ev, tv, spv.take(i + 1)) is None);
                                            lemma_spine_fold_none(mv, ev, tv, spv, i + 1);
                                            assert(spv.take(spv.len() as int) =~= spv);
                                        }
                                        return None;
                                    },
                                }
                            },
                            None => {},
                        }
                    }
                }
            },
            None => {},
        }
        i += 1;
    }
    proof {
        assert(spv.take(i as int) =~= spv);
    }
    let mut j: usize = 0;
    let ghost base = anchors_view(anchors);
    proof {
        assert(ev.take(0) =~= Seq::<TocEntryView>::empty());
    }
    while j < toc_entries.len()
        invariant
            j <= toc_entries.len(),
            ev == entries_view(toc_entries@),
            anchors_view(anchors) == toc_anchor_fold(base, ev.take(j as int)),
        decreases toc_entries.len() - j,
    {
        proof {
            assert(ev.take(j + 1).drop_last() =~= ev.take(j as int));
            assert(ev.take(j + 1).last() == entry_view(toc_entries@[j as int]));
        }
        let e = &toc_entries[j];
        if plausible_epub_toc_title(e.title.as_str()) {
            let tc = chars_of(e.title.as_str());
            let anchor = book_heading_slug(&tc);
            let key = epub_target_key(e.href.as_str(), opt_fragment(&e.fragment));
            let kc = chars_of(key.as_str());
            anchors_set_if_absent(&mut anchors, &kc, &anchor);
            let hc = chars_of(e.href.as_str());
            anchors_set_if_absent(&mut anchors, &hc, &anchor);
        }
        j += 1;
    }
    proof {
        assert(ev.take(j as int) =~= ev);
    }
    Some(anchors)
}

/// Once the fold has failed it stays failed.
proof fn lemma_spine_fold_none(
    mv: Seq<(Seq<char>, (Seq<char>, Seq<char>, Seq<char>))>,
    ev: Seq<TocEntryView>,
    tv: Seq<(Seq<char>, Seq<char>)>,
    spv: Seq<Seq<char>>,
    k: int,
)
    requires
        0 <= k <= spv.len(),
        spine_anchor_fold(mv, ev, tv, spv.take(k)) is None,
    ensures
        spine_anchor_fold(mv, ev, tv, spv.take(spv.len() as int)) is None,
    decreases spv.len() - k,
{
    if k < spv.len() {
        assert(spv.take(k + 1).drop_last() =~= spv.take(k));
        lemma_spine_fold_none(mv, ev, tv, spv, k + 1);
    }
}

} // verus!
