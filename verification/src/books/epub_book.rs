//! Assembling the chapters of an EPUB book from its content files, in
//! reading order: which file or part of a file becomes a chapter, under
//! which title, and where the rest goes.
use vstd::prelude::*;
use crate::books::chapters::{chapter_view, chapters_view};
use crate::books::clean::{clean_block, clean_block_spec};
use crate::books::epub_anchors::{chapter_anchor_or_insert, map_set_if_absent};
use crate::books::epub_toc::{
    blocks_are_cover, chapter_title_spec, epub_blocks_are_cover, epub_chapter_title,
    epub_segment_chapter_title, is_epub_navigation_document, is_navigation_spec, segment_title_spec,
    EpubManifestItem, is_html_media, is_html_media_spec,
};
use crate::books::html::{html_blocks_spec, html_to_blocks};
use crate::books::outline::{anchors_view, book_heading_slug, heading_slug_spec, lookup_anchor, Anchors};
use crate::books::BookChapter;
use crate::patterns::{is_match, spec_is_match};
use crate::text::{
    chars_of, ends_with, ends_with_exec, seq_eq, string_of, trim, trim_chars, trim_end_set,
    trim_end_set_chars, trim_set, trim_set_chars, trim_start_set, trim_start_set_chars,
};
use crate::unicode::{spec_str_lowercase, str_lowercase};
use crate::books::epub::{attr_get, caps_groups, pairs_view, parse_attrs, parse_attrs_spec};
use crate::books::epub_toc::{attrs_of, group_or_empty};
use crate::patterns::{captures, capture_view, spec_captures, CaptureMatch};

verus! {

// ---------------------------------------------------------------------------
// A chapter's title repeated as its first block.
// ---------------------------------------------------------------------------

/// A numbered chapter heading such as `Chapter 3` or `Part IV.`.
pub open spec fn chapter_heading_re() -> Seq<char> {
    "(?i)^\\s*(?:chapter|chap\\.?|part|book|section)\\s+(?:\\d+|[ivxlcdm]+)\\.?\\b"@
}

/// The comparison key of a heading or title: cleaned, without leading `#`,
/// surrounding `*` or trailing dots, lower-cased.
pub open spec fn markdown_title_key_spec(input: Seq<char>) -> Seq<char> {
    let a = trim(trim_start_set(clean_block_spec(input), seq!['#']));
    spec_str_lowercase(trim_end_set(trim(trim_set(a, seq!['*'])), seq!['.']))
}

pub fn markdown_title_key(input: &str) -> (r: String)
    ensures
        r@ == markdown_title_key_spec(input@),
{
    let hash = vec!['#'];
    let star = vec!['*'];
    let dot = vec!['.'];
    proof {
        assert(hash@ =~= seq!['#']);
        assert(star@ =~= seq!['*']);
        assert(dot@ =~= seq!['.']);
    }
    let c = clean_block(input);
    let cc = chars_of(c.as_str());
    let a0 = trim_start_set_chars(&cc, &hash);
    let a = trim_chars(&a0);
    let b0 = trim_set_chars(&a, &star);
    let b = trim_chars(&b0);
    let d = trim_end_set_chars(&b, &dot);
    let ds = string_of(&d);
    str_lowercase(ds.as_str())
}

/// A block key matches a title key when they are equal, or when the block
/// is a numbered chapter heading that ends with the title.
pub open spec fn title_keys_match_spec(block_key: Seq<char>, title_key: Seq<char>) -> bool {
    block_key == title_key || (title_key.len() > 0 && ends_with(block_key, title_key)
        && spec_is_match(chapter_heading_re(), block_key))
}

pub fn markdown_title_keys_match(block_key: &str, title_key: &str) -> (r: bool)
    ensures
        r == title_keys_match_spec(block_key@, title_key@),
{
    let b = chars_of(block_key);
    let t = chars_of(title_key);
    seq_eq(&b, &t) || (t.len() > 0 && ends_with_exec(&b, &t) && is_match(
        "(?i)^\\s*(?:chapter|chap\\.?|part|book|section)\\s+(?:\\d+|[ivxlcdm]+)\\.?\\b",
        block_key,
    ))
}

/// The blocks of a chapter as plain values.
pub open spec fn blocks_view(blocks: Seq<String>) -> Seq<Seq<char>> {
    blocks.map_values(|b: String| b@)
}

/// The blocks without a first block that repeats the chapter's title.
pub open spec fn without_title_block(blocks: Seq<Seq<char>>, title: Seq<char>) -> Seq<Seq<char>> {
    if blocks.len() > 0 && title_keys_match_spec(markdown_title_key_spec(blocks[0]), markdown_title_key_spec(title)) {
        blocks.drop_first()
    } else {
        blocks
    }
}

/// Drops a first block that repeats the chapter's title.
pub fn remove_duplicate_epub_chapter_title(blocks: &mut Vec<String>, title: &str)
    ensures
        blocks_view(final(blocks)@) == without_title_block(blocks_view(old(blocks)@), title@),
{
    if blocks.len() == 0 {
        return;
    }
    let first_key = markdown_title_key(blocks[0].as_str());
    let title_key = markdown_title_key(title);
    if markdown_title_keys_match(first_key.as_str(), title_key.as_str()) {
        let ghost before = blocks_view(blocks@);
        blocks.remove(0);
        proof {
            assert(blocks_view(blocks@) =~= before.drop_first());
        }
    }
}

// ---------------------------------------------------------------------------
// Chapters from content files.
// ---------------------------------------------------------------------------

/// A chapter as plain values.
pub type ChapterView = (Seq<char>, bool, Seq<Seq<char>>);

/// A content file counts as text: it renders to some block and is not a
/// navigation document.
pub open spec fn item_has_content_spec(idref: Seq<char>, item: (Seq<char>, Seq<char>, Seq<char>), html: Seq<char>) -> bool {
    let preview = html_blocks_spec(html);
    preview.len() > 0 && !is_navigation_spec(idref, item.0, item.2, html, preview)
}

/// Whether a content file counts as text: it renders to some block and is
/// not a navigation document.
pub fn epub_item_has_content(idref: &str, item: &EpubManifestItem, html: &str) -> (r: bool)
    ensures
        r == item_has_content_spec(idref@, (item.href@, item.media_type@, item.properties@), html@),
{
    let preview = html_to_blocks(html);
    proof {
        assert(preview.deep_view() =~= preview@.map_values(|b: String| b@));
    }
    preview.len() > 0 && !is_epub_navigation_document(idref, item, html, preview.as_slice())
}

/// The chapters after the text before a file's first chapter is placed:
/// added to the previous chapter, or, when there is none and it is a cover,
/// as a chapter `Cover` of its own; dropped otherwise.
pub open spec fn prelude_spec(chapters: Seq<ChapterView>, blocks: Seq<Seq<char>>) -> Seq<ChapterView> {
    if blocks.len() == 0 {
        chapters
    } else if chapters.len() > 0 {
        let last = chapters.last();
        chapters.drop_last().push((last.0, last.1, last.2 + blocks))
    } else if blocks_are_cover(blocks) {
        chapters.push(("Cover"@, true, blocks))
    } else {
        chapters
    }
}

/// Adds rendered blocks to the last chapter.
fn extend_last_chapter(chapters: &mut Vec<BookChapter>, blocks: Vec<String>)
    requires
        old(chapters)@.len() > 0,
    ensures
        ({
            let before = chapters_view(old(chapters)@);
            let last = before.last();
            chapters_view(final(chapters)@) == before.drop_last().push(
                (last.0, last.1, last.2 + blocks_view(blocks@)),
            )
        }),
{
    let ghost before = chapters_view(chapters@);
    let ghost bv = blocks_view(blocks@);
    let mut last = chapters.pop().unwrap();
    let ghost lv = chapter_view(last);
    let ghost lb = last.blocks@;
    let mut more = blocks;
    last.blocks.append(&mut more);
    proof {
        assert(last.blocks@ == lb + blocks@);
        assert(last.blocks.deep_view() =~= lv.2 + bv) by {
            assert forall|i: int| 0 <= i < last.blocks@.len() implies #[trigger] last.blocks.deep_view()[i] == (lv.2 + bv)[i] by {
                if i < lb.len() {
                    assert(last.blocks@[i] == lb[i]);
                }
            }
        }
    }
    chapters.push(last);
    proof {
        assert(chapters_view(chapters@) =~= before.drop_last().push((lv.0, lv.1, lv.2 + bv)));
    }
}

/// Places the text before a file's first chapter (already rendered).
pub fn append_epub_prelude_blocks(chapters: &mut Vec<BookChapter>, blocks: Vec<String>)
    ensures
        chapters_view(final(chapters)@) == prelude_spec(chapters_view(old(chapters)@), blocks_view(blocks@)),
{
    if blocks.len() == 0 {
        return;
    }
    if chapters.len() > 0 {
        extend_last_chapter(chapters, blocks);
    } else if epub_blocks_are_cover(blocks.as_slice()) {
        let ghost before = chapters_view(chapters@);
        let ghost bv = blocks_view(blocks@);
        proof {
            reveal_strlit("Cover");
            assert(blocks.deep_view() =~= bv);
        }
        let c = BookChapter { title: crate::text::owned("Cover"), generated_title: true, blocks };
        chapters.push(c);
        proof {
            assert(chapters_view(chapters@) =~= before.push(("Cover"@, true, bv)));
        }
    }
}

/// The chapter one table-of-contents part of a file makes: titled after its
/// entry (or its first heading, for a bare number), without a first block
/// repeating that title; none when no block is left.
pub open spec fn segment_chapter_spec(entry_title: Seq<char>, html: Seq<char>, blocks: Seq<Seq<char>>) -> Option<ChapterView> {
    let title = segment_title_spec(entry_title, html_blocks_spec(html));
    let kept = without_title_block(blocks, title);
    if kept.len() == 0 {
        None
    } else {
        Some((title, false, kept))
    }
}

/// Adds the chapter of one table-of-contents part of a file, given the
/// part's entry title, its text and its rendered blocks.
pub fn push_epub_segment_chapter(chapters: &mut Vec<BookChapter>, entry_title: &str, segment_html: &str, blocks: Vec<String>)
    ensures
        chapters_view(final(chapters)@) == match segment_chapter_spec(entry_title@, segment_html@, blocks_view(blocks@)) {
            Some(c) => chapters_view(old(chapters)@).push(c),
            None => chapters_view(old(chapters)@),
        },
{
    let preview = html_to_blocks(segment_html);
    proof {
        assert(preview.deep_view() =~= preview@.map_values(|b: String| b@));
    }
    let title = epub_segment_chapter_title(entry_title, preview.as_slice());
    let mut kept = blocks;
    remove_duplicate_epub_chapter_title(&mut kept, title.as_str());
    if kept.len() == 0 {
        return;
    }
    let ghost before = chapters_view(chapters@);
    let ghost c = (title@, false, blocks_view(kept@));
    proof {
        assert(kept.deep_view() =~= blocks_view(kept@));
    }
    chapters.push(BookChapter { title, generated_title: false, blocks: kept });
    proof {
        assert(chapters_view(chapters@) =~= before.push(c));
    }
}

/// Chapters and anchors after a whole content file (already rendered) is
/// placed: titled by its first heading, its table-of-contents title or a
/// number. A numbered file joins the previous chapter when the book has a
/// table of contents, and is dropped there when it is the first and no
/// cover; otherwise it becomes a chapter, and a titled one anchors its file
/// where no anchor was set.
pub open spec fn item_chapter_spec(
    chapters: Seq<ChapterView>,
    anchors: Seq<(Seq<char>, Seq<char>)>,
    toc_titles: Seq<(Seq<char>, Seq<char>)>,
    has_toc: bool,
    href: Seq<char>,
    blocks: Seq<Seq<char>>,
) -> (Seq<ChapterView>, Seq<(Seq<char>, Seq<char>)>) {
    if blocks.len() == 0 {
        (chapters, anchors)
    } else {
        let (title, generated) = chapter_title_spec(blocks, lookup_anchor(toc_titles, href), (chapters.len() + 1) as nat);
        if generated && has_toc && chapters.len() > 0 {
            (prelude_spec(chapters, blocks), anchors)
        } else if generated && has_toc && !blocks_are_cover(blocks) {
            (chapters, anchors)
        } else {
            let a = if !generated {
                map_set_if_absent(anchors, href, heading_slug_spec(title))
            } else {
                anchors
            };
            (chapters.push((title, generated, blocks)), a)
        }
    }
}

/// The title recorded for a file in the table of contents: the first one.
fn toc_title_for(toc_titles: &Vec<(String, String)>, href: &str) -> (r: Option<String>)
    ensures
        match r {
            Some(t) => lookup_anchor(crate::books::epub_anchors::texts_view(toc_titles@), href@) == Some(t@),
            None => lookup_anchor(crate::books::epub_anchors::texts_view(toc_titles@), href@) is None,
        },
{
    crate::books::epub_anchors::text_for(toc_titles, href)
}

/// Places a whole content file (already rendered) as a chapter; see
/// `item_chapter_spec`.
pub fn push_epub_item_chapter(
    chapters: &mut Vec<BookChapter>,
    anchors: &mut Anchors,
    toc_titles: &Vec<(String, String)>,
    has_toc: bool,
    href: &str,
    blocks: Vec<String>,
)
    requires
        old(chapters)@.len() < usize::MAX,
    ensures
        (chapters_view(final(chapters)@), anchors_view(*final(anchors))) == item_chapter_spec(
            chapters_view(old(chapters)@),
            anchors_view(*old(anchors)),
            crate::books::epub_anchors::texts_view(toc_titles@),
            has_toc,
            href@,
            blocks_view(blocks@),
        ),
{
    if blocks.len() == 0 {
        return;
    }
    let toc_title = toc_title_for(toc_titles, href);
    let (title, generated) = match &toc_title {
        Some(t) => epub_chapter_title(blocks.as_slice(), Some(t), chapters.len() + 1),
        None => epub_chapter_title(blocks.as_slice(), None, chapters.len() + 1),
    };
    if generated && has_toc && chapters.len() > 0 {
        extend_last_chapter(chapters, blocks);
    } else if generated && has_toc && !epub_blocks_are_cover(blocks.as_slice()) {
    } else {
        if !generated {
            let tc = chars_of(title.as_str());
            let slug = book_heading_slug(&tc);
            chapter_anchor_or_insert(anchors, href, &slug);
        }
        let ghost before = chapters_view(chapters@);
        let ghost c = (title@, generated, blocks_view(blocks@));
        proof {
            assert(blocks.deep_view() =~= blocks_view(blocks@));
        }
        chapters.push(BookChapter { title, generated_title: generated, blocks });
        proof {
            assert(chapters_view(chapters@) =~= before.push(c));
        }
    }
}

// ---------------------------------------------------------------------------
// The package file of an EPUB.
// ---------------------------------------------------------------------------

/// A `rootfile` element of `META-INF/container.xml`, its attributes as
/// group 1.
pub open spec fn rootfile_re() -> Seq<char> {
    "(?is)<rootfile\\b([^>]*)>"@
}

/// The `full-path` of the first `rootfile` that has one, without leading
/// `/`.
pub open spec fn container_rootfile(caps: Seq<Seq<Option<Seq<char>>>>) -> Option<Seq<char>>
    decreases caps.len(),
{
    if caps.len() == 0 {
        None
    } else {
        match parse_attrs_spec(attrs_of(caps[0]), "full-path"@) {
            Some(p) => Some(trim_start_set(p, seq!['/'])),
            None => container_rootfile(caps.drop_first()),
        }
    }
}

/// The package path that `META-INF/container.xml` names.
pub fn rootfile_from_container(container: &str) -> (r: Option<String>)
    ensures
        crate::books::epub::opt_view(r) == container_rootfile(
            spec_captures(rootfile_re(), container@).map_values(|c: (int, int, Seq<Option<Seq<char>>>)| c.2),
        ),
{
    let caps = captures("(?is)<rootfile\\b([^>]*)>", container);
    let ghost cg = caps_groups(caps@);
    let slash = vec!['/'];
    proof {
        assert(cg =~= spec_captures(rootfile_re(), container@).map_values(
            |c: (int, int, Seq<Option<Seq<char>>>)| c.2,
        ));
        assert(slash@ =~= seq!['/']);
        assert(cg.skip(0) =~= cg);
    }
    let mut i: usize = 0;
    while i < caps.len()
        invariant
            i <= caps.len(),
            cg == caps_groups(caps@),
            cg == spec_captures(rootfile_re(), container@).map_values(|c: (int, int, Seq<Option<Seq<char>>>)| c.2),
            slash@ == seq!['/'],
            container_rootfile(cg) == container_rootfile(cg.skip(i as int)),
        decreases caps.len() - i,
    {
        proof {
            assert(cg.skip(i as int)[0] == capture_view(caps@[i as int]).2);
            assert(cg.skip(i as int).drop_first() =~= cg.skip(i + 1));
        }
        let attrs = group_or_empty(&caps[i], 0);
        let pairs = parse_attrs(&attrs);
        match attr_get(&pairs, "full-path") {
            Some(p) => {
                let t = trim_start_set_chars(&p, &slash);
                proof {
                    assert(attrs@ == attrs_of(cg.skip(i as int)[0]));
                    assert(parse_attrs_spec(attrs@, "full-path"@) == Some(p@));
                    assert(cg.skip(i as int).len() > 0);
                    assert(container_rootfile(cg.skip(i as int)) == Some(t@));
                }
                return Some(string_of(&t));
            },
            None => {},
        }
        i += 1;
    }
    proof {
        assert(cg.skip(i as int) =~= Seq::<Seq<Option<Seq<char>>>>::empty());
    }
    None
}

/// The first archive entry whose name ends in `.opf`.
pub open spec fn first_opf(names: Seq<Seq<char>>) -> Option<Seq<char>>
    decreases names.len(),
{
    if names.len() == 0 {
        None
    } else if ends_with(names[0], ".opf"@) {
        Some(names[0])
    } else {
        first_opf(names.drop_first())
    }
}

/// The first archive entry whose name ends in `.opf`.
pub fn first_opf_name(names: &Vec<String>) -> (r: Option<String>)
    ensures
        crate::books::epub::opt_view(r) == first_opf(names.deep_view()),
{
    let mut i: usize = 0;
    proof {
        assert(names.deep_view().skip(0) =~= names.deep_view());
    }
    while i < names.len()
        invariant
            i <= names.len(),
            first_opf(names.deep_view()) == first_opf(names.deep_view().skip(i as int)),
        decreases names.len() - i,
    {
        proof {
            assert(names.deep_view().skip(i as int)[0] == names@[i as int]@);
            assert(names.deep_view().skip(i as int).drop_first() =~= names.deep_view().skip(i + 1));
        }
        let n = chars_of(names[i].as_str());
        let ext = chars_of(".opf");
        if ends_with_exec(&n, &ext) {
            return Some(crate::text::owned(names[i].as_str()));
        }
        i += 1;
    }
    proof {
        assert(names.deep_view().skip(i as int) =~= Seq::<Seq<char>>::empty());
    }
    None
}


// ---------------------------------------------------------------------------
// The title and reading order of an EPUB.
// ---------------------------------------------------------------------------

/// The title of an EPUB: a non-blank title given by the caller, else the
/// package's `title` element, cleaned; else the file's stem, cleaned; else
/// `Imported EPUB`.
pub open spec fn epub_title_spec(title_override: Option<Seq<char>>, opf: Seq<char>, file_stem: Option<Seq<char>>) -> Seq<char> {
    let given = match title_override {
        Some(t) => if trim(t).len() > 0 {
            Some(t)
        } else {
            None
        },
        None => None,
    };
    let found = match given {
        Some(t) => Some(t),
        None => crate::books::documents::first_xml_tag_text_spec(opf, "title"@),
    };
    match found {
        Some(t) => crate::books::clean::clean_title_spec(t),
        None => match file_stem {
            Some(s) => crate::books::clean::clean_title_spec(s),
            None => "Imported EPUB"@,
        },
    }
}

pub fn epub_title(title_override: Option<&str>, opf: &str, file_stem: Option<&str>) -> (r: String)
    ensures
        r@ == epub_title_spec(
            crate::books::documents::opt_str_view(title_override),
            opf@,
            crate::books::documents::opt_str_view(file_stem),
        ),
{
    let given: Option<String> = match title_override {
        Some(t) => {
            let tc = chars_of(t);
            let tt = trim_chars(&tc);
            if tt.len() > 0 {
                Some(crate::text::owned(t))
            } else {
                None
            }
        },
        None => None,
    };
    let found = match given {
        Some(t) => Some(t),
        None => crate::books::documents::first_xml_tag_text(opf, "title"),
    };
    match found {
        Some(t) => crate::books::clean::clean_title(t.as_str()),
        None => match file_stem {
            Some(s) => crate::books::clean::clean_title(s),
            None => crate::text::owned("Imported EPUB"),
        },
    }
}

/// The reading order: the spine, or, when it is empty, every manifest item
/// with an HTML media type, in manifest order.
pub open spec fn reading_order_spec(spine: Seq<Seq<char>>, manifest: Seq<(Seq<char>, (Seq<char>, Seq<char>, Seq<char>))>) -> Seq<Seq<char>>
    decreases manifest.len(),
{
    if spine.len() > 0 {
        spine
    } else if manifest.len() == 0 {
        seq![]
    } else {
        reading_order_spec(spine, manifest.drop_last()) + if is_html_media_spec(manifest.last().1.1) {
            seq![manifest.last().0]
        } else {
            seq![]
        }
    }
}

pub fn epub_reading_order(spine: Vec<String>, manifest: &Vec<(String, EpubManifestItem)>) -> (r: Vec<String>)
    ensures
        r.deep_view() == reading_order_spec(spine.deep_view(), crate::books::epub_toc::manifest_view(manifest@)),
{
    if spine.len() > 0 {
        return spine;
    }
    let ghost mv = crate::books::epub_toc::manifest_view(manifest@);
    let mut out: Vec<String> = Vec::new();
    let mut i: usize = 0;
    proof {
        assert(out.deep_view() =~= reading_order_spec(spine.deep_view(), mv.take(0)));
    }
    while i < manifest.len()
        invariant
            i <= manifest@.len(),
            spine.deep_view().len() == 0,
            mv == crate::books::epub_toc::manifest_view(manifest@),
            out.deep_view() == reading_order_spec(spine.deep_view(), mv.take(i as int)),
        decreases manifest@.len() - i,
    {
        proof {
            assert(mv.take(i + 1).drop_last() =~= mv.take(i as int));
            assert(mv.take(i + 1).last() == mv[i as int]);
        }
        let ghost before = out.deep_view();
        if is_html_media(manifest[i].1.media_type.as_str()) {
            let id = crate::text::owned(manifest[i].0.as_str());
            let ghost idv = id@;
            out.push(id);
            proof {
                assert(out.deep_view() =~= before + seq![idv]);
            }
        } else {
            proof {
                assert(before + Seq::<Seq<char>>::empty() =~= before);
            }
        }
        i += 1;
    }
    proof {
        assert(mv.take(i as int) =~= mv);
    }
    out
}

} // verus!
