//! Single-file books (plain text, Markdown, HTML, FB2): their title and the
//! one chapter they make.
use vstd::prelude::*;
use crate::books::chapters::{chapter_view, chapters_view};
use crate::books::clean::{clean_block_chars, clean_block_spec, clean_title, clean_title_spec, tag_re};
use crate::books::epub::{caps_groups, decode_entities, decode_entities_spec, group, opt_chars_view, opt_view};
use crate::books::markdown::{first_heading, first_markdown_heading, markdown_to_blocks, markdown_to_blocks_spec};
use crate::books::pdf_text::{push_split_blocks, split_blocks_spec, text_to_blocks, text_to_blocks_spec};
use crate::books::{BookAsset, BookChapter, BookDocument};
use crate::patterns::{captures, capture_view, group_text, group_text_exec, matches_ok, replace_all, spec_captures, spec_replace_all, splice_matches, splice_matches_exec, CaptureMatch};
use crate::text::{chars_of, lines, push_all, push_str, string_of};

verus! {

// ---------------------------------------------------------------------------
// Text of the first element with a given name.
// ---------------------------------------------------------------------------

/// A character with a meaning in a regular expression (`\ . + * ? ( ) | [ ]
/// { } ^ $ # & - ~`, as `regex::escape` has them).
pub open spec fn is_meta_char(c: char) -> bool {
    c == '\\' || c == '.' || c == '+' || c == '*' || c == '?' || c == '(' || c == ')' || c == '|'
        || c == '[' || c == ']' || c == '{' || c == '}' || c == '^' || c == '$' || c == '#'
        || c == '&' || c == '-' || c == '~'
}

/// The text with a backslash before every meta character, so that a
/// pattern matches it literally.
pub open spec fn spec_regex_escape(s: Seq<char>) -> Seq<char>
    decreases s.len(),
{
    if s.len() == 0 {
        seq![]
    } else if is_meta_char(s.last()) {
        spec_regex_escape(s.drop_last()) + seq!['\\', s.last()]
    } else {
        spec_regex_escape(s.drop_last()).push(s.last())
    }
}

/// The text escaped for use as a literal in a pattern.
pub fn regex_escape(s: &str) -> (r: String)
    ensures
        r@ == spec_regex_escape(s@),
{
    let cs = chars_of(s);
    let mut out: Vec<char> = Vec::new();
    let mut i: usize = 0;
    while i < cs.len()
        invariant
            i <= cs@.len(),
            cs@ == s@,
            out@ == spec_regex_escape(cs@.take(i as int)),
        decreases cs@.len() - i,
    {
        let c = cs[i];
        proof {
            assert(cs@.take(i + 1).drop_last() =~= cs@.take(i as int));
            assert(cs@.take(i + 1).last() == c);
        }
        if c == '\\' || c == '.' || c == '+' || c == '*' || c == '?' || c == '(' || c == ')' || c == '|'
            || c == '[' || c == ']' || c == '{' || c == '}' || c == '^' || c == '$' || c == '#'
            || c == '&' || c == '-' || c == '~' {
            out.push('\\');
            out.push(c);
            proof {
                assert(out@ =~= spec_regex_escape(cs@.take(i as int)) + seq!['\\', c]);
            }
        } else {
            out.push(c);
        }
        i += 1;
    }
    proof {
        assert(cs@.take(i as int) =~= cs@);
    }
    string_of(&out)
}

/// An element named `esc` (already escaped), with any namespace prefix, and
/// its content as group 1.
pub open spec fn xml_tag_re(esc: Seq<char>) -> Seq<char> {
    "(?is)<(?:[A-Za-z0-9_.-]+:)?"@ + esc + "\\b[^>]*>(.*?)</(?:[A-Za-z0-9_.-]+:)?"@ + esc + ">"@
}

/// Markup content as text: tags become spaces, entities are decoded, white
/// space is cleaned.
pub open spec fn markup_text_spec(g: Seq<char>) -> Seq<char> {
    clean_block_spec(decode_entities_spec(spec_replace_all(tag_re(), g, " "@)))
}

fn markup_text(g: &Vec<char>) -> (r: Vec<char>)
    ensures
        r@ == markup_text_spec(g@),
{
    let gs = string_of(g);
    let stripped = replace_all("(?is)<[^>]+>", gs.as_str(), " ");
    let sc = chars_of(stripped.as_str());
    let d = decode_entities(&sc);
    clean_block_chars(&d)
}

/// The text of the first element named `name`, if there is one.
pub open spec fn first_xml_tag_text_spec(raw: Seq<char>, name: Seq<char>) -> Option<Seq<char>> {
    let caps = spec_captures(xml_tag_re(spec_regex_escape(name)), raw);
    if caps.len() == 0 {
        None
    } else {
        match group(caps[0].2, 0) {
            Some(g) => Some(markup_text_spec(g)),
            None => None,
        }
    }
}

/// The text of the first element named `local_name` (with any namespace
/// prefix), tags dropped, entities decoded, white space cleaned.
pub fn first_xml_tag_text(raw: &str, local_name: &str) -> (r: Option<String>)
    ensures
        opt_view(r) == first_xml_tag_text_spec(raw@, local_name@),
{
    let esc = regex_escape(local_name);
    let ec = chars_of(esc.as_str());
    let mut p = chars_of("(?is)<(?:[A-Za-z0-9_.-]+:)?");
    push_all(&mut p, &ec);
    push_str(&mut p, "\\b[^>]*>(.*?)</(?:[A-Za-z0-9_.-]+:)?");
    push_all(&mut p, &ec);
    push_str(&mut p, ">");
    let pattern = string_of(&p);
    proof {
        assert(pattern@ =~= xml_tag_re(spec_regex_escape(local_name@)));
    }
    let caps = captures(pattern.as_str(), raw);
    proof {
        assert(caps@.map_values(|m: CaptureMatch| capture_view(m)).len() == caps@.len());
    }
    if caps.len() == 0 {
        return None;
    }
    proof {
        assert(caps@.map_values(|m: CaptureMatch| capture_view(m))[0] == capture_view(caps@[0]));
    }
    if caps[0].groups.len() == 0 {
        return None;
    }
    match &caps[0].groups[0] {
        Some(g) => {
            let gc = chars_of(g.as_str());
            let t = markup_text(&gc);
            Some(string_of(&t))
        },
        None => None,
    }
}

/// The title of an HTML file: its `title` element, else its first `h1`,
/// cleaned.
pub open spec fn first_html_title_spec(raw: Seq<char>) -> Option<Seq<char>> {
    match first_xml_tag_text_spec(raw, "title"@) {
        Some(t) => Some(clean_title_spec(t)),
        None => match first_xml_tag_text_spec(raw, "h1"@) {
            Some(t) => Some(clean_title_spec(t)),
            None => None,
        },
    }
}

pub fn first_html_title(raw: &str) -> (r: Option<String>)
    ensures
        opt_view(r) == first_html_title_spec(raw@),
{
    let t = match first_xml_tag_text(raw, "title") {
        Some(t) => Some(t),
        None => first_xml_tag_text(raw, "h1"),
    };
    match t {
        Some(t) => Some(clean_title(t.as_str())),
        None => None,
    }
}

/// The paragraph element (`<p ...>...</p>`), its content as group 1.
pub open spec fn paragraph_re() -> Seq<char> {
    "(?is)<p\\b[^>]*>(.*?)</p>"@
}

/// The non-empty texts of the paragraph elements met.
pub open spec fn paragraphs_spec(caps: Seq<Seq<Option<Seq<char>>>>) -> Seq<Seq<char>>
    decreases caps.len(),
{
    if caps.len() == 0 {
        seq![]
    } else {
        let rest = paragraphs_spec(caps.drop_last());
        match group(caps.last(), 0) {
            Some(g) => if markup_text_spec(g).len() > 0 {
                rest.push(markup_text_spec(g))
            } else {
                rest
            },
            None => rest,
        }
    }
}

/// The text of each paragraph element of an XML file, where not empty.
pub fn xml_paragraphs(xml: &str) -> (r: Vec<String>)
    ensures
        r.deep_view() == paragraphs_spec(caps_groups_of(spec_captures(paragraph_re(), xml@))),
{
    let caps = captures("(?is)<p\\b[^>]*>(.*?)</p>", xml);
    let ghost cg = caps@.map_values(|m: CaptureMatch| capture_view(m).2);
    proof {
        assert(cg =~= caps_groups_of(spec_captures(paragraph_re(), xml@)));
    }
    let mut out: Vec<String> = Vec::new();
    let mut i: usize = 0;
    proof {
        assert(cg.take(0) =~= Seq::<Seq<Option<Seq<char>>>>::empty());
        assert(out.deep_view() =~= Seq::<Seq<char>>::empty());
    }
    while i < caps.len()
        invariant
            i <= caps.len(),
            cg == caps@.map_values(|m: CaptureMatch| capture_view(m).2),
            out.deep_view() == paragraphs_spec(cg.take(i as int)),
        decreases caps.len() - i,
    {
        proof {
            assert(cg.take(i + 1).drop_last() =~= cg.take(i as int));
            assert(cg.take(i + 1).last() == capture_view(caps@[i as int]).2);
        }
        let m = &caps[i];
        if m.groups.len() > 0 {
            match &m.groups[0] {
                Some(g) => {
                    let gc = chars_of(g.as_str());
                    let t = markup_text(&gc);
                    if t.len() > 0 {
                        let ghost before = out.deep_view();
                        out.push(string_of(&t));
                        proof {
                            assert(out.deep_view() =~= before.push(t@));
                        }
                    }
                },
                None => {},
            }
        }
        i += 1;
    }
    proof {
        assert(cg.take(i as int) =~= cg);
    }
    out
}

/// The capture groups of each match.
pub open spec fn caps_groups_of(caps: Seq<(int, int, Seq<Option<Seq<char>>>)>) -> Seq<Seq<Option<Seq<char>>>> {
    caps.map_values(|c: (int, int, Seq<Option<Seq<char>>>)| c.2)
}

// ---------------------------------------------------------------------------
// Books of one chapter.
// ---------------------------------------------------------------------------

/// A book as plain values: title, chapters, assets (path and bytes), notes.
pub type DocumentView = (Seq<char>, Seq<(Seq<char>, bool, Seq<Seq<char>>)>, Seq<(Seq<char>, Seq<u8>)>, Seq<Seq<char>>);

pub open spec fn document_view(d: BookDocument) -> DocumentView {
    (
        d.title@,
        chapters_view(d.chapters@),
        d.assets@.map_values(|a: BookAsset| (a.relative_path@, a.bytes@)),
        d.notes.deep_view(),
    )
}

/// A title from the file name, or the given default.
pub open spec fn stem_title(file_stem: Option<Seq<char>>, default: Seq<char>) -> Seq<char> {
    match file_stem {
        Some(s) => clean_title_spec(s),
        None => default,
    }
}

fn stem_title_exec(file_stem: Option<&str>, default: &str) -> (r: String)
    ensures
        r@ == stem_title(
            match file_stem {
                Some(s) => Some(s@),
                None => None,
            },
            default@,
        ),
{
    match file_stem {
        Some(s) => clean_title(s),
        None => crate::text::owned(default),
    }
}

pub open spec fn opt_str_view(o: Option<&str>) -> Option<Seq<char>> {
    match o {
        Some(s) => Some(s@),
        None => None,
    }
}

/// A book of one chapter with the book's title.
fn one_chapter_document(title: String, blocks: Vec<String>, assets: Vec<BookAsset>, notes: Vec<String>) -> (r: BookDocument)
    ensures
        document_view(r) == (
            title@,
            seq![(title@, false, blocks.deep_view())],
            assets@.map_values(|a: BookAsset| (a.relative_path@, a.bytes@)),
            notes.deep_view(),
        ),
{
    let chapter_title = crate::text::owned(title.as_str());
    let ghost bv = blocks.deep_view();
    let c = BookChapter { title: chapter_title, generated_title: false, blocks };
    let mut chapters: Vec<BookChapter> = Vec::new();
    chapters.push(c);
    let r = BookDocument { title, chapters, assets, notes };
    proof {
        assert(chapters_view(r.chapters@) =~= seq![(title@, false, bv)]);
    }
    r
}

/// A plain-text book: titled after its file (`Imported Text` without a
/// name), its paragraphs as blocks.
pub open spec fn text_document_spec(raw: Seq<char>, file_stem: Option<Seq<char>>) -> DocumentView {
    let title = stem_title(file_stem, "Imported Text"@);
    (title, seq![(title, false, text_to_blocks_spec(raw))], seq![], seq![])
}

/// The book a plain-text file makes, given its text and file stem.
pub fn load_text_document(raw: &str, file_stem: Option<&str>) -> (r: BookDocument)
    ensures
        document_view(r) == text_document_spec(raw@, opt_str_view(file_stem)),
{
    let title = stem_title_exec(file_stem, "Imported Text");
    let blocks = text_to_blocks(raw);
    let assets: Vec<BookAsset> = Vec::new();
    let notes: Vec<String> = Vec::new();
    let r = one_chapter_document(title, blocks, assets, notes);
    proof {
        assert(document_view(r).2 =~= Seq::<(Seq<char>, Seq<u8>)>::empty());
        assert(document_view(r).3 =~= Seq::<Seq<char>>::empty());
    }
    r
}

/// A Markdown book: titled by its first heading, else after its file
/// (`Imported Markdown` without a name), its Markdown blocks as blocks.
pub open spec fn markdown_document_spec(raw: Seq<char>, file_stem: Option<Seq<char>>) -> DocumentView {
    let title = match first_heading(lines(raw)) {
        Some(h) => h,
        None => stem_title(file_stem, "Imported Markdown"@),
    };
    (title, seq![(title, false, markdown_to_blocks_spec(raw))], seq![], seq![])
}

/// The book a Markdown file makes, given its text and file stem.
pub fn load_markdown_document(raw: &str, file_stem: Option<&str>) -> (r: BookDocument)
    ensures
        document_view(r) == markdown_document_spec(raw@, opt_str_view(file_stem)),
{
    let title = match first_markdown_heading(raw) {
        Some(h) => h,
        None => stem_title_exec(file_stem, "Imported Markdown"),
    };
    let blocks = markdown_to_blocks(raw);
    let assets: Vec<BookAsset> = Vec::new();
    let notes: Vec<String> = Vec::new();
    let r = one_chapter_document(title, blocks, assets, notes);
    proof {
        assert(document_view(r).2 =~= Seq::<(Seq<char>, Seq<u8>)>::empty());
        assert(document_view(r).3 =~= Seq::<Seq<char>>::empty());
    }
    r
}

/// An HTML book: titled by its `title` or first `h1`, else after its file
/// (`Imported HTML` without a name); its rendered blocks and the media they
/// refer to.
pub open spec fn html_document_spec(raw: Seq<char>, file_stem: Option<Seq<char>>, blocks: Seq<Seq<char>>, assets: Seq<(Seq<char>, Seq<u8>)>) -> DocumentView {
    let title = match first_html_title_spec(raw) {
        Some(t) => t,
        None => stem_title(file_stem, "Imported HTML"@),
    };
    (title, seq![(title, false, blocks)], assets, seq![])
}

/// The book an HTML file makes, given its text, file stem, its rendered
/// blocks and the media collected while rendering.
pub fn load_html_document(raw: &str, file_stem: Option<&str>, blocks: Vec<String>, assets: Vec<BookAsset>) -> (r: BookDocument)
    ensures
        document_view(r) == html_document_spec(
            raw@,
            opt_str_view(file_stem),
            blocks.deep_view(),
            assets@.map_values(|a: BookAsset| (a.relative_path@, a.bytes@)),
        ),
{
    let title = match first_html_title(raw) {
        Some(t) => t,
        None => stem_title_exec(file_stem, "Imported HTML"),
    };
    let notes: Vec<String> = Vec::new();
    let r = one_chapter_document(title, blocks, assets, notes);
    proof {
        assert(document_view(r).3 =~= Seq::<Seq<char>>::empty());
    }
    r
}

/// The blocks of an FB2 text: its paragraphs, split where long; without
/// any, the whole text with tags dropped, split into paragraphs.
pub open spec fn fb2_paragraph_blocks(ps: Seq<Seq<char>>) -> Seq<Seq<char>>
    decreases ps.len(),
{
    if ps.len() == 0 {
        seq![]
    } else {
        fb2_paragraph_blocks(ps.drop_last()) + split_blocks_spec(ps.last())
    }
}

/// The note every FB2 book carries.
pub open spec fn fb2_note() -> Seq<char> {
    "FB2 import currently extracts text; embedded binary images are not imported yet."@
}

/// An FB2 book: titled by its `book-title` element, else after its file
/// (`Imported FB2` without a name), cleaned; its paragraphs as blocks.
pub open spec fn fb2_document_spec(raw: Seq<char>, file_stem: Option<Seq<char>>) -> DocumentView {
    let t = match first_xml_tag_text_spec(raw, "book-title"@) {
        Some(t) => t,
        None => stem_title(file_stem, "Imported FB2"@),
    };
    let title = clean_title_spec(t);
    let ps = fb2_paragraph_blocks(paragraphs_spec(caps_groups_of(spec_captures(paragraph_re(), raw))));
    let blocks = if ps.len() == 0 {
        text_to_blocks_spec(spec_replace_all(tag_re(), raw, " "@))
    } else {
        ps
    };
    (title, seq![(title, false, blocks)], seq![], seq![fb2_note()])
}

/// The book an FB2 file makes, given its text and file stem.
pub fn load_fb2_document(raw: &str, file_stem: Option<&str>) -> (r: BookDocument)
    ensures
        document_view(r) == fb2_document_spec(raw@, opt_str_view(file_stem)),
{
    let t = match first_xml_tag_text(raw, "book-title") {
        Some(t) => t,
        None => stem_title_exec(file_stem, "Imported FB2"),
    };
    let title = clean_title(t.as_str());
    let paragraphs = xml_paragraphs(raw);
    let ghost pv = paragraphs.deep_view();
    let mut blocks: Vec<String> = Vec::new();
    let mut i: usize = 0;
    proof {
        assert(pv.take(0) =~= Seq::<Seq<char>>::empty());
        assert(blocks.deep_view() =~= Seq::<Seq<char>>::empty());
    }
    while i < paragraphs.len()
        invariant
            i <= paragraphs.len(),
            pv == paragraphs.deep_view(),
            blocks.deep_view() == fb2_paragraph_blocks(pv.take(i as int)),
        decreases paragraphs.len() - i,
    {
        proof {
            assert(pv.take(i + 1).drop_last() =~= pv.take(i as int));
            assert(pv.take(i + 1).last() == paragraphs@[i as int]@);
        }
        let pc = chars_of(paragraphs[i].as_str());
        push_split_blocks(&mut blocks, &pc);
        i += 1;
    }
    proof {
        assert(pv.take(i as int) =~= pv);
    }
    let blocks = if blocks.len() == 0 {
        let stripped = replace_all("(?is)<[^>]+>", raw, " ");
        text_to_blocks(stripped.as_str())
    } else {
        blocks
    };
    let mut notes: Vec<String> = Vec::new();
    notes.push(crate::text::owned("FB2 import currently extracts text; embedded binary images are not imported yet."));
    let assets: Vec<BookAsset> = Vec::new();
    let ghost nv = notes.deep_view();
    let r = one_chapter_document(title, blocks, assets, notes);
    proof {
        assert(nv =~= seq![fb2_note()]);
        assert(document_view(r).2 =~= Seq::<(Seq<char>, Seq<u8>)>::empty());
    }
    r
}

// ---------------------------------------------------------------------------
// Image links of a book stored at the top of the books folder.
// ---------------------------------------------------------------------------

/// A local image link `![…](assets/name)`: its opening `![…](` as group 1,
/// the asset's name as group 2, the closing `)` as group 3.
pub open spec fn local_image_re() -> Seq<char> {
    "(!\\[[^\\]\\n]*\\]\\()assets/([A-Za-z0-9._-]+)(\\))"@
}

/// The replacement of each link: `![…](<folder/assets/name>)`.
pub open spec fn asset_link_reps(ms: Seq<(int, int, Seq<Option<Seq<char>>>)>, folder: Seq<char>) -> Seq<Seq<char>> {
    ms.map_values(
        |m: (int, int, Seq<Option<Seq<char>>>)|
            group_text(m, 1) + "<"@ + folder + "/assets/"@ + group_text(m, 2) + ">"@ + group_text(m, 3),
    )
}

/// A text with its local image links, given as the matches of
/// `local_image_re`, pointing into the book's folder.
pub open spec fn relinked_text(text: Seq<char>, ms: Seq<(int, int, Seq<Option<Seq<char>>>)>, folder: Seq<char>) -> Seq<char> {
    splice_matches(text, ms, asset_link_reps(ms, folder))
}

/// A text with its local image links pointing into the book's folder.
pub open spec fn root_asset_links_spec(text: Seq<char>, folder: Seq<char>) -> Seq<char> {
    relinked_text(text, spec_captures(local_image_re(), text), folder)
}

/// The replacement for one local image link, given the link's opening
/// `![alt](`, the book's folder, the asset's name and the closing `)`.
pub fn asset_link_replacement(open: &str, folder: &str, name: &str, close: &str) -> (r: String)
    ensures
        r@ == open@ + "<"@ + folder@ + "/assets/"@ + name@ + ">"@ + close@,
{
    let mut out = chars_of(open);
    push_str(&mut out, "<");
    push_str(&mut out, folder);
    push_str(&mut out, "/assets/");
    push_str(&mut out, name);
    push_str(&mut out, ">");
    push_str(&mut out, close);
    string_of(&out)
}

/// A text with its local image links, given as the matches of
/// `local_image_re` in it, pointing into the book's folder.
pub fn relink_asset_links(text: &str, ms: &Vec<CaptureMatch>, folder: &str) -> (r: String)
    requires
        matches_ok(text@, ms@.map_values(|m: CaptureMatch| capture_view(m))),
    ensures
        r@ == relinked_text(text@, ms@.map_values(|m: CaptureMatch| capture_view(m)), folder@),
{
    let ghost mv = ms@.map_values(|m: CaptureMatch| capture_view(m));
    let mut reps: Vec<Vec<char>> = Vec::new();
    let mut i: usize = 0;
    proof {
        assert(reps.deep_view() =~= asset_link_reps(mv, folder@).take(0));
    }
    while i < ms.len()
        invariant
            i <= ms@.len(),
            mv == ms@.map_values(|m: CaptureMatch| capture_view(m)),
            reps.deep_view() == asset_link_reps(mv, folder@).take(i as int),
        decreases ms@.len() - i,
    {
        let g1 = group_text_exec(&ms[i], 1);
        let g2 = group_text_exec(&ms[i], 2);
        let g3 = group_text_exec(&ms[i], 3);
        let s1 = string_of(&g1);
        let s2 = string_of(&g2);
        let s3 = string_of(&g3);
        let rep = asset_link_replacement(s1.as_str(), folder, s2.as_str(), s3.as_str());
        let rc = chars_of(rep.as_str());
        let ghost before = reps.deep_view();
        let ghost rcv = rc@;
        reps.push(rc);
        proof {
            assert(mv[i as int] == capture_view(ms@[i as int]));
            crate::text::lemma_chars_deep(&reps@[i as int]);
            assert(reps.deep_view() =~= before.push(rcv));
            assert(reps.deep_view() =~= asset_link_reps(mv, folder@).take(i + 1));
        }
        i += 1;
    }
    proof {
        assert(asset_link_reps(mv, folder@).take(i as int) =~= asset_link_reps(mv, folder@));
    }
    let tc = chars_of(text);
    let out = splice_matches_exec(&tc, ms, &reps);
    string_of(&out)
}

/// A text with its local image links pointing into the book's folder.
fn relink_block(text: &str, folder: &str) -> (r: String)
    ensures
        r@ == root_asset_links_spec(text@, folder@),
{
    let ms = captures("(!\\[[^\\]\\n]*\\]\\()assets/([A-Za-z0-9._-]+)(\\))", text);
    relink_asset_links(text, &ms, folder)
}

/// A chapter with its image links pointing into the book's folder.
pub open spec fn relinked_chapter(c: (Seq<char>, bool, Seq<Seq<char>>), folder: Seq<char>) -> (Seq<char>, bool, Seq<Seq<char>>) {
    (c.0, c.1, c.2.map_values(|b: Seq<char>| root_asset_links_spec(b, folder)))
}

/// For a book with media, points the image links of every block at the
/// book's folder (`folder/assets/name`); a book without media is left as
/// it is.
pub fn rewrite_root_book_asset_links(document: &mut BookDocument, folder_name: &str)
    ensures
        final(document).title == old(document).title,
        final(document).assets == old(document).assets,
        final(document).notes == old(document).notes,
        chapters_view(final(document).chapters@) == if old(document).assets@.len() == 0 {
            chapters_view(old(document).chapters@)
        } else {
            chapters_view(old(document).chapters@).map_values(
                |c: (Seq<char>, bool, Seq<Seq<char>>)| relinked_chapter(c, folder_name@),
            )
        },
{
    if document.assets.len() == 0 {
        return;
    }
    let ghost cv = chapters_view(document.chapters@);
    let ghost want = cv.map_values(|c: (Seq<char>, bool, Seq<Seq<char>>)| relinked_chapter(c, folder_name@));
    let mut out: Vec<BookChapter> = Vec::new();
    let mut i: usize = 0;
    proof {
        assert(chapters_view(out@) =~= want.take(0));
    }
    while i < document.chapters.len()
        invariant
            i <= document.chapters@.len(),
            cv == chapters_view(document.chapters@),
            want == cv.map_values(|c: (Seq<char>, bool, Seq<Seq<char>>)| relinked_chapter(c, folder_name@)),
            chapters_view(out@) == want.take(i as int),
        decreases document.chapters@.len() - i,
    {
        let c = &document.chapters[i];
        let ghost bv = c.blocks.deep_view();
        let mut blocks: Vec<String> = Vec::new();
        let mut j: usize = 0;
        proof {
            assert(blocks.deep_view() =~= bv.map_values(|b: Seq<char>| root_asset_links_spec(b, folder_name@)).take(0));
        }
        while j < c.blocks.len()
            invariant
                j <= c.blocks@.len(),
                bv == c.blocks.deep_view(),
                blocks.deep_view() == bv.map_values(|b: Seq<char>| root_asset_links_spec(b, folder_name@)).take(j as int),
            decreases c.blocks@.len() - j,
        {
            let ghost before = blocks.deep_view();
            let nb = relink_block(c.blocks[j].as_str(), folder_name);
            let ghost nbv = nb@;
            blocks.push(nb);
            proof {
                assert(bv[j as int] == c.blocks@[j as int]@);
                assert(blocks.deep_view() =~= before.push(nbv));
                assert(blocks.deep_view() =~= bv.map_values(|b: Seq<char>| root_asset_links_spec(b, folder_name@)).take(j + 1));
            }
            j += 1;
        }
        proof {
            assert(bv.map_values(|b: Seq<char>| root_asset_links_spec(b, folder_name@)).take(j as int)
                =~= bv.map_values(|b: Seq<char>| root_asset_links_spec(b, folder_name@)));
        }
        let ghost before = chapters_view(out@);
        let nc = BookChapter {
            title: crate::text::owned(c.title.as_str()),
            generated_title: c.generated_title,
            blocks,
        };
        let ghost ncv = chapter_view(nc);
        out.push(nc);
        proof {
            assert(cv[i as int] == chapter_view(document.chapters@[i as int]));
            assert(want[i as int] == relinked_chapter(cv[i as int], folder_name@));
            assert(ncv == want[i as int]);
            assert(chapters_view(out@) =~= before.push(ncv));
            assert(chapters_view(out@) =~= want.take(i + 1));
        }
        i += 1;
    }
    proof {
        assert(want.take(i as int) =~= want);
    }
    document.chapters = out;
}

} // verus!
