//! EPUB tables of contents and navigation: which link labels make
//! chapter titles, which files are navigation documents, and how the
//! entries of the HTML and NCX tables are merged.
use vstd::prelude::*;
use crate::books::clean::{clean_block, clean_block_chars, clean_block_spec, clean_title_chars,
    clean_title_spec, tag_re};
use crate::books::epub::{entries_view, entry_keys, entry_view, epub_target_key, opt_view,
    target_key_spec, EpubTocEntry, TocEntryView};
use crate::books::epub::{attr_get, attr_lookup, caps_groups, decode_entities_spec, group,
    join_epub_path_spec, opt_chars_view, pairs_view, parse_attrs, parse_attrs_spec, percent_decode_spec,
    percent_ok, href_decodable, href_target_spec};
use vstd::utf8::encode_utf8;
use crate::books::clean::{is_external_href, is_external_href_spec, replace_str};
use crate::patterns::CaptureMatch;
use crate::books::markdown::{first_heading, first_heading_block};
use crate::books::pdf_text::{count_alpha, count_alpha_upper};
use crate::numbers::{decimal, decimal_exec};
use crate::patterns::{captures, capture_view, is_match, replace_all, spec_captures, spec_is_match,
    spec_replace_all};
use crate::text::{chars_of, contains, contains_str, ends_with, ends_with_str, eq_ignore_case, eq_str,
    is_ws, is_whitespace, lemma_rfind_to, push_all, push_str, replace, rfind, rfind_exec, starts_with,
    starts_with_str, string_of, trim, trim_chars, trim_start_set, trim_start_set_chars, utf8_len,
    words, char_index_of_byte, find, lemma_utf8_len_bounds};
use crate::unicode::{spec_str_lowercase, str_lowercase};
use crate::books::outline::{anchors_view, heading_slug_spec, lookup_anchor, Anchors};
use crate::books::clean::{fragment_link_spec, markdown_link_spec};

verus! {

/// A bare chapter label: `Chapter 3`, `IV.`, `Part 2` (case-insensitive).
pub open spec fn numbered_label_re() -> Seq<char> {
    "(?i)^\\s*(?:(?:chapter|chap\\.?|part|book)\\s*)?(?:\\d+|[ivxlcdm]+)\\.?\\s*$"@
}

/// A chapter label followed by a title of at least three characters.
pub open spec fn toc_entry_re() -> Seq<char> {
    "(?i)^\\s*(?:chapter|chap\\.?|part|book)\\s+(?:\\d+|[ivxlcdm]+)\\b.{3,}"@
}

/// A heading that starts with a chapter, part or section number.
pub open spec fn chapter_heading_re() -> Seq<char> {
    "(?i)^\\s*(?:chapter|chap\\.?|part|book|section)\\s+(?:\\d+|[ivxlcdm]+)\\.?\\b"@
}

/// A numbered chapter label, a separator and the title (group 1).
pub open spec fn numbered_title_prefix_re() -> Seq<char> {
    "(?i)^\\s*(?:chapter|chap\\.?|part|book)\\s+(?:\\d+|[ivxlcdm]+)(?:\\.\\s+|[:\\-\u{2013}\u{2014}]\\s+|\\s+-\\s+)(.+\\S)\\s*$"@
}

/// The text of an HTML fragment: tags dropped, entities decoded, white
/// space cleaned.
pub open spec fn html_inline_text_spec(html: Seq<char>) -> Seq<char> {
    clean_block_spec(decode_entities_spec(spec_replace_all(tag_re(), html, " "@)))
}

pub fn html_inline_text(html: &str) -> (r: String)
    ensures
        r@ == html_inline_text_spec(html@),
{
    let untagged = replace_all("(?is)<[^>]+>", html, " ");
    let decoded = crate::books::epub::decode_entities(&chars_of(untagged.as_str()));
    string_of(&clean_block_chars(&decoded))
}

/// Labels that name a book's furniture rather than a chapter.
pub open spec fn is_furniture_label(lower: Seq<char>) -> bool {
    ||| lower == "cover"@
    ||| lower == "contents"@
    ||| lower == "table of contents"@
    ||| lower == "copyright"@
    ||| lower == "license"@
    ||| lower == "title page"@
}

/// A plausible table-of-contents title: at least three letters, at most
/// 160 characters, and not a label of the book's furniture.
pub open spec fn plausible_toc_title(title: Seq<char>) -> bool {
    let c = clean_block_spec(title);
    count_alpha(c) >= 3 && c.len() <= 160 && !is_furniture_label(spec_str_lowercase(c))
}

pub fn plausible_epub_toc_title(title: &str) -> (r: bool)
    ensures
        r == plausible_toc_title(title@),
{
    let cleaned = clean_block(title);
    let cc = chars_of(cleaned.as_str());
    let (letters, _) = count_alpha_upper(&cc);
    if letters < 3 || cc.len() > 160 {
        return false;
    }
    let lower = str_lowercase(cleaned.as_str());
    let l = chars_of(lower.as_str());
    !(crate::text::eq_str(&l, "cover") || crate::text::eq_str(&l, "contents") || crate::text::eq_str(
        &l,
        "table of contents",
    ) || crate::text::eq_str(&l, "copyright") || crate::text::eq_str(&l, "license")
        || crate::text::eq_str(&l, "title page"))
}

/// Characters dropped before the text that follows a link label.
pub open spec fn is_label_separator(c: char) -> bool {
    is_ws(c) || c == '-' || c == ':' || c == '.' || c == '\u{2013}' || c == '\u{2014}'
}

/// The text without its leading separators.
pub open spec fn trim_label_separators(s: Seq<char>) -> Seq<char>
    decreases s.len(),
{
    if s.len() > 0 && is_label_separator(s[0]) {
        trim_label_separators(s.drop_first())
    } else {
        s
    }
}

fn trim_label_separators_exec(s: &Vec<char>) -> (r: Vec<char>)
    ensures
        r@ == trim_label_separators(s@),
{
    let mut i: usize = 0;
    proof {
        assert(s@.skip(0) =~= s@);
    }
    while i < s.len() && (is_whitespace(s[i]) || s[i] == '-' || s[i] == ':' || s[i] == '.' || s[i]
        == '\u{2013}' || s[i] == '\u{2014}')
        invariant
            i <= s.len(),
            trim_label_separators(s@) == trim_label_separators(s@.skip(i as int)),
        decreases s.len() - i,
    {
        proof {
            assert(s@.skip(i as int).drop_first() =~= s@.skip(i + 1));
        }
        i += 1;
    }
    crate::text::slice(s, i, s.len())
}

/// The title a table-of-contents link gives: the text after a bare
/// numbered label, else the label itself, else the text after it, when
/// plausible.
pub open spec fn toc_link_title_spec(label: Seq<char>, trailing: Seq<char>) -> Option<Seq<char>> {
    let l = clean_block_spec(label);
    let t = trim_label_separators(clean_block_spec(trailing));
    if spec_is_match(numbered_label_re(), l) && plausible_toc_title(t) {
        Some(t)
    } else if plausible_toc_title(l) {
        Some(l)
    } else if plausible_toc_title(t) {
        Some(t)
    } else {
        None
    }
}

pub fn epub_toc_link_title(label: &str, trailing: &str) -> (r: Option<String>)
    ensures
        match r {
            Some(t) => toc_link_title_spec(label@, trailing@) == Some(t@),
            None => toc_link_title_spec(label@, trailing@) is None,
        },
{
    let l = clean_block(label);
    let tc = trim_label_separators_exec(&chars_of(clean_block(trailing).as_str()));
    let t = string_of(&tc);
    if is_match(
        "(?i)^\\s*(?:(?:chapter|chap\\.?|part|book)\\s*)?(?:\\d+|[ivxlcdm]+)\\.?\\s*$",
        l.as_str(),
    ) && plausible_epub_toc_title(t.as_str()) {
        return Some(t);
    }
    if plausible_epub_toc_title(l.as_str()) {
        return Some(l);
    }
    if plausible_epub_toc_title(t.as_str()) {
        Some(t)
    } else {
        None
    }
}

/// Whether the HTML table's title should replace the NCX one: it is not a
/// bare numbered label, and the NCX title is one or is shorter (in bytes,
/// trimmed).
pub open spec fn prefer_html_title_spec(ncx_title: Seq<char>, html_title: Seq<char>) -> bool {
    let h = trim(html_title);
    if h.len() == 0 || spec_is_match(numbered_label_re(), h) {
        false
    } else {
        spec_is_match(numbered_label_re(), ncx_title) || utf8_len(h) > utf8_len(trim(ncx_title))
    }
}

pub fn prefer_html_toc_title(ncx_title: &str, html_title: &str) -> (r: bool)
    ensures
        r == prefer_html_title_spec(ncx_title@, html_title@),
{
    let h = trim_chars(&chars_of(html_title));
    let hs = string_of(&h);
    if h.len() == 0 || is_match(
        "(?i)^\\s*(?:(?:chapter|chap\\.?|part|book)\\s*)?(?:\\d+|[ivxlcdm]+)\\.?\\s*$",
        hs.as_str(),
    ) {
        return false;
    }
    if is_match(
        "(?i)^\\s*(?:(?:chapter|chap\\.?|part|book)\\s*)?(?:\\d+|[ivxlcdm]+)\\.?\\s*$",
        ncx_title,
    ) {
        return true;
    }
    let n = trim_chars(&chars_of(ncx_title));
    crate::text::utf8_len_wide(&h) > crate::text::utf8_len_wide(&n)
}

/// A heading title with a numbered chapter prefix replaced by the title
/// after it, when that is plausible.
pub open spec fn richer_heading_spec(title: Seq<char>) -> Seq<char> {
    let t = clean_title_spec(title);
    let caps = spec_captures(numbered_title_prefix_re(), t);
    if caps.len() > 0 && caps[0].2.len() > 0 && caps[0].2[0] is Some && plausible_toc_title(
        clean_title_spec(caps[0].2[0]->0),
    ) {
        clean_title_spec(caps[0].2[0]->0)
    } else {
        t
    }
}

pub fn richer_epub_heading_title(title: &str) -> (r: String)
    ensures
        r@ == richer_heading_spec(title@),
{
    let t = crate::books::clean::clean_title(title);
    let caps = captures(
        "(?i)^\\s*(?:chapter|chap\\.?|part|book)\\s+(?:\\d+|[ivxlcdm]+)(?:\\.\\s+|[:\\-\u{2013}\u{2014}]\\s+|\\s+-\\s+)(.+\\S)\\s*$",
        t.as_str(),
    );
    proof {
        assert(caps@.len() == spec_captures(numbered_title_prefix_re(), t@).len());
    }
    if caps.len() > 0 && caps[0].groups.len() > 0 {
        proof {
            assert(capture_view(caps@[0]) == spec_captures(numbered_title_prefix_re(), t@)[0]);
        }
        match &caps[0].groups[0] {
            Some(g) => {
                let stripped = crate::books::clean::clean_title(g.as_str());
                if plausible_epub_toc_title(stripped.as_str()) {
                    return stripped;
                }
            },
            None => {},
        }
    }
    t
}

/// The title of a chapter cut out of a file at a table-of-contents entry:
/// the entry's title, unless that is a bare numbered label and the first
/// heading of the text is better.
pub open spec fn segment_title_spec(toc_title: Seq<char>, blocks: Seq<Seq<char>>) -> Seq<char> {
    let t = clean_title_spec(toc_title);
    if !spec_is_match(numbered_label_re(), t) {
        t
    } else {
        match first_heading(blocks) {
            Some(h) => if prefer_html_title_spec(t, richer_heading_spec(h)) {
                richer_heading_spec(h)
            } else {
                t
            },
            None => t,
        }
    }
}

pub fn epub_segment_chapter_title(toc_title: &str, blocks: &[String]) -> (r: String)
    ensures
        r@ == segment_title_spec(toc_title@, blocks@.map_values(|b: String| b@)),
{
    let t = crate::books::clean::clean_title(toc_title);
    if !is_match(
        "(?i)^\\s*(?:(?:chapter|chap\\.?|part|book)\\s*)?(?:\\d+|[ivxlcdm]+)\\.?\\s*$",
        t.as_str(),
    ) {
        return t;
    }
    match first_heading_block(blocks) {
        Some(h) => {
            let richer = richer_epub_heading_title(h.as_str());
            if prefer_html_toc_title(t.as_str(), richer.as_str()) {
                richer
            } else {
                t
            }
        },
        None => t,
    }
}


// ---------------------------------------------------------------------------
// Navigation documents.
// ---------------------------------------------------------------------------

/// An `<a …>…</a>` element: its attributes (group 1) and its content
/// (group 2).
pub open spec fn anchor_re() -> Seq<char> {
    "(?is)<a\\b([^>]*)>(.*?)</a>"@
}

/// `table of contents` with any white space, in any case.
pub open spec fn table_of_contents_re() -> Seq<char> {
    "(?is)table\\s+of\\s+contents"@
}

/// A link that stays inside the book: non-blank and not to the outside.
pub open spec fn is_internal_href(href: Seq<char>) -> bool {
    trim(href).len() > 0 && !is_external_href_spec(href)
}

/// The `href` of an anchor match (its attribute group read as empty when it
/// did not take part, which this pattern's group always does).
pub open spec fn anchor_href(cap: Seq<Option<Seq<char>>>) -> Option<Seq<char>> {
    parse_attrs_spec(
        match group(cap, 0) {
            Some(a) => a,
            None => Seq::empty(),
        },
        "href"@,
    )
}

/// The number of anchors with an internal `href`.
pub open spec fn internal_link_count(caps: Seq<Seq<Option<Seq<char>>>>) -> nat
    decreases caps.len(),
{
    if caps.len() == 0 {
        0
    } else {
        internal_link_count(caps.drop_last()) + match anchor_href(caps.last()) {
            Some(h) => if is_internal_href(h) {
                1nat
            } else {
                0
            },
            None => 0,
        }
    }
}

/// The groups of the anchor matches in an HTML text.
pub open spec fn anchor_groups(html: Seq<char>) -> Seq<Seq<Option<Seq<char>>>> {
    spec_captures(anchor_re(), html).map_values(|c: (int, int, Seq<Option<Seq<char>>>)| c.2)
}

pub(crate) fn group_or_empty(m: &CaptureMatch, k: usize) -> (r: Vec<char>)
    ensures
        r@ == match group(capture_view(*m).2, k as int) {
            Some(a) => a,
            None => Seq::empty(),
        },
{
    if k < m.groups.len() {
        match &m.groups[k] {
            Some(g) => chars_of(g.as_str()),
            None => Vec::new(),
        }
    } else {
        Vec::new()
    }
}

fn anchor_href_exec(m: &CaptureMatch) -> (r: Option<Vec<char>>)
    ensures
        opt_chars_view(r) == anchor_href(capture_view(*m).2),
{
    let attrs = group_or_empty(m, 0);
    let pairs = parse_attrs(&attrs);
    attr_get(&pairs, "href")
}

fn is_internal_href_exec(href: &Vec<char>) -> (r: bool)
    ensures
        r == is_internal_href(href@),
{
    trim_chars(href).len() > 0 && !is_external_href(href)
}

fn anchor_captures(html: &str) -> (r: Vec<CaptureMatch>)
    ensures
        caps_groups(r@) == anchor_groups(html@),
{
    let caps = captures("(?is)<a\\b([^>]*)>(.*?)</a>", html);
    proof {
        assert(caps_groups(caps@) =~= anchor_groups(html@));
    }
    caps
}

/// The number of links in an HTML text that stay inside the book.
pub fn epub_internal_link_count(html: &str) -> (r: usize)
    ensures
        r == internal_link_count(anchor_groups(html@)),
{
    let caps = anchor_captures(html);
    let mut n: usize = 0;
    let mut i: usize = 0;
    while i < caps.len()
        invariant
            i <= caps.len(),
            n <= i,
            n == internal_link_count(caps_groups(caps@).take(i as int)),
        decreases caps.len() - i,
    {
        proof {
            assert(caps_groups(caps@).take(i + 1).drop_last() =~= caps_groups(caps@).take(i as int));
        }
        match anchor_href_exec(&caps[i]) {
            Some(h) => {
                if is_internal_href_exec(&h) {
                    n += 1;
                }
            },
            None => {},
        }
        i += 1;
    }
    proof {
        assert(caps_groups(caps@).take(caps@.len() as int) =~= caps_groups(caps@));
    }
    n
}

/// The heading key of a block: cleaned, without leading `#`, trimmed,
/// lower-cased, hyphens read as spaces.
pub open spec fn block_heading_key(block: Seq<char>) -> Seq<char> {
    replace(spec_str_lowercase(trim(trim_start_set(clean_block_spec(block), seq!['#']))), "-"@, " "@)
}

fn block_heading_key_exec(block: &Vec<char>) -> (r: Vec<char>)
    ensures
        r@ == block_heading_key(block@),
{
    let hash = vec!['#'];
    proof {
        assert(hash@ =~= seq!['#']);
    }
    let c = clean_block_chars(block);
    let t = trim_chars(&trim_start_set_chars(&c, &hash));
    let lower = str_lowercase(string_of(&t).as_str());
    proof {
        reveal_strlit("-");
    }
    replace_str(&chars_of(lower.as_str()), "-", " ")
}

/// A block that names the table of contents.
pub open spec fn is_toc_marker_block(block: Seq<char>) -> bool {
    let key = block_heading_key(block);
    key == "contents"@ || key == "table of contents"@ || contains(key, "table of contents"@)
}

pub fn blocks_have_epub_toc_marker(blocks: &[String]) -> (r: bool)
    ensures
        r == exists|i: int| 0 <= i < blocks@.len() && is_toc_marker_block(#[trigger] blocks@[i]@),
{
    let mut i: usize = 0;
    while i < blocks.len()
        invariant
            i <= blocks.len(),
            forall|m: int| 0 <= m < i ==> !is_toc_marker_block(#[trigger] blocks@[m]@),
        decreases blocks.len() - i,
    {
        let key = block_heading_key_exec(&chars_of(blocks[i].as_str()));
        if eq_str(&key, "contents") || eq_str(&key, "table of contents") || contains_str(
            &key,
            "table of contents",
        ) {
            proof {
                assert(is_toc_marker_block(blocks@[i as int]@));
            }
            return true;
        }
        i += 1;
    }
    false
}

/// A block that reads as a numbered table-of-contents entry.
pub open spec fn is_toc_entry_block(block: Seq<char>) -> bool {
    spec_is_match(toc_entry_re(), clean_block_spec(block))
}

pub fn looks_like_epub_toc_entry_block(block: &str) -> (r: bool)
    ensures
        r == is_toc_entry_block(block@),
{
    let c = clean_block(block);
    is_match("(?i)^\\s*(?:chapter|chap\\.?|part|book)\\s+(?:\\d+|[ivxlcdm]+)\\b.{3,}", c.as_str())
}

/// The number of blocks that read as table-of-contents entries.
pub open spec fn toc_entry_block_count(blocks: Seq<Seq<char>>) -> nat
    decreases blocks.len(),
{
    if blocks.len() == 0 {
        0
    } else {
        toc_entry_block_count(blocks.drop_last()) + if is_toc_entry_block(blocks.last()) {
            1nat
        } else {
            0
        }
    }
}

/// Names a navigation file or item goes by.
pub open spec fn is_nav_name(s: Seq<char>) -> bool {
    ||| s == "toc"@
    ||| s == "nav"@
    ||| s == "navigation"@
    ||| s == "contents"@
    ||| s == "table-of-contents"@
}

/// `s` without repeated trailing copies of `p`.
pub open spec fn trim_end_str(s: Seq<char>, p: Seq<char>) -> Seq<char>
    decreases s.len(),
{
    if p.len() > 0 && ends_with(s, p) {
        trim_end_str(s.take(s.len() - p.len()), p)
    } else {
        s
    }
}

fn trim_end_str_exec(s: &Vec<char>, p: &str) -> (r: Vec<char>)
    ensures
        r@ == trim_end_str(s@, p@),
{
    let pc = chars_of(p);
    let mut cur = s.clone();
    proof {
        assert(cur@ == s@);
    }
    while pc.len() > 0 && crate::text::ends_with_exec(&cur, &pc)
        invariant
            pc@ == p@,
            trim_end_str(s@, p@) == trim_end_str(cur@, p@),
        decreases cur.len(),
    {
        let n = cur.len() - pc.len();
        cur = crate::text::slice(&cur, 0, n);
    }
    cur
}

/// The file name of a path inside the archive without its HTML extension,
/// lower-cased.
pub open spec fn href_leaf(href: Seq<char>) -> Seq<char> {
    let leaf = match rfind(href, "/"@) {
        Some(k) => href.subrange(k + 1, href.len() as int),
        None => href,
    };
    spec_str_lowercase(trim_end_str(trim_end_str(trim_end_str(leaf, ".xhtml"@), ".html"@), ".htm"@))
}

/// A manifest item of an EPUB package: its file, media type and
/// properties.
pub struct EpubManifestItem {
    pub href: String,
    pub media_type: String,
    pub properties: String,
}

/// Whether an EPUB file is a navigation document rather than text: marked
/// `nav`, tagged as a table of contents, or (with at least two internal
/// links) titled or named like one, or mostly numbered entries.
pub open spec fn is_navigation_spec(
    idref: Seq<char>,
    href: Seq<char>,
    properties: Seq<char>,
    html: Seq<char>,
    blocks: Seq<Seq<char>>,
) -> bool {
    let lower = spec_str_lowercase(html);
    let links = internal_link_count(anchor_groups(html));
    let entries = toc_entry_block_count(blocks);
    let first_key = replace(
        spec_str_lowercase(
            trim(
                trim_start_set(
                    if blocks.len() > 0 {
                        clean_block_spec(blocks[0])
                    } else {
                        Seq::empty()
                    },
                    seq!['#'],
                ),
            ),
        ),
        "-"@,
        " "@,
    );
    if exists|i: int| 0 <= i < words(properties).len() && eq_ignore_case(#[trigger] words(properties)[i], "nav"@) {
        true
    } else if contains(lower, "epub:type=\"toc\""@) || contains(lower, "epub:type='toc'"@)
        || contains(lower, "role=\"doc-toc\""@) || contains(lower, "role='doc-toc'"@) {
        true
    } else if links < 2 {
        false
    } else if exists|i: int| 0 <= i < blocks.len() && is_toc_marker_block(#[trigger] blocks[i]) {
        true
    } else if entries >= 5 && entries * 2 >= if blocks.len() > 1 { blocks.len() } else { 1 } {
        true
    } else if is_nav_name(href_leaf(href)) || is_nav_name(spec_str_lowercase(idref)) {
        true
    } else {
        first_key == "contents"@ || first_key == "table of contents"@ || first_key == "toc"@
            || first_key == "navigation"@
    }
}

fn is_nav_name_exec(s: &Vec<char>) -> (r: bool)
    ensures
        r == is_nav_name(s@),
{
    eq_str(s, "toc") || eq_str(s, "nav") || eq_str(s, "navigation") || eq_str(s, "contents")
        || eq_str(s, "table-of-contents")
}

pub fn is_epub_navigation_document(
    idref: &str,
    item: &EpubManifestItem,
    html: &str,
    blocks: &[String],
) -> (r: bool)
    ensures
        r == is_navigation_spec(
            idref@,
            item.href@,
            item.properties@,
            html@,
            blocks@.map_values(|b: String| b@),
        ),
{
    let ghost bs = blocks@.map_values(|b: String| b@);
    let props = crate::text::words_exec(&chars_of(item.properties.as_str()));
    let nav = chars_of("nav");
    let mut i: usize = 0;
    while i < props.len()
        invariant
            i <= props.len(),
            props.deep_view() == words(item.properties@),
            nav@ == "nav"@,
            forall|m: int| 0 <= m < i ==> !eq_ignore_case(#[trigger] props.deep_view()[m], "nav"@),
        decreases props.len() - i,
    {
        proof {
            crate::text::lemma_chars_deep(&props@[i as int]);
        }
        if crate::text::eq_ignore_ascii_case(&props[i], &nav) {
            proof {
                assert(eq_ignore_case(words(item.properties@)[i as int], "nav"@));
            }
            return true;
        }
        i += 1;
    }
    let lower = chars_of(str_lowercase(html).as_str());
    if contains_str(&lower, "epub:type=\"toc\"") || contains_str(&lower, "epub:type='toc'")
        || contains_str(&lower, "role=\"doc-toc\"") || contains_str(&lower, "role='doc-toc'") {
        return true;
    }
    let links = epub_internal_link_count(html);
    if links < 2 {
        return false;
    }
    if blocks_have_epub_toc_marker(blocks) {
        proof {
            let i = choose|i: int| 0 <= i < blocks@.len() && is_toc_marker_block(#[trigger] blocks@[i]@);
            assert(is_toc_marker_block(bs[i]));
        }
        return true;
    }
    proof {
        assert forall|i: int| 0 <= i < bs.len() implies !is_toc_marker_block(#[trigger] bs[i]) by {
            assert(bs[i] == blocks@[i]@);
        }
    }
    let mut entries: usize = 0;
    let mut k: usize = 0;
    while k < blocks.len()
        invariant
            k <= blocks.len(),
            entries <= k,
            bs == blocks@.map_values(|b: String| b@),
            entries == toc_entry_block_count(bs.take(k as int)),
        decreases blocks.len() - k,
    {
        proof {
            assert(bs.take(k + 1).drop_last() =~= bs.take(k as int));
            assert(bs.take(k + 1).last() == blocks@[k as int]@);
        }
        if looks_like_epub_toc_entry_block(blocks[k].as_str()) {
            entries += 1;
        }
        k += 1;
    }
    proof {
        assert(bs.take(blocks.len() as int) =~= bs);
    }
    let floor: usize = if blocks.len() > 1 { blocks.len() } else { 1 };
    if entries >= 5 && entries as u128 * 2 >= floor as u128 {
        return true;
    }
    let hc = chars_of(item.href.as_str());
    let slash = chars_of("/");
    let leaf = match rfind_exec(&hc, &slash) {
        Some(p) => {
            proof {
                reveal_strlit("/");
                lemma_rfind_to(hc@, slash@, hc@.len() - 1);
                assert(crate::text::matches_at(hc@, slash@, p as int));
                assert(p + 1 <= hc.len());
            }
            crate::text::slice(&hc, p + 1, hc.len())
        },
        None => hc.clone(),
    };
    let stripped = trim_end_str_exec(&trim_end_str_exec(&trim_end_str_exec(&leaf, ".xhtml"), ".html"), ".htm");
    let leaf_lower = chars_of(str_lowercase(string_of(&stripped).as_str()).as_str());
    let id_lower = chars_of(str_lowercase(idref).as_str());
    if is_nav_name_exec(&leaf_lower) || is_nav_name_exec(&id_lower) {
        return true;
    }
    let first: Vec<char> = if blocks.len() > 0 {
        clean_block_chars(&chars_of(blocks[0].as_str()))
    } else {
        Vec::new()
    };
    let hash = vec!['#'];
    proof {
        assert(hash@ =~= seq!['#']);
        reveal_strlit("-");
    }
    let t = trim_chars(&trim_start_set_chars(&first, &hash));
    let fk = replace_str(&chars_of(str_lowercase(string_of(&t).as_str()).as_str()), "-", " ");
    eq_str(&fk, "contents") || eq_str(&fk, "table of contents") || eq_str(&fk, "toc") || eq_str(
        &fk,
        "navigation",
    )
}

/// Whether the blocks of a file make a cover: an image or the word
/// `cover`.
pub open spec fn blocks_are_cover(blocks: Seq<Seq<char>>) -> bool {
    exists|i: int|
        0 <= i < blocks.len() && (starts_with(trim(#[trigger] blocks[i]), "!["@) || eq_ignore_case(
            trim(blocks[i]),
            "cover"@,
        ))
}

pub fn epub_blocks_are_cover(blocks: &[String]) -> (r: bool)
    ensures
        r == blocks_are_cover(blocks@.map_values(|b: String| b@)),
{
    let ghost bs = blocks@.map_values(|b: String| b@);
    let cover = chars_of("cover");
    let mut i: usize = 0;
    while i < blocks.len()
        invariant
            i <= blocks.len(),
            bs == blocks@.map_values(|b: String| b@),
            cover@ == "cover"@,
            forall|m: int|
                0 <= m < i ==> !(starts_with(trim(#[trigger] bs[m]), "!["@) || eq_ignore_case(
                    trim(bs[m]),
                    "cover"@,
                )),
        decreases blocks.len() - i,
    {
        let t = trim_chars(&chars_of(blocks[i].as_str()));
        proof {
            assert(bs[i as int] == blocks@[i as int]@);
        }
        if starts_with_str(&t, "![") || crate::text::eq_ignore_ascii_case(&t, &cover) {
            return true;
        }
        i += 1;
    }
    false
}

/// Media types read as HTML: XHTML, HTML, XML and any `+xml` type.
pub open spec fn is_html_media_spec(media_type: Seq<char>) -> bool {
    media_type == "application/xhtml+xml"@ || media_type == "text/html"@ || media_type
        == "application/xml"@ || ends_with(media_type, "+xml"@)
}

pub fn is_html_media(media_type: &str) -> (r: bool)
    ensures
        r == is_html_media_spec(media_type@),
{
    let m = chars_of(media_type);
    eq_str(&m, "application/xhtml+xml") || eq_str(&m, "text/html") || eq_str(&m, "application/xml")
        || ends_with_str(&m, "+xml")
}

/// An NCX table of contents: by its extension or its media type.
pub open spec fn is_ncx_media_spec(href: Seq<char>, media_type: Seq<char>) -> bool {
    ends_with(spec_str_lowercase(href), ".ncx"@) || contains(spec_str_lowercase(media_type), "dtbncx"@)
}

pub fn is_ncx_media(item: &EpubManifestItem) -> (r: bool)
    ensures
        r == is_ncx_media_spec(item.href@, item.media_type@),
{
    let h = chars_of(str_lowercase(item.href.as_str()).as_str());
    let m = chars_of(str_lowercase(item.media_type.as_str()).as_str());
    ends_with_str(&h, ".ncx") || contains_str(&m, "dtbncx")
}


// ---------------------------------------------------------------------------
// The package file: manifest and spine.
// ---------------------------------------------------------------------------

/// An `<item …>` tag of the manifest (attributes in group 1).
pub open spec fn item_re() -> Seq<char> {
    "(?is)<item\\b([^>]*)>"@
}

/// An `<itemref …>` tag of the spine (attributes in group 1).
pub open spec fn itemref_re() -> Seq<char> {
    "(?is)<itemref\\b([^>]*)>"@
}

/// The attribute text of a match (group 1, read as empty when it did not
/// take part, which these patterns' group always does).
pub open spec fn attrs_of(cap: Seq<Option<Seq<char>>>) -> Seq<char> {
    match group(cap, 0) {
        Some(a) => a,
        None => Seq::empty(),
    }
}

/// The `idref`s of the spine, in order.
pub open spec fn spine_ids(caps: Seq<Seq<Option<Seq<char>>>>) -> Seq<Seq<char>>
    decreases caps.len(),
{
    if caps.len() == 0 {
        seq![]
    } else {
        spine_ids(caps.drop_last()) + match parse_attrs_spec(attrs_of(caps.last()), "idref"@) {
            Some(id) => seq![id],
            None => seq![],
        }
    }
}

/// The reading order of an EPUB package: the `idref` of each `itemref`.
pub fn parse_epub_spine(opf: &str) -> (r: Vec<String>)
    ensures
        r@.map_values(|s: String| s@) == spine_ids(
            spec_captures(itemref_re(), opf@).map_values(|c: (int, int, Seq<Option<Seq<char>>>)| c.2),
        ),
{
    let caps = captures("(?is)<itemref\\b([^>]*)>", opf);
    let ghost cg = caps_groups(caps@);
    proof {
        assert(cg =~= spec_captures(itemref_re(), opf@).map_values(
            |c: (int, int, Seq<Option<Seq<char>>>)| c.2,
        ));
    }
    let mut out: Vec<String> = Vec::new();
    let mut i: usize = 0;
    while i < caps.len()
        invariant
            i <= caps.len(),
            cg == caps_groups(caps@),
            out@.map_values(|s: String| s@) == spine_ids(cg.take(i as int)),
        decreases caps.len() - i,
    {
        proof {
            assert(cg.take(i + 1).drop_last() =~= cg.take(i as int));
        }
        let attrs = group_or_empty(&caps[i], 0);
        let pairs = parse_attrs(&attrs);
        let ghost before = out@.map_values(|s: String| s@);
        match attr_get(&pairs, "idref") {
            Some(id) => {
                out.push(string_of(&id));
                proof {
                    assert(out@.map_values(|s: String| s@) =~= before + seq![id@]);
                }
            },
            None => {
                proof {
                    assert(before + Seq::<Seq<char>>::empty() =~= before);
                }
            },
        }
        i += 1;
    }
    proof {
        assert(cg.take(caps@.len() as int) =~= cg);
    }
    out
}

/// A manifest item: file, media type, properties.
pub type ManifestItemView = (Seq<char>, Seq<char>, Seq<char>);

pub open spec fn item_view(it: EpubManifestItem) -> ManifestItemView {
    (it.href@, it.media_type@, it.properties@)
}

/// An attribute's value, or the empty text.
pub open spec fn attr_or_empty(attrs: Seq<char>, key: Seq<char>) -> Seq<char> {
    match parse_attrs_spec(attrs, key) {
        Some(v) => v,
        None => Seq::empty(),
    }
}

/// The manifest entries of an `item` tag's attributes: an entry with an
/// `id` and an `href` whose decoded path resolves inside the archive.
/// `None` where decoding the `href` would cut an escape that does not fall
/// on character boundaries.
pub open spec fn manifest_entry(opf_dir: Seq<char>, attrs: Seq<char>) -> Option<Seq<(Seq<char>, ManifestItemView)>> {
    match parse_attrs_spec(attrs, "id"@) {
        None => Some(seq![]),
        Some(id) => match parse_attrs_spec(attrs, "href"@) {
            None => Some(seq![]),
            Some(href) => if !percent_ok(encode_utf8(href), 0) {
                None
            } else {
                match join_epub_path_spec(opf_dir, percent_decode_spec(href)) {
                    None => Some(seq![]),
                    Some(path) => Some(
                        seq![(id, (path, attr_or_empty(attrs, "media-type"@), attr_or_empty(attrs, "properties"@)))],
                    ),
                }
            },
        },
    }
}

/// The manifest entries in order (a later one with the same `id` wins).
pub open spec fn manifest_entries(opf_dir: Seq<char>, caps: Seq<Seq<Option<Seq<char>>>>) -> Option<Seq<(Seq<char>, ManifestItemView)>>
    decreases caps.len(),
{
    if caps.len() == 0 {
        Some(seq![])
    } else {
        match manifest_entries(opf_dir, caps.drop_last()) {
            None => None,
            Some(es) => match manifest_entry(opf_dir, attrs_of(caps.last())) {
                None => None,
                Some(e) => Some(es + e),
            },
        }
    }
}

pub open spec fn manifest_view(v: Seq<(String, EpubManifestItem)>) -> Seq<(Seq<char>, ManifestItemView)> {
    v.map_values(|p: (String, EpubManifestItem)| (p.0@, item_view(p.1)))
}

fn attr_or_empty_exec(pairs: &Vec<(Vec<char>, Vec<char>)>, key: &str) -> (r: String)
    ensures
        r@ == match attr_lookup(pairs_view(pairs@), key@) {
            Some(v) => v,
            None => Seq::empty(),
        },
{
    match attr_get(pairs, key) {
        Some(v) => string_of(&v),
        None => String::new(),
    }
}

/// The manifest of an EPUB package file whose directory is `opf_dir`: for
/// each `item`, its `id` with its resolved file, media type and
/// properties, in order (a later entry with the same `id` overrides an
/// earlier one). `None` where an `href` holds an escape that cannot be cut
/// out of its text.
pub fn parse_epub_manifest(opf: &str, opf_dir: &str) -> (r: Option<Vec<(String, EpubManifestItem)>>)
    ensures
        ({
            let want = manifest_entries(
                opf_dir@,
                spec_captures(item_re(), opf@).map_values(|c: (int, int, Seq<Option<Seq<char>>>)| c.2),
            );
            match r {
                Some(v) => want == Some(manifest_view(v@)),
                None => want is None,
            }
        }),
{
    let caps = captures("(?is)<item\\b([^>]*)>", opf);
    let ghost cg = caps_groups(caps@);
    proof {
        assert(cg =~= spec_captures(item_re(), opf@).map_values(
            |c: (int, int, Seq<Option<Seq<char>>>)| c.2,
        ));
    }
    let dir = chars_of(opf_dir);
    let mut out: Vec<(String, EpubManifestItem)> = Vec::new();
    let mut i: usize = 0;
    while i < caps.len()
        invariant
            i <= caps.len(),
            cg == caps_groups(caps@),
            cg == spec_captures(item_re(), opf@).map_values(|c: (int, int, Seq<Option<Seq<char>>>)| c.2),
            dir@ == opf_dir@,
            manifest_entries(opf_dir@, cg.take(i as int)) == Some(manifest_view(out@)),
        decreases caps.len() - i,
    {
        proof {
            assert(cg.take(i + 1).drop_last() =~= cg.take(i as int));
        }
        let attrs = group_or_empty(&caps[i], 0);
        let pairs = parse_attrs(&attrs);
        let ghost before = manifest_view(out@);
        let ghost a = attrs@;
        match attr_get(&pairs, "id") {
            None => {
                proof {
                    assert(before + Seq::<(Seq<char>, ManifestItemView)>::empty() =~= before);
                }
            },
            Some(id) => match attr_get(&pairs, "href") {
                None => {
                    proof {
                        assert(before + Seq::<(Seq<char>, ManifestItemView)>::empty() =~= before);
                    }
                },
                Some(href) => {
                    let hs = string_of(&href);
                    if !crate::books::epub::percent_ok_exec(hs.as_str().as_bytes()) {
                        proof {
                            assert(cg[i as int] == capture_view(caps@[i as int]).2);
                            assert(cg.take(i + 1).last() == cg[i as int]);
                            assert(attrs_of(cg.take(i + 1).last()) == a);
                            assert(!percent_ok(encode_utf8(href@), 0));
                            assert(manifest_entry(opf_dir@, a) is None);
                            assert(manifest_entries(opf_dir@, cg.take(i + 1)) is None);
                            lemma_manifest_none(opf_dir@, cg, i + 1);
                            assert(cg.take(caps@.len() as int) =~= cg);
                        }
                        return None;
                    }
                    let decoded = crate::books::epub::percent_decode_lossy(hs.as_str());
                    match crate::books::epub::join_epub_path(&dir, &chars_of(decoded.as_str())) {
                        None => {
                            proof {
                                assert(before + Seq::<(Seq<char>, ManifestItemView)>::empty() =~= before);
                            }
                        },
                        Some(path) => {
                            let media_type = attr_or_empty_exec(&pairs, "media-type");
                            let properties = attr_or_empty_exec(&pairs, "properties");
                            let item = EpubManifestItem { href: string_of(&path), media_type, properties };
                            out.push((string_of(&id), item));
                            proof {
                                assert(manifest_view(out@) =~= before + seq![
                                    (id@, (path@, attr_or_empty(a, "media-type"@), attr_or_empty(a, "properties"@))),
                                ]);
                            }
                        },
                    }
                },
            },
        }
        i += 1;
    }
    proof {
        assert(cg.take(caps@.len() as int) =~= cg);
    }
    Some(out)
}

proof fn lemma_manifest_none(opf_dir: Seq<char>, caps: Seq<Seq<Option<Seq<char>>>>, k: int)
    requires
        0 <= k <= caps.len(),
        manifest_entries(opf_dir, caps.take(k)) is None,
    ensures
        manifest_entries(opf_dir, caps) is None,
    decreases caps.len() - k,
{
    if k < caps.len() {
        assert(caps.take(k + 1).drop_last() =~= caps.take(k));
        lemma_manifest_none(opf_dir, caps, k + 1);
    } else {
        assert(caps.take(k) =~= caps);
    }
}

/// The manifest item with identifier `id`: the last entry with it.
pub open spec fn manifest_lookup(es: Seq<(Seq<char>, ManifestItemView)>, id: Seq<char>) -> Option<ManifestItemView>
    decreases es.len(),
{
    if es.len() == 0 {
        None
    } else if es.last().0 == id {
        Some(es.last().1)
    } else {
        manifest_lookup(es.drop_last(), id)
    }
}

/// A copy of a manifest item.
pub fn copy_manifest_item(it: &EpubManifestItem) -> (r: EpubManifestItem)
    ensures
        item_view(r) == item_view(*it),
{
    EpubManifestItem {
        href: crate::text::owned(it.href.as_str()),
        media_type: crate::text::owned(it.media_type.as_str()),
        properties: crate::text::owned(it.properties.as_str()),
    }
}

/// The manifest item with identifier `id` (the last entry with it).
pub fn manifest_get(items: &Vec<(String, EpubManifestItem)>, id: &str) -> (r: Option<EpubManifestItem>)
    ensures
        match r {
            Some(it) => manifest_lookup(manifest_view(items@), id@) == Some(item_view(it)),
            None => manifest_lookup(manifest_view(items@), id@) is None,
        },
{
    let idc = chars_of(id);
    let mut i = items.len();
    proof {
        assert(manifest_view(items@).take(i as int) =~= manifest_view(items@));
    }
    while i > 0
        invariant
            i <= items.len(),
            idc@ == id@,
            manifest_lookup(manifest_view(items@), id@) == manifest_lookup(manifest_view(items@).take(i as int), id@),
        decreases i,
    {
        let ghost pre = manifest_view(items@).take(i as int);
        proof {
            assert(pre.drop_last() =~= manifest_view(items@).take(i - 1));
        }
        if crate::text::seq_eq(&chars_of(items[i - 1].0.as_str()), &idc) {
            return Some(copy_manifest_item(&items[i - 1].1));
        }
        i -= 1;
    }
    proof {
        assert(manifest_view(items@).take(0) =~= Seq::<(Seq<char>, ManifestItemView)>::empty());
    }
    None
}


// ---------------------------------------------------------------------------
// Merging and indexing table-of-contents entries.
// ---------------------------------------------------------------------------

/// The key of an entry.
pub open spec fn entry_key(e: TocEntryView) -> Seq<char> {
    target_key_spec(e.0, e.1)
}

/// `e` appended unless an entry with its key is listed already.
pub open spec fn add_unseen(out: Seq<TocEntryView>, e: TocEntryView) -> Seq<TocEntryView> {
    if entry_keys(out).contains(entry_key(e)) {
        out
    } else {
        out.push(e)
    }
}

/// The entries of `es` appended in order, each unless its key is listed.
pub open spec fn add_all_unseen(out: Seq<TocEntryView>, es: Seq<TocEntryView>) -> Seq<TocEntryView>
    decreases es.len(),
{
    if es.len() == 0 {
        out
    } else {
        add_unseen(add_all_unseen(out, es.drop_last()), es.last())
    }
}

/// The title the HTML table gives a key: that of its last entry with it.
pub open spec fn html_title_for(html: Seq<TocEntryView>, key: Seq<char>) -> Option<Seq<char>>
    decreases html.len(),
{
    if html.len() == 0 {
        None
    } else if entry_key(html.last()) == key {
        Some(html.last().2)
    } else {
        html_title_for(html.drop_last(), key)
    }
}

/// An NCX entry with its title replaced by the HTML table's when that is
/// preferable.
pub open spec fn retitled(html: Seq<TocEntryView>, e: TocEntryView) -> TocEntryView {
    match html_title_for(html, entry_key(e)) {
        Some(t) => if prefer_html_title_spec(e.2, t) {
            (e.0, e.1, t)
        } else {
            e
        },
        None => e,
    }
}

/// The NCX entries, retitled, each unless its key is listed.
pub open spec fn merge_ncx(html: Seq<TocEntryView>, ncx: Seq<TocEntryView>) -> Seq<TocEntryView>
    decreases ncx.len(),
{
    if ncx.len() == 0 {
        seq![]
    } else {
        add_unseen(merge_ncx(html, ncx.drop_last()), retitled(html, ncx.last()))
    }
}

/// The merged table of contents: the NCX entries (with better HTML titles)
/// first, then the HTML entries not listed yet; no key twice.
pub open spec fn merge_toc_spec(html: Seq<TocEntryView>, ncx: Seq<TocEntryView>) -> Seq<TocEntryView> {
    add_all_unseen(merge_ncx(html, ncx), html)
}

/// A copy of an entry.
pub fn copy_toc_entry(e: &EpubTocEntry) -> (r: EpubTocEntry)
    ensures
        entry_view(r) == entry_view(*e),
{
    EpubTocEntry {
        href: crate::text::owned(e.href.as_str()),
        fragment: match &e.fragment {
            Some(f) => Some(crate::text::owned(f.as_str())),
            None => None,
        },
        title: crate::text::owned(e.title.as_str()),
    }
}

fn entry_key_exec(e: &EpubTocEntry) -> (r: Vec<char>)
    ensures
        r@ == entry_key(entry_view(*e)),
{
    let frag: Option<&str> = match &e.fragment {
        Some(f) => Some(f.as_str()),
        None => None,
    };
    chars_of(epub_target_key(e.href.as_str(), frag).as_str())
}

/// Append `e` to `out` unless its key is in `seen` (the keys of `out`).
fn push_unseen(out: &mut Vec<EpubTocEntry>, seen: &mut Vec<Vec<char>>, e: EpubTocEntry)
    requires
        old(seen).deep_view() == entry_keys(entries_view(old(out)@)),
    ensures
        entries_view(final(out)@) == add_unseen(entries_view(old(out)@), entry_view(e)),
        final(seen).deep_view() == entry_keys(entries_view(final(out)@)),
{
    let k = entry_key_exec(&e);
    if crate::books::chapters::holds_key(seen, &k) {
        return;
    }
    let ghost seen_before = seen.deep_view();
    let ghost kv = k@;
    let ghost ev = entry_view(e);
    let ghost before = entries_view(out@);
    seen.push(k);
    proof {
        assert forall|i: int| 0 <= i < seen_before.len() implies #[trigger] seen@[i].deep_view() == seen_before[i] by {
            assert(seen@[i] == old(seen)@[i]);
        }
        crate::text::lemma_push_deep(seen_before, seen, kv);
    }
    out.push(e);
    proof {
        assert(entries_view(out@) =~= before.push(ev));
        assert(entry_keys(entries_view(out@)) =~= entry_keys(before).push(entry_key(ev)));
    }
}

/// Append the entries of `es` to `out`, each unless its key is listed.
pub fn push_unseen_toc_entries(out: &mut Vec<EpubTocEntry>, seen: &mut Vec<Vec<char>>, es: &Vec<EpubTocEntry>)
    requires
        old(seen).deep_view() == entry_keys(entries_view(old(out)@)),
    ensures
        entries_view(final(out)@) == add_all_unseen(entries_view(old(out)@), entries_view(es@)),
        final(seen).deep_view() == entry_keys(entries_view(final(out)@)),
{
    let ghost start = entries_view(out@);
    let mut i: usize = 0;
    proof {
        assert(entries_view(es@).take(0) =~= Seq::<TocEntryView>::empty());
    }
    while i < es.len()
        invariant
            i <= es.len(),
            entries_view(out@) == add_all_unseen(start, entries_view(es@).take(i as int)),
            seen.deep_view() == entry_keys(entries_view(out@)),
        decreases es.len() - i,
    {
        proof {
            assert(entries_view(es@).take(i + 1).drop_last() =~= entries_view(es@).take(i as int));
        }
        let e = copy_toc_entry(&es[i]);
        push_unseen(out, seen, e);
        i += 1;
    }
    proof {
        assert(entries_view(es@).take(es.len() as int) =~= entries_view(es@));
    }
}

fn html_title_for_exec(html: &Vec<EpubTocEntry>, key: &Vec<char>) -> (r: Option<String>)
    ensures
        opt_view(r) == html_title_for(entries_view(html@), key@),
{
    let mut i = html.len();
    proof {
        assert(entries_view(html@).take(i as int) =~= entries_view(html@));
    }
    while i > 0
        invariant
            i <= html.len(),
            html_title_for(entries_view(html@), key@) == html_title_for(entries_view(html@).take(i as int), key@),
        decreases i,
    {
        proof {
            assert(entries_view(html@).take(i as int).drop_last() =~= entries_view(html@).take(i - 1));
        }
        let k = entry_key_exec(&html[i - 1]);
        if crate::text::seq_eq(&k, key) {
            return Some(crate::text::owned(html[i - 1].title.as_str()));
        }
        i -= 1;
    }
    proof {
        assert(entries_view(html@).take(0) =~= Seq::<TocEntryView>::empty());
    }
    None
}

/// The table of contents of a book from its HTML and NCX tables: the NCX
/// entries first, each retitled with the HTML table's title for its target
/// when that is preferable, then the HTML entries not listed yet; no
/// target twice.
pub fn merge_epub_toc_entries(html_entries: &Vec<EpubTocEntry>, ncx_entries: &Vec<EpubTocEntry>) -> (r: Vec<EpubTocEntry>)
    ensures
        entries_view(r@) == merge_toc_spec(entries_view(html_entries@), entries_view(ncx_entries@)),
{
    let ghost hv = entries_view(html_entries@);
    let mut out: Vec<EpubTocEntry> = Vec::new();
    let mut seen: Vec<Vec<char>> = Vec::new();
    let mut i: usize = 0;
    proof {
        assert(entries_view(ncx_entries@).take(0) =~= Seq::<TocEntryView>::empty());
        assert(entries_view(out@) =~= Seq::<TocEntryView>::empty());
        assert(seen.deep_view() =~= Seq::<Seq<char>>::empty());
        assert(entry_keys(entries_view(out@)) =~= Seq::<Seq<char>>::empty());
    }
    while i < ncx_entries.len()
        invariant
            i <= ncx_entries.len(),
            hv == entries_view(html_entries@),
            entries_view(out@) == merge_ncx(hv, entries_view(ncx_entries@).take(i as int)),
            seen.deep_view() == entry_keys(entries_view(out@)),
        decreases ncx_entries.len() - i,
    {
        proof {
            assert(entries_view(ncx_entries@).take(i + 1).drop_last() =~= entries_view(ncx_entries@).take(i as int));
        }
        let mut e = copy_toc_entry(&ncx_entries[i]);
        let k = entry_key_exec(&e);
        match html_title_for_exec(html_entries, &k) {
            Some(t) => {
                if prefer_html_toc_title(e.title.as_str(), t.as_str()) {
                    e.title = t;
                }
            },
            None => {},
        }
        proof {
            assert(entry_view(e) == retitled(hv, entry_view(ncx_entries@[i as int])));
        }
        push_unseen(&mut out, &mut seen, e);
        i += 1;
    }
    proof {
        assert(entries_view(ncx_entries@).take(ncx_entries.len() as int) =~= entries_view(ncx_entries@));
    }
    push_unseen_toc_entries(&mut out, &mut seen, html_entries);
    out
}

/// The first title listed for each file, in order of first appearance.
pub open spec fn titles_by_href(es: Seq<TocEntryView>) -> Seq<(Seq<char>, Seq<char>)>
    decreases es.len(),
{
    if es.len() == 0 {
        seq![]
    } else {
        let t = titles_by_href(es.drop_last());
        if exists|i: int| 0 <= i < t.len() && (#[trigger] t[i]).0 == es.last().0 {
            t
        } else {
            t.push((es.last().0, es.last().2))
        }
    }
}

/// For each file, the title of its first entry.
pub fn epub_toc_titles_by_href(entries: &[EpubTocEntry]) -> (r: Vec<(String, String)>)
    ensures
        r@.map_values(|p: (String, String)| (p.0@, p.1@)) == titles_by_href(entries_view(entries@)),
{
    let mut out: Vec<(String, String)> = Vec::new();
    let mut i: usize = 0;
    proof {
        assert(entries_view(entries@).take(0) =~= Seq::<TocEntryView>::empty());
        assert(out@.map_values(|p: (String, String)| (p.0@, p.1@)) =~= Seq::<(Seq<char>, Seq<char>)>::empty());
    }
    while i < entries.len()
        invariant
            i <= entries.len(),
            out@.map_values(|p: (String, String)| (p.0@, p.1@)) == titles_by_href(entries_view(entries@).take(i as int)),
        decreases entries.len() - i,
    {
        let ghost tv = out@.map_values(|p: (String, String)| (p.0@, p.1@));
        proof {
            assert(entries_view(entries@).take(i + 1).drop_last() =~= entries_view(entries@).take(i as int));
        }
        let h = chars_of(entries[i].href.as_str());
        let mut found = false;
        let mut j: usize = 0;
        while j < out.len()
            invariant
                j <= out.len(),
                h@ == entries@[i as int].href@,
                tv == out@.map_values(|p: (String, String)| (p.0@, p.1@)),
                found ==> exists|m: int| 0 <= m < tv.len() && (#[trigger] tv[m]).0 == h@,
                !found ==> forall|m: int| 0 <= m < j ==> (#[trigger] tv[m]).0 != h@,
            decreases out.len() - j,
        {
            if crate::text::seq_eq(&chars_of(out[j].0.as_str()), &h) {
                found = true;
                proof {
                    assert(tv[j as int].0 == h@);
                }
            }
            j += 1;
        }
        if !found {
            out.push((crate::text::owned(entries[i].href.as_str()), crate::text::owned(entries[i].title.as_str())));
            proof {
                assert(out@.map_values(|p: (String, String)| (p.0@, p.1@)) =~= tv.push(
                    (entries@[i as int].href@, entries@[i as int].title@),
                ));
            }
        }
        i += 1;
    }
    proof {
        assert(entries_view(entries@).take(entries.len() as int) =~= entries_view(entries@));
    }
    out
}

/// The entries that point into the file `href` at a fragment.
pub open spec fn entries_for_item(es: Seq<TocEntryView>, href: Seq<char>) -> Seq<TocEntryView>
    decreases es.len(),
{
    if es.len() == 0 {
        seq![]
    } else if es.last().0 == href && es.last().1 is Some {
        entries_for_item(es.drop_last(), href).push(es.last())
    } else {
        entries_for_item(es.drop_last(), href)
    }
}

pub fn epub_toc_entries_for_item(entries: &[EpubTocEntry], href: &str) -> (r: Vec<EpubTocEntry>)
    ensures
        entries_view(r@) == entries_for_item(entries_view(entries@), href@),
{
    let hc = chars_of(href);
    let mut out: Vec<EpubTocEntry> = Vec::new();
    let mut i: usize = 0;
    proof {
        assert(entries_view(entries@).take(0) =~= Seq::<TocEntryView>::empty());
        assert(entries_view(out@) =~= Seq::<TocEntryView>::empty());
    }
    while i < entries.len()
        invariant
            i <= entries.len(),
            hc@ == href@,
            entries_view(out@) == entries_for_item(entries_view(entries@).take(i as int), href@),
        decreases entries.len() - i,
    {
        proof {
            assert(entries_view(entries@).take(i + 1).drop_last() =~= entries_view(entries@).take(i as int));
        }
        if crate::text::seq_eq(&chars_of(entries[i].href.as_str()), &hc) && entries[i].fragment.is_some() {
            let ghost before = entries_view(out@);
            out.push(copy_toc_entry(&entries[i]));
            proof {
                assert(entries_view(out@) =~= before.push(entry_view(entries@[i as int])));
            }
        }
        i += 1;
    }
    proof {
        assert(entries_view(entries@).take(entries.len() as int) =~= entries_view(entries@));
    }
    out
}

/// The title of a chapter read from a whole file: its first heading, else
/// the table of contents' title when plausible, else `Chapter n` (then
/// flagged as generated).
pub open spec fn chapter_title_spec(blocks: Seq<Seq<char>>, toc_title: Option<Seq<char>>, n: nat) -> (Seq<char>, bool) {
    match first_heading(blocks) {
        Some(t) => (t, false),
        None => match toc_title {
            Some(t) => if plausible_toc_title(t) {
                (t, false)
            } else {
                ("Chapter "@ + decimal(n), true)
            },
            None => ("Chapter "@ + decimal(n), true),
        },
    }
}

pub fn epub_chapter_title(blocks: &[String], toc_title: Option<&String>, fallback_index: usize) -> (r: (String, bool))
    ensures
        (r.0@, r.1) == chapter_title_spec(
            blocks@.map_values(|b: String| b@),
            match toc_title {
                Some(t) => Some(t@),
                None => None,
            },
            fallback_index as nat,
        ),
{
    match first_heading_block(blocks) {
        Some(t) => {
            return (t, false);
        },
        None => {},
    }
    match toc_title {
        Some(t) => {
            if plausible_epub_toc_title(t.as_str()) {
                return (crate::text::owned(t.as_str()), false);
            }
        },
        None => {},
    }
    let mut out = chars_of("Chapter ");
    let d = decimal_exec(fallback_index as u64);
    push_all(&mut out, &d);
    (string_of(&out), true)
}


// ---------------------------------------------------------------------------
// The table of contents of an HTML file.
// ---------------------------------------------------------------------------

/// The text of `html` from byte offset `start` on (empty where `start` is
/// not a character boundary inside it).
pub open spec fn anchor_rest(html: Seq<char>, start: int) -> Seq<char> {
    match char_index_of_byte(html, start) {
        Some(k) => html.skip(k),
        None => Seq::empty(),
    }
}

/// `end` lowered to the byte offset of `m` in `lower`, if it occurs.
pub open spec fn marker_end(lower: Seq<char>, m: Seq<char>, end: int) -> int {
    match find(lower, m) {
        Some(ci) => if (utf8_len(lower.take(ci)) as int) < end {
            utf8_len(lower.take(ci)) as int
        } else {
            end
        },
        None => end,
    }
}

/// Where the text after an anchor ends: the first of `<a`, `</li`, `</p`,
/// `</div`, `</td`, `</th`, `</tr`, `<br` in its lower-cased form (a byte
/// offset of that form), or its end.
pub open spec fn after_anchor_end(rest: Seq<char>) -> int {
    let lower = spec_str_lowercase(rest);
    let e0 = utf8_len(rest) as int;
    let e1 = marker_end(lower, "<a"@, e0);
    let e2 = marker_end(lower, "</li"@, e1);
    let e3 = marker_end(lower, "</p"@, e2);
    let e4 = marker_end(lower, "</div"@, e3);
    let e5 = marker_end(lower, "</td"@, e4);
    let e6 = marker_end(lower, "</th"@, e5);
    let e7 = marker_end(lower, "</tr"@, e6);
    marker_end(lower, "<br"@, e7)
}

/// The text that follows an anchor up to the next element boundary;
/// `None` where that offset, taken from the lower-cased text, does not
/// fall on a character boundary of the text itself.
pub open spec fn text_after_anchor_spec(html: Seq<char>, start: int) -> Option<Seq<char>> {
    let rest = anchor_rest(html, start);
    match char_index_of_byte(rest, after_anchor_end(rest)) {
        Some(j) => Some(html_inline_text_spec(rest.take(j))),
        None => None,
    }
}

/// The text that follows an anchor ending at byte `start` of `html`, up to
/// the next element boundary (`text_after_anchor_spec`).
pub fn html_text_after_anchor(html: &str, start: usize) -> (r: Option<String>)
    ensures
        match r {
            Some(t) => text_after_anchor_spec(html@, start as int) == Some(t@),
            None => text_after_anchor_spec(html@, start as int) is None,
        },
{
    let hc = chars_of(html);
    let rest: Vec<char> = match crate::text::char_index_of_byte_exec(&hc, start) {
        Some(k) => {
            proof {
                crate::text::lemma_char_index_of_byte(hc@, start as int);
                assert(hc@.subrange(k as int, hc@.len() as int) =~= hc@.skip(k as int));
            }
            crate::text::slice(&hc, k, hc.len())
        },
        None => Vec::new(),
    };
    proof {
        assert(rest@ =~= anchor_rest(html@, start as int));
    }
    let lower = chars_of(str_lowercase(string_of(&rest).as_str()).as_str());
    let e0 = crate::text::utf8_len_wide(&rest);
    let e1 = marker_end_wide(&lower, "<a", e0);
    let e2 = marker_end_wide(&lower, "</li", e1);
    let e3 = marker_end_wide(&lower, "</p", e2);
    let e4 = marker_end_wide(&lower, "</div", e3);
    let e5 = marker_end_wide(&lower, "</td", e4);
    let e6 = marker_end_wide(&lower, "</th", e5);
    let e7 = marker_end_wide(&lower, "</tr", e6);
    let e = marker_end_wide(&lower, "<br", e7);
    match crate::text::char_index_of_byte_wide(&rest, e) {
        Some(j) => {
            proof {
                crate::text::lemma_char_index_of_byte(rest@, e as int);
            }
            let piece = crate::text::slice(&rest, 0, j);
            proof {
                assert(piece@ =~= rest@.take(j as int));
            }
            Some(html_inline_text(string_of(&piece).as_str()))
        },
        None => None,
    }
}

fn marker_end_wide(lower: &Vec<char>, m: &str, end: u128) -> (r: u128)
    ensures
        r == marker_end(lower@, m@, end as int),
        r <= end,
{
    let mc = chars_of(m);
    match crate::text::find_exec(lower, &mc) {
        Some(ci) => {
            proof {
                crate::text::lemma_find_from(lower@, mc@, 0);
            }
            let pre = crate::text::slice(lower, 0, ci);
            let b = crate::text::utf8_len_wide(&pre);
            if b < end {
                b
            } else {
                end
            }
        },
        None => end,
    }
}


/// One anchor of an HTML table of contents: a link that stays inside the
/// book and resolves, with a plausible title from its label or the text
/// after it, adds an entry unless its target is listed. `None` where
/// resolving the link or cutting the text after it would fail.
#[verifier::opaque]
pub open spec fn html_toc_step(
    current: Seq<char>,
    html: Seq<char>,
    out: Option<Seq<TocEntryView>>,
    cap: (int, int, Seq<Option<Seq<char>>>),
) -> Option<Seq<TocEntryView>> {
    match out {
        None => None,
        Some(es) => match anchor_href(cap.2) {
            None => out,
            Some(h) => if !is_internal_href(h) {
                out
            } else if !href_decodable(current, h) {
                None
            } else {
                match href_target_spec(current, h) {
                    None => out,
                    Some(t) => {
                        let label = html_inline_text_spec(
                            match group(cap.2, 1) {
                                Some(g) => g,
                                None => Seq::empty(),
                            },
                        );
                        match text_after_anchor_spec(html, cap.1) {
                            None => None,
                            Some(trailing) => match toc_link_title_spec(label, trailing) {
                                None => out,
                                Some(title) => Some(add_unseen(es, (t.0, t.1, title))),
                            },
                        }
                    },
                }
            },
        },
    }
}

pub open spec fn html_toc_fold(current: Seq<char>, html: Seq<char>, caps: Seq<(int, int, Seq<Option<Seq<char>>>)>) -> Option<Seq<TocEntryView>>
    decreases caps.len(),
{
    if caps.len() == 0 {
        Some(seq![])
    } else {
        html_toc_step(current, html, html_toc_fold(current, html, caps.drop_last()), caps.last())
    }
}

/// Whether an HTML text announces a table of contents.
pub open spec fn has_toc_marker(html: Seq<char>) -> bool {
    let lower = spec_str_lowercase(html);
    spec_is_match(table_of_contents_re(), lower) || contains(lower, "epub:type=\"toc\""@) || contains(
        lower,
        "epub:type='toc'"@,
    ) || contains(lower, "role=\"doc-toc\""@) || contains(lower, "role='doc-toc'"@) || contains(
        lower,
        "<nav"@,
    )
}

/// The table of contents an HTML file of the book holds: none unless it
/// has at least two internal links and either announces a table of
/// contents or has at least five; otherwise one entry per titled anchor.
pub open spec fn html_toc_spec(current: Seq<char>, html: Seq<char>) -> Option<Seq<TocEntryView>> {
    let links = internal_link_count(anchor_groups(html));
    if links < 2 {
        Some(seq![])
    } else if !has_toc_marker(html) && links < 5 {
        Some(seq![])
    } else {
        html_toc_fold(current, html, spec_captures(anchor_re(), html))
    }
}

proof fn lemma_html_toc_none(current: Seq<char>, html: Seq<char>, caps: Seq<(int, int, Seq<Option<Seq<char>>>)>, k: int)
    requires
        0 <= k <= caps.len(),
        html_toc_fold(current, html, caps.take(k)) is None,
    ensures
        html_toc_fold(current, html, caps) is None,
    decreases caps.len() - k,
{
    reveal(html_toc_step);
    if k < caps.len() {
        assert(caps.take(k + 1).drop_last() =~= caps.take(k));
        lemma_html_toc_none(current, html, caps, k + 1);
    } else {
        assert(caps.take(k) =~= caps);
    }
}

/// Apply one anchor to the entries (`html_toc_step`); `false` where it
/// fails.
fn html_toc_event(
    current_href: &str,
    html: &str,
    m: &CaptureMatch,
    out: &mut Vec<EpubTocEntry>,
    seen: &mut Vec<Vec<char>>,
) -> (ok: bool)
    requires
        old(seen).deep_view() == entry_keys(entries_view(old(out)@)),
    ensures
        ({
            let next = html_toc_step(current_href@, html@, Some(entries_view(old(out)@)), capture_view(*m));
            &&& ok == next is Some
            &&& ok ==> next == Some(entries_view(final(out)@))
        }),
        final(seen).deep_view() == entry_keys(entries_view(final(out)@)),
{
    proof {
        reveal(html_toc_step);
    }
    let href = match anchor_href_exec(m) {
        Some(h) => h,
        None => {
            return true;
        },
    };
    if !is_internal_href_exec(&href) {
        return true;
    }
    let hs = string_of(&href);
    if !crate::books::epub::href_decodable_exec(current_href, hs.as_str()) {
        return false;
    }
    let target = match crate::books::epub::epub_href_target(current_href, hs.as_str()) {
        Some(t) => t,
        None => {
            return true;
        },
    };
    let label_src = group_or_empty(m, 1);
    let label = html_inline_text(string_of(&label_src).as_str());
    let trailing = match html_text_after_anchor(html, m.end) {
        Some(t) => t,
        None => {
            return false;
        },
    };
    let title = match epub_toc_link_title(label.as_str(), trailing.as_str()) {
        Some(t) => t,
        None => {
            return true;
        },
    };
    let e = EpubTocEntry { href: target.href, fragment: target.fragment, title };
    push_unseen(out, seen, e);
    true
}

/// The table of contents of the HTML file `current_href` of a book
/// (`html_toc_spec`); `None` where a link or the text after it cannot be
/// cut on character boundaries.
pub fn epub_toc_entries_from_html(current_href: &str, html: &str) -> (r: Option<Vec<EpubTocEntry>>)
    ensures
        match r {
            Some(v) => html_toc_spec(current_href@, html@) == Some(entries_view(v@)),
            None => html_toc_spec(current_href@, html@) is None,
        },
{
    let links = epub_internal_link_count(html);
    if links < 2 {
        proof {
            assert(entries_view(Seq::<EpubTocEntry>::empty()) =~= Seq::<TocEntryView>::empty());
        }
        return Some(Vec::new());
    }
    let lower = str_lowercase(html);
    let lc = chars_of(lower.as_str());
    let marker = is_match("(?is)table\\s+of\\s+contents", lower.as_str()) || contains_str(
        &lc,
        "epub:type=\"toc\"",
    ) || contains_str(&lc, "epub:type='toc'") || contains_str(&lc, "role=\"doc-toc\"")
        || contains_str(&lc, "role='doc-toc'") || contains_str(&lc, "<nav");
    if !marker && links < 5 {
        proof {
            assert(entries_view(Seq::<EpubTocEntry>::empty()) =~= Seq::<TocEntryView>::empty());
        }
        return Some(Vec::new());
    }
    let caps = captures("(?is)<a\\b([^>]*)>(.*?)</a>", html);
    let ghost cv = caps@.map_values(|m: CaptureMatch| capture_view(m));
    let mut out: Vec<EpubTocEntry> = Vec::new();
    let mut seen: Vec<Vec<char>> = Vec::new();
    let mut i: usize = 0;
    proof {
        assert(cv.take(0) =~= Seq::<(int, int, Seq<Option<Seq<char>>>)>::empty());
        assert(entries_view(out@) =~= Seq::<TocEntryView>::empty());
        assert(seen.deep_view() =~= Seq::<Seq<char>>::empty());
        assert(entry_keys(entries_view(out@)) =~= Seq::<Seq<char>>::empty());
        assert(has_toc_marker(html@) == marker);
        assert(html_toc_spec(current_href@, html@) == html_toc_fold(current_href@, html@, cv));
    }
    while i < caps.len()
        invariant
            i <= caps.len(),
            cv == caps@.map_values(|m: CaptureMatch| capture_view(m)),
            cv == spec_captures(anchor_re(), html@),
            html_toc_spec(current_href@, html@) == html_toc_fold(current_href@, html@, cv),
            html_toc_fold(current_href@, html@, cv.take(i as int)) == Some(entries_view(out@)),
            seen.deep_view() == entry_keys(entries_view(out@)),
        decreases caps.len() - i,
    {
        proof {
            assert(cv.take(i + 1).drop_last() =~= cv.take(i as int));
            assert(cv.take(i + 1).last() == capture_view(caps@[i as int]));
        }
        let ok = html_toc_event(current_href, html, &caps[i], &mut out, &mut seen);
        i += 1;
        if !ok {
            proof {
                lemma_html_toc_none(current_href@, html@, cv, i as int);
                assert(cv.take(cv.len() as int) =~= cv);
            }
            return None;
        }
    }
    proof {
        assert(cv.take(caps.len() as int) =~= cv);
    }
    Some(out)
}


// ---------------------------------------------------------------------------
// Links inside a book.
// ---------------------------------------------------------------------------

/// A link label that can name a heading: at least three letters, at most
/// 100 characters.
pub open spec fn likely_heading_label_spec(label: Seq<char>) -> bool {
    let c = clean_block_spec(label);
    count_alpha(c) >= 3 && c.len() <= 100
}

pub fn likely_heading_link_label(label: &str) -> (r: bool)
    ensures
        r == likely_heading_label_spec(label@),
{
    let c = chars_of(clean_block(label).as_str());
    let (letters, _) = count_alpha_upper(&c);
    letters >= 3 && c.len() <= 100
}

/// A link met in the file `current` of a book, rewritten for the book's
/// single page: outside links stay links; a link to a chapter (by target,
/// else by file) becomes a link to its heading anchor; a bare fragment
/// with a heading-like label links to the label's own anchor; anything
/// else is dropped (`None`). `anchors` maps keys to anchors, the first pair
/// with a key counting.
pub open spec fn rewrite_epub_link_spec(
    current: Seq<char>,
    href: Seq<char>,
    anchors: Seq<(Seq<char>, Seq<char>)>,
    label: Seq<char>,
) -> Option<Seq<char>> {
    let h = trim(href);
    let by_target = match href_target_spec(current, h) {
        Some(t) => match lookup_anchor(anchors, target_key_spec(t.0, t.1)) {
            Some(a) => Some(fragment_link_spec(label, a)),
            None => match lookup_anchor(anchors, t.0) {
                Some(a) => Some(fragment_link_spec(label, a)),
                None => None,
            },
        },
        None => None,
    };
    if h.len() == 0 {
        None
    } else if is_external_href_spec(h) {
        Some(markdown_link_spec(label, h))
    } else if by_target is Some {
        by_target
    } else if starts_with(h, "#"@) && likely_heading_label_spec(label) {
        Some(fragment_link_spec(label, heading_slug_spec(label)))
    } else {
        None
    }
}

pub fn rewrite_epub_link(current_href: &str, href: &str, chapter_anchors: &Anchors, label: &str) -> (r: Option<String>)
    requires
        href_decodable(current_href@, trim(href@)),
    ensures
        match r {
            Some(v) => rewrite_epub_link_spec(current_href@, href@, anchors_view(*chapter_anchors), label@) == Some(v@),
            None => rewrite_epub_link_spec(current_href@, href@, anchors_view(*chapter_anchors), label@) is None,
        },
{
    let h = trim_chars(&chars_of(href));
    let lc = chars_of(label);
    if h.len() == 0 {
        return None;
    }
    if is_external_href(&h) {
        return Some(string_of(&crate::books::clean::markdown_link(&lc, &h)));
    }
    let hs = string_of(&h);
    match crate::books::epub::epub_href_target(current_href, hs.as_str()) {
        Some(t) => {
            let frag: Option<&str> = match &t.fragment {
                Some(f) => Some(f.as_str()),
                None => None,
            };
            let key = chars_of(epub_target_key(t.href.as_str(), frag).as_str());
            match crate::books::outline::lookup_anchor_exec(chapter_anchors, &key) {
                Some(a) => {
                    return Some(crate::books::clean::markdown_fragment_link(label, string_of(&a).as_str()));
                },
                None => {},
            }
            let th = chars_of(t.href.as_str());
            match crate::books::outline::lookup_anchor_exec(chapter_anchors, &th) {
                Some(a) => {
                    return Some(crate::books::clean::markdown_fragment_link(label, string_of(&a).as_str()));
                },
                None => {},
            }
        },
        None => {},
    }
    if starts_with_str(&h, "#") && likely_heading_link_label(label) {
        let slug = crate::books::outline::book_heading_slug(&lc);
        return Some(crate::books::clean::markdown_fragment_link(label, string_of(&slug).as_str()));
    }
    None
}

} // verus!
