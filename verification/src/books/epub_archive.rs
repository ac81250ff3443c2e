//! Reading an EPUB archive: its package file, manifest, reading order and
//! table of contents, then its content files as chapters.

use vstd::prelude::*;
use crate::archive::{spec_zip_entry, spec_zip_names, spec_zip_open_error, zip_entry, zip_names, zip_open_error, EntryFailure};
use crate::books::epub::{entries_view, opt_view, spec_utf8_lossy, utf8_lossy, ncx_event_re, ncx_entries_spec, epub_toc_entries_from_ncx, EpubTocEntry, TocEntryView};
use crate::books::epub_book::{container_rootfile, epub_reading_order, epub_title, epub_title_spec, first_opf, first_opf_name, reading_order_spec, rootfile_from_container, rootfile_re};
use crate::books::epub_toc::{
    add_all_unseen, entry_key, html_toc_spec, is_html_media, is_html_media_spec, is_ncx_media, is_ncx_media_spec, item_re,
    manifest_entries, manifest_view, merge_epub_toc_entries, merge_toc_spec, parse_epub_manifest, parse_epub_spine,
    push_unseen_toc_entries, spine_ids, epub_toc_entries_from_html, itemref_re, EpubManifestItem, ManifestItemView,
};
use crate::books::documents::opt_str_view;
use crate::patterns::spec_captures;
use crate::text::{chars_of, push_str, starts_with, starts_with_str, string_of, trim, trim_chars};
use crate::books::assets::{after_last, after_last_exec, asset_path, numbered_name, sanitize_asset_name_spec, AssetCollector};
use crate::books::clean::{strip_href_suffix, strip_href_suffix_spec, tag_re};
use crate::books::epub::{entry_view, href_decodable, href_decodable_exec, join_epub_path, join_epub_path_spec, percent_decode_lossy, percent_decode_spec, percent_ok, percent_ok_exec};
use crate::books::epub_book::{blocks_view, append_epub_prelude_blocks, epub_item_has_content, item_chapter_spec, item_has_content_spec, prelude_spec, push_epub_item_chapter, push_epub_segment_chapter, segment_chapter_spec, ChapterView};
use crate::books::epub_toc::{item_view, entries_for_item, epub_toc_entries_for_item, epub_toc_titles_by_href, manifest_get, manifest_lookup, rewrite_epub_link, rewrite_epub_link_spec, titles_by_href};
use crate::books::epub_split::{segments_view, split_at_tags_spec, split_epub_html_by_toc_entries, EpubHtmlChapterSegment, EpubHtmlSegments};
use crate::books::epub_anchors::{chapter_anchors_spec, precompute_epub_chapter_anchors, texts_view};
use crate::books::html::{ansv, html_events_spec, html_to_blocks_answered, render_spec, req_view, reqv, RenderMode};
use crate::books::markdown::markdown_to_blocks_spec;
use crate::books::outline::{anchors_view, Anchors};
use crate::books::chapters::chapters_view;
use crate::books::documents::{document_view, DocumentView};
use crate::books::{BookAsset, BookChapter, BookDocument};
use crate::patterns::spec_find_iter;
use vstd::utf8::encode_utf8;

verus! {

/// The capture groups of `pattern` in `text`.
pub open spec fn groups_of(pattern: Seq<char>, text: Seq<char>) -> Seq<Seq<Option<Seq<char>>>> {
    spec_captures(pattern, text).map_values(|c: (int, int, Seq<Option<Seq<char>>>)| c.2)
}

/// The text of an archive entry, bytes read as UTF-8 with invalid sequences
/// replaced (a directory reads as no bytes); an error naming the entry when
/// it cannot be looked up, or the read error.
pub open spec fn entry_text_spec(archive: Seq<u8>, name: Seq<char>) -> Result<Seq<char>, Seq<char>> {
    match spec_zip_entry(archive, name) {
        Ok(b) => Ok(spec_utf8_lossy(b)),
        Err((EntryFailure::Directory, _)) => Ok(spec_utf8_lossy(seq![])),
        Err((EntryFailure::Lookup, e)) => Err("Could not read EPUB entry '"@ + name + "': "@ + e),
        Err((EntryFailure::Unreadable, e)) => Err(e),
    }
}

pub open spec fn text_result(r: Result<String, String>) -> Result<Seq<char>, Seq<char>> {
    match r {
        Ok(s) => Ok(s@),
        Err(e) => Err(e@),
    }
}

fn entry_text(archive: &[u8], name: &str) -> (r: Result<String, String>)
    ensures
        text_result(r) == entry_text_spec(archive@, name@),
{
    match zip_entry(archive, name) {
        Ok(b) => Ok(utf8_lossy(b.as_slice())),
        Err((EntryFailure::Directory, _)) => {
            let v: Vec<u8> = Vec::new();
            proof {
                assert(v@ =~= Seq::<u8>::empty());
            }
            Ok(utf8_lossy(v.as_slice()))
        },
        Err((EntryFailure::Lookup, e)) => {
            let mut m = chars_of("Could not read EPUB entry '");
            push_str(&mut m, name);
            push_str(&mut m, "': ");
            push_str(&mut m, e.as_str());
            Err(string_of(&m))
        },
        Err((EntryFailure::Unreadable, e)) => Err(e),
    }
}

/// The package file found by the archive's names: the first ending in
/// `.opf`.
pub open spec fn opf_by_name_spec(archive: Seq<u8>) -> Result<Seq<char>, Seq<char>> {
    match spec_zip_names(archive) {
        Err(e) => Err(e),
        Ok(ns) => match first_opf(ns) {
            Some(n) => Ok(n),
            None => Err("EPUB container did not include an OPF package file"@),
        },
    }
}

/// The package file of an EPUB: the one `META-INF/container.xml` names,
/// else the first entry ending in `.opf`.
pub open spec fn rootfile_spec(archive: Seq<u8>) -> Result<Seq<char>, Seq<char>> {
    match entry_text_spec(archive, "META-INF/container.xml"@) {
        Ok(c) => match container_rootfile(groups_of(rootfile_re(), c)) {
            Some(p) => Ok(p),
            None => opf_by_name_spec(archive),
        },
        Err(_) => opf_by_name_spec(archive),
    }
}

fn opf_by_name(archive: &[u8]) -> (r: Result<String, String>)
    ensures
        text_result(r) == opf_by_name_spec(archive@),
{
    match zip_names(archive) {
        Err(e) => Err(e),
        Ok(ns) => match first_opf_name(&ns) {
            Some(n) => Ok(n),
            None => Err(crate::text::owned("EPUB container did not include an OPF package file")),
        },
    }
}

fn epub_rootfile(archive: &[u8]) -> (r: Result<String, String>)
    ensures
        text_result(r) == rootfile_spec(archive@),
{
    match entry_text(archive, "META-INF/container.xml") {
        Ok(c) => match rootfile_from_container(c.as_str()) {
            Some(p) => Ok(p),
            None => opf_by_name(archive),
        },
        Err(_) => opf_by_name(archive),
    }
}

/// The directory of a path inside the archive: what precedes its last `/`,
/// or nothing.
pub open spec fn dir_of(p: Seq<char>) -> Seq<char>
    decreases p.len(),
{
    if p.len() == 0 {
        seq![]
    } else if p.last() == '/' {
        p.drop_last()
    } else {
        dir_of(p.drop_last())
    }
}

pub fn archive_dir_of(p: &str) -> (r: String)
    ensures
        r@ == dir_of(p@),
{
    let cs = chars_of(p);
    let mut i = cs.len();
    proof {
        assert(cs@.take(i as int) =~= cs@);
    }
    while i > 0
        invariant
            i <= cs@.len(),
            cs@ == p@,
            dir_of(p@) == dir_of(cs@.take(i as int)),
        decreases i,
    {
        proof {
            assert(cs@.take(i as int).drop_last() =~= cs@.take(i - 1));
            assert(cs@.take(i as int).last() == cs@[i - 1]);
        }
        if cs[i - 1] == '/' {
            return string_of(&crate::text::slice(&cs, 0, i - 1));
        }
        i -= 1;
    }
    proof {
        assert(cs@.take(0) =~= Seq::<char>::empty());
    }
    String::new()
}

/// The table of contents of one file: from its NCX events, or its HTML
/// links.
pub open spec fn item_toc_spec(href: Seq<char>, text: Seq<char>, ncx: bool) -> Option<Seq<TocEntryView>> {
    if ncx {
        ncx_entries_spec(href, groups_of(ncx_event_re(), text))
    } else {
        html_toc_spec(href, text)
    }
}

/// Whether a manifest item is a table-of-contents file of the kind asked.
pub open spec fn toc_kind(item: ManifestItemView, ncx: bool) -> bool {
    if ncx {
        is_ncx_media_spec(item.0, item.1)
    } else {
        is_html_media_spec(item.1)
    }
}

/// The table of contents of one kind read from the manifest's files, in
/// manifest order, no target twice; a file that cannot be read adds
/// nothing; `None` where a file's table cannot be cut on character
/// boundaries.
pub open spec fn toc_fold(archive: Seq<u8>, m: Seq<(Seq<char>, ManifestItemView)>, ncx: bool) -> Option<Seq<TocEntryView>>
    decreases m.len(),
{
    if m.len() == 0 {
        Some(seq![])
    } else {
        match toc_fold(archive, m.drop_last(), ncx) {
            None => None,
            Some(acc) => if !toc_kind(m.last().1, ncx) {
                Some(acc)
            } else {
                match entry_text_spec(archive, m.last().1.0) {
                    Err(_) => Some(acc),
                    Ok(t) => match item_toc_spec(m.last().1.0, t, ncx) {
                        None => None,
                        Some(es) => Some(add_all_unseen(acc, es)),
                    },
                }
            },
        }
    }
}

proof fn lemma_toc_fold_none(archive: Seq<u8>, m: Seq<(Seq<char>, ManifestItemView)>, k: int, ncx: bool)
    requires
        0 <= k <= m.len(),
        toc_fold(archive, m.take(k), ncx) is None,
    ensures
        toc_fold(archive, m, ncx) is None,
    decreases m.len() - k,
{
    if k < m.len() {
        assert(m.take(k + 1).drop_last() =~= m.take(k));
        lemma_toc_fold_none(archive, m, k + 1, ncx);
    } else {
        assert(m.take(k) =~= m);
    }
}

fn item_toc(href: &str, text: &str, ncx: bool) -> (r: Option<Vec<EpubTocEntry>>)
    ensures
        match r {
            Some(v) => item_toc_spec(href@, text@, ncx) == Some(entries_view(v@)),
            None => item_toc_spec(href@, text@, ncx) is None,
        },
{
    if ncx {
        epub_toc_entries_from_ncx(href, text)
    } else {
        epub_toc_entries_from_html(href, text)
    }
}

fn collect_toc(archive: &[u8], manifest: &Vec<(String, EpubManifestItem)>, ncx: bool) -> (r: Option<Vec<EpubTocEntry>>)
    ensures
        match r {
            Some(v) => toc_fold(archive@, manifest_view(manifest@), ncx) == Some(entries_view(v@)),
            None => toc_fold(archive@, manifest_view(manifest@), ncx) is None,
        },
{
    let ghost mv = manifest_view(manifest@);
    let mut out: Vec<EpubTocEntry> = Vec::new();
    let mut seen: Vec<Vec<char>> = Vec::new();
    let mut i: usize = 0;
    proof {
        assert(entries_view(out@) =~= Seq::<TocEntryView>::empty());
        assert(seen.deep_view() =~= Seq::<Seq<char>>::empty());
        assert(crate::books::epub::entry_keys(entries_view(out@)) =~= Seq::<Seq<char>>::empty());
    }
    while i < manifest.len()
        invariant
            i <= manifest@.len(),
            mv == manifest_view(manifest@),
            toc_fold(archive@, mv.take(i as int), ncx) == Some(entries_view(out@)),
            seen.deep_view() == crate::books::epub::entry_keys(entries_view(out@)),
        decreases manifest@.len() - i,
    {
        proof {
            assert(mv.take(i + 1).drop_last() =~= mv.take(i as int));
            assert(mv.take(i + 1).last() == mv[i as int]);
        }
        let item = &manifest[i].1;
        let kind = if ncx {
            is_ncx_media(item)
        } else {
            is_html_media(item.media_type.as_str())
        };
        if kind {
            match entry_text(archive, item.href.as_str()) {
                Err(_) => {},
                Ok(t) => match item_toc(item.href.as_str(), t.as_str(), ncx) {
                    None => {
                        proof {
                            lemma_toc_fold_none(archive@, mv, i + 1, ncx);
                        }
                        return None;
                    },
                    Some(es) => {
                        push_unseen_toc_entries(&mut out, &mut seen, &es);
                    },
                },
            }
        }
        i += 1;
    }
    proof {
        assert(mv.take(i as int) =~= mv);
    }
    Some(out)
}

/// The table of contents of a book: its HTML and NCX tables merged
/// (`merge_toc_spec`); `None` where one cannot be cut on character
/// boundaries.
pub open spec fn book_toc_spec(archive: Seq<u8>, m: Seq<(Seq<char>, ManifestItemView)>) -> Option<Seq<TocEntryView>> {
    match (toc_fold(archive, m, false), toc_fold(archive, m, true)) {
        (Some(h), Some(n)) => Some(merge_toc_spec(h, n)),
        _ => None,
    }
}

/// What an EPUB's package file gives: the title, the package's directory,
/// the manifest, the reading order and the table of contents.
pub struct EpubPackage {
    pub title: String,
    pub opf_dir: String,
    pub manifest: Vec<(String, EpubManifestItem)>,
    pub spine: Vec<String>,
    pub toc_entries: Vec<EpubTocEntry>,
}

pub open spec fn package_view(p: EpubPackage) -> (
    Seq<char>,
    Seq<char>,
    Seq<(Seq<char>, ManifestItemView)>,
    Seq<Seq<char>>,
    Seq<TocEntryView>,
) {
    (p.title@, p.opf_dir@, manifest_view(p.manifest@), p.spine.deep_view(), entries_view(p.toc_entries@))
}

/// Refusal of a book whose text cannot be cut on character boundaries.
pub open spec fn uncuttable_epub() -> Seq<char> {
    "The EPUB holds text that cannot be cut on character boundaries."@
}

/// The package of an EPUB archive: refused when it is not a zip archive,
/// when no package file is named or found, when that file cannot be read,
/// and where its text cannot be cut on character boundaries.
pub open spec fn epub_package_spec(archive: Seq<u8>, title_override: Option<Seq<char>>, file_stem: Option<Seq<char>>) -> Result<
    (Seq<char>, Seq<char>, Seq<(Seq<char>, ManifestItemView)>, Seq<Seq<char>>, Seq<TocEntryView>),
    Seq<char>,
> {
    match spec_zip_open_error(archive) {
        Some(e) => Err("Not a valid EPUB zip: "@ + e),
        None => match rootfile_spec(archive) {
            Err(e) => Err(e),
            Ok(root) => match entry_text_spec(archive, root) {
                Err(e) => Err(e),
                Ok(opf) => match manifest_entries(dir_of(root), groups_of(item_re(), opf)) {
                    None => Err(uncuttable_epub()),
                    Some(m) => match book_toc_spec(archive, m) {
                        None => Err(uncuttable_epub()),
                        Some(toc) => Ok(
                            (
                                epub_title_spec(title_override, opf, file_stem),
                                dir_of(root),
                                m,
                                reading_order_spec(spine_ids(groups_of(itemref_re(), opf)), m),
                                toc,
                            ),
                        ),
                    },
                },
            },
        },
    }
}

/// Read an EPUB archive's package: see `epub_package_spec`.
pub fn epub_package(archive: &[u8], title_override: Option<&str>, file_stem: Option<&str>) -> (r: Result<EpubPackage, String>)
    ensures
        match r {
            Ok(p) => epub_package_spec(archive@, opt_str_view(title_override), opt_str_view(file_stem)) == Ok::<_, Seq<char>>(package_view(p)),
            Err(e) => epub_package_spec(archive@, opt_str_view(title_override), opt_str_view(file_stem)) == Err::<(Seq<char>, Seq<char>, Seq<(Seq<char>, ManifestItemView)>, Seq<Seq<char>>, Seq<TocEntryView>), Seq<char>>(e@),
        },
{
    if let Some(e) = zip_open_error(archive) {
        let mut m = chars_of("Not a valid EPUB zip: ");
        push_str(&mut m, e.as_str());
        return Err(string_of(&m));
    }
    let root = match epub_rootfile(archive) {
        Ok(r) => r,
        Err(e) => return Err(e),
    };
    let opf = match entry_text(archive, root.as_str()) {
        Ok(t) => t,
        Err(e) => return Err(e),
    };
    let opf_dir = archive_dir_of(root.as_str());
    let manifest = match parse_epub_manifest(opf.as_str(), opf_dir.as_str()) {
        Some(m) => m,
        None => return Err(crate::text::owned("The EPUB holds text that cannot be cut on character boundaries.")),
    };
    let html = collect_toc(archive, &manifest, false);
    let ncx = collect_toc(archive, &manifest, true);
    let toc_entries = match (html, ncx) {
        (Some(h), Some(n)) => merge_epub_toc_entries(&h, &n),
        _ => return Err(crate::text::owned("The EPUB holds text that cannot be cut on character boundaries.")),
    };
    let title = epub_title(title_override, opf.as_str(), file_stem);
    let ids = parse_epub_spine(opf.as_str());
    proof {
        assert(groups_of(item_re(), opf@) =~= spec_captures(item_re(), opf@).map_values(
            |c: (int, int, Seq<Option<Seq<char>>>)| c.2,
        ));
        assert(groups_of(itemref_re(), opf@) =~= spec_captures(itemref_re(), opf@).map_values(
            |c: (int, int, Seq<Option<Seq<char>>>)| c.2,
        ));
        assert(ids.deep_view() =~= ids@.map_values(|s: String| s@));
    }
    let spine = epub_reading_order(ids, &manifest);
    Ok(EpubPackage { title, opf_dir, manifest, spine, toc_entries })
}


// ---------------------------------------------------------------------------
// Media and links met while a content file is rendered.
// ---------------------------------------------------------------------------

/// The names, paths and contents of the media collected so far.
pub type AssetsView = (Seq<Seq<char>>, Seq<Seq<char>>, Seq<Seq<u8>>);

pub open spec fn collector_view(c: AssetCollector) -> AssetsView {
    (c.names(), c.paths(), c.contents())
}

/// The first number from 2 whose `stem-n.ext` is free, all smaller ones
/// being taken.
pub open spec fn free_number(names: Seq<Seq<char>>, base: Seq<char>) -> nat {
    choose|n: nat|
        2 <= n && !names.contains(numbered_name(base, n)) && forall|k: nat|
            2 <= k < n ==> names.contains(#[trigger] numbered_name(base, k))
}

/// The name media gets: its base name where free, else the first free
/// numbered one.
pub open spec fn free_name(names: Seq<Seq<char>>, base: Seq<char>) -> Seq<char> {
    if !names.contains(base) {
        base
    } else {
        numbered_name(base, free_number(names, base))
    }
}

/// Adding media named after `source_name`: its path, and the collection
/// after.
pub open spec fn add_asset_spec(st: AssetsView, source_name: Seq<char>, bytes: Seq<u8>) -> (Seq<char>, AssetsView) {
    let name = free_name(st.0, sanitize_asset_name_spec(source_name, bytes));
    (asset_path(name), (st.0.push(name), st.1.push(asset_path(name)), st.2.push(bytes)))
}

fn add_asset(assets: &mut AssetCollector, source_name: &str, bytes: Vec<u8>) -> (r: String)
    requires
        old(assets).wf(),
        old(assets).names().len() + 3 <= usize::MAX,
    ensures
        final(assets).wf(),
        (r@, collector_view(*final(assets))) == add_asset_spec(collector_view(*old(assets)), source_name@, bytes@),
{
    let ghost bv = bytes@;
    let r = assets.add_bytes(source_name, bytes);
    proof {
        let names = old(assets).names();
        let base = sanitize_asset_name_spec(source_name@, bv);
        let name = assets.names().last();
        if names.contains(base) {
            let n0 = choose|n: nat|
                2 <= n && name == numbered_name(base, n) && forall|k: nat|
                    2 <= k < n ==> names.contains(#[trigger] numbered_name(base, k));
            assert(2 <= n0 && !names.contains(numbered_name(base, n0)) && forall|k: nat|
                2 <= k < n0 ==> names.contains(#[trigger] numbered_name(base, k)));
            let n1 = free_number(names, base);
            if n1 < n0 {
                assert(names.contains(numbered_name(base, n1)));
            } else if n0 < n1 {
                assert(names.contains(numbered_name(base, n0)));
            }
            assert(n1 == n0);
        }
        assert(name == free_name(names, base));
    }
    r
}

/// The answer for an image met in the file whose directory is `dir`: none
/// for inline data, web addresses and an empty path; otherwise the archive
/// file it names, collected as media (its path is the answer), or none when
/// there is no such file, it is a directory or it cannot be read, or when
/// the collection is full. `None` when an escape in the path cannot be cut
/// out of its text.
#[verifier::opaque]
pub open spec fn asset_answer_spec(archive: Seq<u8>, dir: Seq<char>, href: Seq<char>, st: AssetsView) -> Option<(Option<Seq<char>>, AssetsView)> {
    if starts_with(href, "data:"@) || starts_with(href, "http://"@) || starts_with(href, "https://"@) {
        Some((None, st))
    } else {
        let stripped = strip_href_suffix_spec(href);
        if stripped.len() == 0 {
            Some((None, st))
        } else if !percent_ok(encode_utf8(stripped), 0) {
            None
        } else {
            match join_epub_path_spec(dir, percent_decode_spec(stripped)) {
                None => Some((None, st)),
                Some(zp) => match spec_zip_entry(archive, zp) {
                    Ok(b) => if st.0.len() + 3 > usize::MAX {
                        Some((None, st))
                    } else {
                        let (path, st2) = add_asset_spec(st, after_last(zp, '/'), b);
                        Some((Some(path), st2))
                    },
                    Err(_) => Some((None, st)),
                },
            }
        }
    }
}

fn asset_answer(archive: &[u8], dir: &str, href: &str, assets: &mut AssetCollector) -> (r: Option<Option<String>>)
    requires
        old(assets).wf(),
    ensures
        final(assets).wf(),
        match r {
            Some(a) => asset_answer_spec(archive@, dir@, href@, collector_view(*old(assets)))
                == Some((opt_view(a), collector_view(*final(assets)))),
            None => asset_answer_spec(archive@, dir@, href@, collector_view(*old(assets))) is None,
        },
{
    proof {
        reveal(asset_answer_spec);
    }
    let hc = chars_of(href);
    if starts_with_str(&hc, "data:") || starts_with_str(&hc, "http://") || starts_with_str(&hc, "https://") {
        return Some(None);
    }
    let stripped = strip_href_suffix(&hc);
    if stripped.len() == 0 {
        return Some(None);
    }
    let ss = string_of(&stripped);
    if !percent_ok_exec(ss.as_str().as_bytes()) {
        return None;
    }
    let decoded = percent_decode_lossy(ss.as_str());
    let dc = chars_of(dir);
    let deco = chars_of(decoded.as_str());
    let zp = match join_epub_path(&dc, &deco) {
        Some(p) => p,
        None => return Some(None),
    };
    let zps = string_of(&zp);
    match zip_entry(archive, zps.as_str()) {
        Ok(b) => {
            if assets.len() > usize::MAX - 3 {
                return Some(None);
            }
            let leaf = after_last_exec(&zp, '/');
            let path = add_asset(assets, string_of(&leaf).as_str(), b);
            Some(Some(path))
        },
        Err(_) => Some(None),
    }
}

/// The answer for a link met in the file `item_href`: its rewritten form
/// (`rewrite_epub_link_spec`); `None` when an escape in it cannot be cut out
/// of its text.
pub open spec fn link_answer_spec(item_href: Seq<char>, href: Seq<char>, label: Seq<char>, anchors: Seq<(Seq<char>, Seq<char>)>) -> Option<Option<Seq<char>>> {
    if href_decodable(item_href, trim(href)) {
        Some(rewrite_epub_link_spec(item_href, href, anchors, label))
    } else {
        None
    }
}

/// Rendering with images collected and links rewritten.
pub open spec fn links_mode() -> RenderMode {
    RenderMode { ask_assets: true, ask_links: true }
}

/// Rendering a content file: render with the answers so far; while a
/// request is unanswered (and `fuel` lasts), answer the first and render
/// again; then the blocks and the media collected. `None` when an answer
/// cannot be made (see the answer specs).
#[verifier::opaque]
pub open spec fn render_loop_spec(
    archive: Seq<u8>,
    html: Seq<char>,
    item_href: Seq<char>,
    anchors: Seq<(Seq<char>, Seq<char>)>,
    ans: Seq<Option<Seq<char>>>,
    st: AssetsView,
    fuel: nat,
) -> Option<(Seq<Seq<char>>, AssetsView)>
    decreases fuel,
{
    let r = render_spec(html_events_spec(html), links_mode(), ans);
    if fuel > 0 && ans.len() < r.1.len() {
        let q = r.1[ans.len() as int];
        if q.0 {
            match link_answer_spec(item_href, q.1, q.2, anchors) {
                None => None,
                Some(a) => render_loop_spec(archive, html, item_href, anchors, ans.push(a), st, (fuel - 1) as nat),
            }
        } else {
            match asset_answer_spec(archive, dir_of(item_href), q.1, st) {
                None => None,
                Some((a, st2)) => render_loop_spec(archive, html, item_href, anchors, ans.push(a), st2, (fuel - 1) as nat),
            }
        }
    } else {
        Some((markdown_to_blocks_spec(r.0), st))
    }
}

/// A file's blocks as rendered with its media and links (starting with no
/// answers, as many rounds as the file has characters).
pub open spec fn render_item_spec(
    archive: Seq<u8>,
    html: Seq<char>,
    item_href: Seq<char>,
    anchors: Seq<(Seq<char>, Seq<char>)>,
    st: AssetsView,
) -> Option<(Seq<Seq<char>>, AssetsView)> {
    render_loop_spec(archive, html, item_href, anchors, seq![], st, html.len())
}

#[verifier::rlimit(50)]
fn render_item(archive: &[u8], html: &str, item_href: &str, anchors: &Anchors, assets: &mut AssetCollector) -> (r: Option<Vec<String>>)
    requires
        old(assets).wf(),
    ensures
        final(assets).wf(),
        match r {
            Some(b) => render_item_spec(archive@, html@, item_href@, anchors_view(*anchors), collector_view(*old(assets)))
                == Some((b.deep_view(), collector_view(*final(assets)))),
            None => render_item_spec(archive@, html@, item_href@, anchors_view(*anchors), collector_view(*old(assets))) is None,
        },
{
    proof {
        reveal(render_loop_spec);
    }
    let hc = chars_of(html);
    let mut fuel: usize = hc.len();
    let mut answers: Vec<Option<String>> = Vec::new();
    let dir = archive_dir_of(item_href);
    let md = RenderMode { ask_assets: true, ask_links: true };
    let ghost av = anchors_view(*anchors);
    let ghost start = collector_view(*assets);
    proof {
        assert(ansv(answers@) =~= Seq::<Option<Seq<char>>>::empty());
    }
    loop
        invariant
            assets.wf(),
            md == links_mode(),
            dir@ == dir_of(item_href@),
            av == anchors_view(*anchors),
            start == collector_view(*old(assets)),
            render_item_spec(archive@, html@, item_href@, av, start) == render_loop_spec(
                archive@, html@, item_href@, av, ansv(answers@), collector_view(*assets), fuel as nat),
        decreases fuel,
    {
        proof {
            reveal(render_loop_spec);
        }
        let (blocks, reqs) = html_to_blocks_answered(html, md, &answers);
        proof {
            assert(reqv(reqs@).len() == reqs@.len());
        }
        if fuel > 0 && answers.len() < reqs.len() {
            let k = answers.len();
            let ghost qv = reqv(reqs@)[k as int];
            proof {
                assert(qv == req_view(reqs@[k as int]));
            }
            let ghost before = ansv(answers@);
            let a: Option<String>;
            if reqs[k].link {
                let hq = chars_of(reqs[k].href.as_str());
                let ht = string_of(&trim_chars(&hq));
                if !href_decodable_exec(item_href, ht.as_str()) {
                    proof {
                        assert(render_spec(html_events_spec(html@), links_mode(), ansv(answers@)).1 == reqv(reqs@));
                        assert(ansv(answers@).len() == answers@.len());
                        assert(qv.0 && qv.1 == reqs@[k as int].href@);
                        assert(link_answer_spec(item_href@, qv.1, qv.2, av) is None);
                    }
                    return None;
                }
                a = rewrite_epub_link(item_href, reqs[k].href.as_str(), anchors, reqs[k].label.as_str());
            } else {
                match asset_answer(archive, dir.as_str(), reqs[k].href.as_str(), assets) {
                    None => return None,
                    Some(x) => {
                        a = x;
                    },
                }
            }
            let ghost aview = opt_view(a);
            answers.push(a);
            proof {
                assert(ansv(answers@) =~= before.push(aview));
            }
            fuel -= 1;
        } else {
            proof {
                let r = render_spec(html_events_spec(html@), links_mode(), ansv(answers@));
                assert(r.1 == reqv(reqs@));
                assert(ansv(answers@).len() == answers@.len());
                assert(!(fuel > 0 && ansv(answers@).len() < r.1.len()));
                assert(blocks.deep_view() == markdown_to_blocks_spec(r.0));
            }
            return Some(blocks);
        }
    }
}

// ---------------------------------------------------------------------------
// Chapters from the reading order.
// ---------------------------------------------------------------------------

/// The chapters, anchors and media so far.
pub type StepState = (Seq<ChapterView>, Seq<(Seq<char>, Seq<char>)>, AssetsView);

/// The chapters of a file's table-of-contents parts, in order.
pub open spec fn segments_fold(archive: Seq<u8>, item_href: Seq<char>, segs: Seq<(TocEntryView, Seq<char>)>, st: StepState) -> Option<StepState>
    decreases segs.len(),
{
    if segs.len() == 0 {
        Some(st)
    } else {
        match segments_fold(archive, item_href, segs.drop_last(), st) {
            None => None,
            Some(s1) => match render_item_spec(archive, segs.last().1, item_href, s1.1, s1.2) {
                None => None,
                Some((blocks, a2)) => Some(
                    (
                        match segment_chapter_spec(segs.last().0.2, segs.last().1, blocks) {
                            Some(c) => s1.0.push(c),
                            None => s1.0,
                        },
                        s1.1,
                        a2,
                    ),
                ),
            },
        }
    }
}

/// A file cut into table-of-contents parts: the text before the first part
/// joins the previous chapter (when it has content), then each part makes
/// its chapter.
#[verifier::opaque]
pub open spec fn segmented_spec(
    archive: Seq<u8>,
    st: StepState,
    idref: Seq<char>,
    item: ManifestItemView,
    sv: (Seq<char>, Seq<(TocEntryView, Seq<char>)>),
) -> Option<StepState> {
    let pre = if item_has_content_spec(idref, item, sv.0) {
        match render_item_spec(archive, sv.0, item.0, st.1, st.2) {
            None => None,
            Some((b, a2)) => Some((prelude_spec(st.0, b), st.1, a2)),
        }
    } else {
        Some(st)
    };
    match pre {
        None => None,
        Some(s1) => segments_fold(archive, item.0, sv.1, s1),
    }
}

/// A whole file placed as a chapter (`item_chapter_spec`) when it has
/// content; a book already holding the most chapters a `usize` counts takes
/// no more.
#[verifier::opaque]
pub open spec fn whole_spec(
    archive: Seq<u8>,
    has_toc: bool,
    toc_titles: Seq<(Seq<char>, Seq<char>)>,
    st: StepState,
    idref: Seq<char>,
    item: ManifestItemView,
    html: Seq<char>,
) -> Option<StepState> {
    if !item_has_content_spec(idref, item, html) {
        Some(st)
    } else {
        match render_item_spec(archive, html, item.0, st.1, st.2) {
            None => None,
            Some((b, a2)) => if st.0.len() >= usize::MAX {
                Some((st.0, st.1, a2))
            } else {
                let (c2, an2) = item_chapter_spec(st.0, st.1, toc_titles, has_toc, item.0, b);
                Some((c2, an2, a2))
            },
        }
    }
}

/// One file of the reading order: skipped when the manifest lacks it, it is
/// not HTML or it cannot be read; cut into its table-of-contents parts when
/// it has some; otherwise placed whole.
#[verifier::opaque]
pub open spec fn item_step_spec(
    archive: Seq<u8>,
    m: Seq<(Seq<char>, ManifestItemView)>,
    toc: Seq<TocEntryView>,
    toc_titles: Seq<(Seq<char>, Seq<char>)>,
    st: StepState,
    idref: Seq<char>,
) -> Option<StepState> {
    match manifest_lookup(m, idref) {
        None => Some(st),
        Some(item) => if !is_html_media_spec(item.1) {
            Some(st)
        } else {
            match entry_text_spec(archive, item.0) {
                Err(_) => Some(st),
                Ok(html) => {
                    let entries = entries_for_item(toc, item.0);
                    let segs = if entries.len() > 0 {
                        split_at_tags_spec(html, spec_find_iter(tag_re(), html), entries)
                    } else {
                        Some((html, seq![]))
                    };
                    match segs {
                        None => None,
                        Some(sv) => if sv.1.len() > 0 {
                            segmented_spec(archive, st, idref, item, sv)
                        } else {
                            whole_spec(archive, toc.len() > 0, toc_titles, st, idref, item, html)
                        },
                    }
                },
            }
        },
    }
}

/// The reading order's files in turn.
pub open spec fn spine_fold(
    archive: Seq<u8>,
    m: Seq<(Seq<char>, ManifestItemView)>,
    toc: Seq<TocEntryView>,
    toc_titles: Seq<(Seq<char>, Seq<char>)>,
    spine: Seq<Seq<char>>,
    st: StepState,
) -> Option<StepState>
    decreases spine.len(),
{
    if spine.len() == 0 {
        Some(st)
    } else {
        match spine_fold(archive, m, toc, toc_titles, spine.drop_last(), st) {
            None => None,
            Some(s1) => item_step_spec(archive, m, toc, toc_titles, s1, spine.last()),
        }
    }
}

/// The readable HTML files of the manifest with their text, in order.
pub open spec fn texts_spec(archive: Seq<u8>, m: Seq<(Seq<char>, ManifestItemView)>) -> Seq<(Seq<char>, Seq<char>)>
    decreases m.len(),
{
    if m.len() == 0 {
        seq![]
    } else if is_html_media_spec(m.last().1.1) {
        match entry_text_spec(archive, m.last().1.0) {
            Ok(t) => texts_spec(archive, m.drop_last()).push((m.last().1.0, t)),
            Err(_) => texts_spec(archive, m.drop_last()),
        }
    } else {
        texts_spec(archive, m.drop_last())
    }
}

/// The media as (path, bytes) pairs.
pub open spec fn asset_pairs(st: AssetsView) -> Seq<(Seq<char>, Seq<u8>)> {
    Seq::new(st.1.len(), |i: int| (st.1[i], st.2[i]))
}

/// The book an EPUB archive makes: its package (`epub_package_spec`), the
/// heading anchors of its chapters, then the chapters and media of its
/// reading order; refused where its text cannot be cut on character
/// boundaries.
pub open spec fn epub_book_spec(archive: Seq<u8>, title_override: Option<Seq<char>>, file_stem: Option<Seq<char>>) -> Result<DocumentView, Seq<char>> {
    match epub_package_spec(archive, title_override, file_stem) {
        Err(e) => Err(e),
        Ok(p) => match chapter_anchors_spec(p.2, p.4, texts_spec(archive, p.2), p.3) {
            None => Err(uncuttable_epub()),
            Some(an) => match spine_fold(archive, p.2, p.4, titles_by_href(p.4), p.3, (seq![], an, (seq![], seq![], seq![]))) {
                None => Err(uncuttable_epub()),
                Some(st) => Ok((p.0, st.0, asset_pairs(st.2), seq![])),
            },
        },
    }
}


proof fn lemma_segments_fold_none(archive: Seq<u8>, href: Seq<char>, segs: Seq<(TocEntryView, Seq<char>)>, st: StepState, k: int)
    requires
        0 <= k <= segs.len(),
        segments_fold(archive, href, segs.take(k), st) is None,
    ensures
        segments_fold(archive, href, segs, st) is None,
    decreases segs.len() - k,
{
    if k < segs.len() {
        assert(segs.take(k + 1).drop_last() =~= segs.take(k));
        lemma_segments_fold_none(archive, href, segs, st, k + 1);
    } else {
        assert(segs.take(k) =~= segs);
    }
}

proof fn lemma_spine_fold_none(
    archive: Seq<u8>,
    m: Seq<(Seq<char>, ManifestItemView)>,
    toc: Seq<TocEntryView>,
    titles: Seq<(Seq<char>, Seq<char>)>,
    spine: Seq<Seq<char>>,
    st: StepState,
    k: int,
)
    requires
        0 <= k <= spine.len(),
        spine_fold(archive, m, toc, titles, spine.take(k), st) is None,
    ensures
        spine_fold(archive, m, toc, titles, spine, st) is None,
    decreases spine.len() - k,
{
    if k < spine.len() {
        assert(spine.take(k + 1).drop_last() =~= spine.take(k));
        lemma_spine_fold_none(archive, m, toc, titles, spine, st, k + 1);
    } else {
        assert(spine.take(k) =~= spine);
    }
}

pub open spec fn state_of(chapters: Seq<BookChapter>, anchors: Anchors, assets: AssetCollector) -> StepState {
    (chapters_view(chapters), anchors_view(anchors), collector_view(assets))
}

#[verifier::rlimit(50)]
fn place_segments(
    archive: &[u8],
    href: &str,
    segs: &Vec<EpubHtmlChapterSegment>,
    chapters: &mut Vec<BookChapter>,
    anchors: &Anchors,
    assets: &mut AssetCollector,
) -> (ok: bool)
    requires
        old(assets).wf(),
    ensures
        final(assets).wf(),
        ({
            let want = segments_fold(
                archive@,
                href@,
                segs@.map_values(|c: EpubHtmlChapterSegment| (entry_view(c.entry), c.html@)),
                state_of(old(chapters)@, *anchors, *old(assets)),
            );
            if ok {
                want == Some(state_of(final(chapters)@, *anchors, *final(assets)))
            } else {
                want is None
            }
        }),
{
    let ghost sv = segs@.map_values(|c: EpubHtmlChapterSegment| (entry_view(c.entry), c.html@));
    let ghost st0 = state_of(chapters@, *anchors, *assets);
    let mut j: usize = 0;
    proof {
        assert(sv.take(0) =~= Seq::<(TocEntryView, Seq<char>)>::empty());
    }
    while j < segs.len()
        invariant
            j <= segs@.len(),
            assets.wf(),
            sv == segs@.map_values(|c: EpubHtmlChapterSegment| (entry_view(c.entry), c.html@)),
            st0 == state_of(old(chapters)@, *anchors, *old(assets)),
            segments_fold(archive@, href@, sv.take(j as int), st0) == Some(state_of(chapters@, *anchors, *assets)),
        decreases segs@.len() - j,
    {
        proof {
            assert(sv.take(j + 1).drop_last() =~= sv.take(j as int));
            assert(sv.take(j + 1).last() == sv[j as int]);
        }
        let seg = &segs[j];
        let ghost pre = state_of(chapters@, *anchors, *assets);
        proof {
            assert(sv[j as int] == (entry_view(seg.entry), seg.html@));
        }
        match render_item(archive, seg.html.as_str(), href, anchors, assets) {
            None => {
                proof {
                    lemma_segments_fold_none(archive@, href@, sv, st0, j + 1);
                }
                return false;
            },
            Some(b) => {
                proof {
                    assert(b.deep_view() =~= blocks_view(b@));
                }
                push_epub_segment_chapter(chapters, seg.entry.title.as_str(), seg.html.as_str(), b);
            },
        }
        j += 1;
    }
    proof {
        assert(sv.take(j as int) =~= sv);
    }
    true
}

fn segmented_step(
    archive: &[u8],
    chapters: &mut Vec<BookChapter>,
    anchors: &Anchors,
    assets: &mut AssetCollector,
    idref: &str,
    item: &EpubManifestItem,
    segs: &EpubHtmlSegments,
) -> (ok: bool)
    requires
        old(assets).wf(),
    ensures
        final(assets).wf(),
        ({
            let want = segmented_spec(
                archive@,
                state_of(old(chapters)@, *anchors, *old(assets)),
                idref@,
                item_view(*item),
                segments_view(*segs),
            );
            if ok {
                want == Some(state_of(final(chapters)@, *anchors, *final(assets)))
            } else {
                want is None
            }
        }),
{
    proof {
        reveal(segmented_spec);
    }
    if epub_item_has_content(idref, item, segs.prelude.as_str()) {
        match render_item(archive, segs.prelude.as_str(), item.href.as_str(), anchors, assets) {
            None => return false,
            Some(b) => {
                proof {
                    assert(b.deep_view() =~= blocks_view(b@));
                }
                append_epub_prelude_blocks(chapters, b);
            },
        }
    }
    place_segments(archive, item.href.as_str(), &segs.chapters, chapters, anchors, assets)
}

fn whole_step(
    archive: &[u8],
    has_toc: bool,
    toc_titles: &Vec<(String, String)>,
    chapters: &mut Vec<BookChapter>,
    anchors: &mut Anchors,
    assets: &mut AssetCollector,
    idref: &str,
    item: &EpubManifestItem,
    html: &str,
) -> (ok: bool)
    requires
        old(assets).wf(),
    ensures
        final(assets).wf(),
        ({
            let want = whole_spec(
                archive@,
                has_toc,
                texts_view(toc_titles@),
                state_of(old(chapters)@, *old(anchors), *old(assets)),
                idref@,
                item_view(*item),
                html@,
            );
            if ok {
                want == Some(state_of(final(chapters)@, *final(anchors), *final(assets)))
            } else {
                want is None
            }
        }),
{
    proof {
        reveal(whole_spec);
    }
    if !epub_item_has_content(idref, item, html) {
        return true;
    }
    match render_item(archive, html, item.href.as_str(), anchors, assets) {
        None => false,
        Some(b) => {
            proof {
                assert(b.deep_view() =~= blocks_view(b@));
            }
            if chapters.len() >= usize::MAX {
                return true;
            }
            push_epub_item_chapter(chapters, anchors, toc_titles, has_toc, item.href.as_str(), b);
            true
        },
    }
}

#[verifier::rlimit(50)]
fn item_step(
    archive: &[u8],
    manifest: &Vec<(String, EpubManifestItem)>,
    toc: &Vec<EpubTocEntry>,
    toc_titles: &Vec<(String, String)>,
    chapters: &mut Vec<BookChapter>,
    anchors: &mut Anchors,
    assets: &mut AssetCollector,
    idref: &str,
) -> (ok: bool)
    requires
        old(assets).wf(),
    ensures
        final(assets).wf(),
        ({
            let want = item_step_spec(
                archive@,
                manifest_view(manifest@),
                entries_view(toc@),
                texts_view(toc_titles@),
                state_of(old(chapters)@, *old(anchors), *old(assets)),
                idref@,
            );
            if ok {
                want == Some(state_of(final(chapters)@, *final(anchors), *final(assets)))
            } else {
                want is None
            }
        }),
{
    proof {
        reveal(item_step_spec);
    }
    let item = match manifest_get(manifest, idref) {
        None => return true,
        Some(it) => it,
    };
    if !is_html_media(item.media_type.as_str()) {
        return true;
    }
    let html = match entry_text(archive, item.href.as_str()) {
        Err(_) => return true,
        Ok(h) => h,
    };
    let entries = epub_toc_entries_for_item(toc.as_slice(), item.href.as_str());
    if entries.len() > 0 {
        match split_epub_html_by_toc_entries(html.as_str(), entries.as_slice()) {
            None => return false,
            Some(segs) => {
                if segs.chapters.len() > 0 {
                    return segmented_step(archive, chapters, anchors, assets, idref, &item, &segs);
                }
            },
        }
    } else {
        proof {
            assert(entries_view(entries@).len() == 0);
        }
    }
    whole_step(archive, toc.len() > 0, toc_titles, chapters, anchors, assets, idref, &item, html.as_str())
}

fn manifest_texts(archive: &[u8], manifest: &Vec<(String, EpubManifestItem)>) -> (r: Vec<(String, String)>)
    ensures
        texts_view(r@) == texts_spec(archive@, manifest_view(manifest@)),
{
    let ghost mv = manifest_view(manifest@);
    let mut out: Vec<(String, String)> = Vec::new();
    let mut i: usize = 0;
    proof {
        assert(texts_view(out@) =~= Seq::<(Seq<char>, Seq<char>)>::empty());
    }
    while i < manifest.len()
        invariant
            i <= manifest@.len(),
            mv == manifest_view(manifest@),
            texts_view(out@) == texts_spec(archive@, mv.take(i as int)),
        decreases manifest@.len() - i,
    {
        proof {
            assert(mv.take(i + 1).drop_last() =~= mv.take(i as int));
            assert(mv.take(i + 1).last() == mv[i as int]);
        }
        let item = &manifest[i].1;
        if is_html_media(item.media_type.as_str()) {
            match entry_text(archive, item.href.as_str()) {
                Ok(t) => {
                    let ghost before = texts_view(out@);
                    let p = (crate::text::owned(item.href.as_str()), t);
                    let ghost pv = (p.0@, p.1@);
                    out.push(p);
                    proof {
                        assert(texts_view(out@) =~= before.push(pv));
                    }
                },
                Err(_) => {},
            }
        }
        i += 1;
    }
    proof {
        assert(mv.take(i as int) =~= mv);
    }
    out
}

/// Read a book from an EPUB archive's bytes (`epub_book_spec`). The title
/// is `title_override` when given and not blank, else the package's, else
/// the file's stem.
#[verifier::rlimit(50)]
pub fn load_epub_book(archive: &[u8], title_override: Option<&str>, file_stem: Option<&str>) -> (r: Result<BookDocument, String>)
    ensures
        match r {
            Ok(d) => epub_book_spec(archive@, opt_str_view(title_override), opt_str_view(file_stem)) == Ok::<DocumentView, Seq<char>>(document_view(d)),
            Err(e) => epub_book_spec(archive@, opt_str_view(title_override), opt_str_view(file_stem)) == Err::<DocumentView, Seq<char>>(e@),
        },
{
    let pkg = match epub_package(archive, title_override, file_stem) {
        Ok(p) => p,
        Err(e) => return Err(e),
    };
    let ghost pv = package_view(pkg);
    let texts = manifest_texts(archive, &pkg.manifest);
    proof {
        assert(pkg.spine@.map_values(|s: String| s@) =~= pkg.spine.deep_view());
    }
    let mut anchors = match precompute_epub_chapter_anchors(&pkg.manifest, &pkg.spine, pkg.toc_entries.as_slice(), &texts) {
        Some(a) => a,
        None => return Err(crate::text::owned("The EPUB holds text that cannot be cut on character boundaries.")),
    };
    let toc_titles = epub_toc_titles_by_href(pkg.toc_entries.as_slice());
    proof {
        assert(texts_view(toc_titles@) =~= toc_titles@.map_values(|p: (String, String)| (p.0@, p.1@)));
    }
    let mut chapters: Vec<BookChapter> = Vec::new();
    let mut assets = AssetCollector::new();
    let ghost st0 = state_of(chapters@, anchors, assets);
    let ghost sp = pv.3;
    proof {
        assert(chapters_view(chapters@) =~= Seq::<ChapterView>::empty());
        assert(sp.take(0) =~= Seq::<Seq<char>>::empty());
        assert(texts_view(texts@) == texts_spec(archive@, pv.2));
    }
    let mut i: usize = 0;
    while i < pkg.spine.len()
        invariant
            i <= pkg.spine@.len(),
            assets.wf(),
            pv == package_view(pkg),
            sp == pv.3,
            epub_package_spec(archive@, opt_str_view(title_override), opt_str_view(file_stem)) == Ok::<_, Seq<char>>(pv),
            chapter_anchors_spec(pv.2, pv.4, texts_spec(archive@, pv.2), pv.3) == Some(st0.1),
            st0.0 == Seq::<ChapterView>::empty(),
            st0.2 == (Seq::<Seq<char>>::empty(), Seq::<Seq<char>>::empty(), Seq::<Seq<u8>>::empty()),
            titles_by_href(pv.4) == texts_view(toc_titles@),
            spine_fold(archive@, pv.2, pv.4, texts_view(toc_titles@), sp.take(i as int), st0)
                == Some(state_of(chapters@, anchors, assets)),
        decreases pkg.spine@.len() - i,
    {
        proof {
            assert(sp.take(i + 1).drop_last() =~= sp.take(i as int));
            assert(sp.take(i + 1).last() == pkg.spine@[i as int]@);
            assert(sp[i as int] == pkg.spine@[i as int]@);
        }
        if !item_step(archive, &pkg.manifest, &pkg.toc_entries, &toc_titles, &mut chapters, &mut anchors, &mut assets, pkg.spine[i].as_str()) {
            proof {
                lemma_spine_fold_none(archive@, pv.2, pv.4, texts_view(toc_titles@), sp, st0, i + 1);
            }
            return Err(crate::text::owned("The EPUB holds text that cannot be cut on character boundaries."));
        }
        i += 1;
    }
    proof {
        assert(sp.take(i as int) =~= sp);
    }
    let ghost av = collector_view(assets);
    let list = assets.into_assets();
    let notes: Vec<String> = Vec::new();
    let d = BookDocument { title: pkg.title, chapters, assets: list, notes };
    proof {
        let dv = d.assets@.map_values(|a: BookAsset| (a.relative_path@, a.bytes@));
        let pv2 = list@.map_values(|a: BookAsset| a.relative_path@);
        let bv2 = list@.map_values(|a: BookAsset| a.bytes@);
        assert(pv2 == av.1 && bv2 == av.2);
        assert forall|k: int| 0 <= k < list@.len() implies #[trigger] dv[k] == asset_pairs(av)[k] by {
            assert(pv2[k] == av.1[k]);
            assert(bv2[k] == av.2[k]);
        }
        assert(dv =~= asset_pairs(av));
        assert(d.notes.deep_view() =~= Seq::<Seq<char>>::empty());
    }
    Ok(d)
}

} // verus!
