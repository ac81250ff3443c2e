use grafium_core::books::epub_toc::{likely_heading_link_label, rewrite_epub_link};
use grafium_core::books::epub::EpubTocEntry;
use grafium_core::books::epub_toc::{
    blocks_have_epub_toc_marker, epub_blocks_are_cover, epub_chapter_title,
    epub_internal_link_count, epub_segment_chapter_title, epub_toc_entries_for_item,
    epub_toc_entries_from_html, epub_toc_link_title, epub_toc_titles_by_href,
    html_text_after_anchor, is_epub_navigation_document, is_html_media, is_ncx_media,
    manifest_get, merge_epub_toc_entries, parse_epub_manifest, parse_epub_spine,
    plausible_epub_toc_title, prefer_html_toc_title, richer_epub_heading_title,
    EpubManifestItem,
};

fn entry(href: &str, fragment: Option<&str>, title: &str) -> EpubTocEntry {
    EpubTocEntry {
        href: href.to_string(),
        fragment: fragment.map(|f| f.to_string()),
        title: title.to_string(),
    }
}

fn item(href: &str, media_type: &str, properties: &str) -> EpubManifestItem {
    EpubManifestItem {
        href: href.to_string(),
        media_type: media_type.to_string(),
        properties: properties.to_string(),
    }
}

fn strings(v: &[&str]) -> Vec<String> {
    v.iter().map(|s| s.to_string()).collect()
}

#[test]
fn plausible_titles_have_letters_and_are_not_furniture() {
    assert!(!plausible_epub_toc_title("Contents"));
    assert!(!plausible_epub_toc_title("Ab"));
    assert!(plausible_epub_toc_title("The Beginning"));
    assert!(!plausible_epub_toc_title(&"a".repeat(161)));
}

#[test]
fn link_titles_prefer_text_after_a_bare_label() {
    assert_eq!(epub_toc_link_title("Chapter 1", " - The Start"), Some("The Start".to_string()));
    assert_eq!(epub_toc_link_title("Intro", ""), Some("Intro".to_string()));
    assert_eq!(epub_toc_link_title("12", "x"), None);
}

#[test]
fn html_titles_replace_bare_or_shorter_ncx_titles() {
    assert!(prefer_html_toc_title("Chapter 1", "The Start"));
    assert!(!prefer_html_toc_title("Long NCX Title", "Short"));
    assert!(!prefer_html_toc_title("Intro", "IV."));
    assert!(!prefer_html_toc_title("A", "  "));
}

#[test]
fn numbered_headings_give_their_title() {
    assert_eq!(richer_epub_heading_title("Chapter 3: The Tree of Life"), "The Tree of Life");
    assert_eq!(richer_epub_heading_title("Prologue"), "Prologue");
    let blocks = strings(&["# Chapter 3: The Tree of Life", "text"]);
    assert_eq!(epub_segment_chapter_title("Chapter 3", &blocks), "The Tree of Life");
    assert_eq!(epub_segment_chapter_title("Opening", &blocks), "Opening");
}

#[test]
fn chapter_titles_fall_back_to_a_number() {
    let contents = "Contents".to_string();
    assert_eq!(epub_chapter_title(&[], Some(&contents), 4), ("Chapter 4".to_string(), true));
    let good = "A Title".to_string();
    assert_eq!(epub_chapter_title(&[], Some(&good), 4), ("A Title".to_string(), false));
    assert_eq!(epub_chapter_title(&strings(&["# Head"]), None, 1), ("Head".to_string(), false));
}

#[test]
fn internal_links_are_counted() {
    let html = "<a href=\"a.xhtml\">A</a><a href=\"http://x\">B</a><a name=\"n\">C</a><a href=\"b.xhtml#c\">D</a>";
    assert_eq!(epub_internal_link_count(html), 2);
}

#[test]
fn navigation_documents_are_recognised() {
    let plain = item("text/ch1.xhtml", "application/xhtml+xml", "");
    assert!(is_epub_navigation_document("x", &item("a.xhtml", "", "scripted nav"), "", &[]));
    assert!(is_epub_navigation_document("x", &plain, "<nav epub:type=\"toc\"></nav>", &[]));
    assert!(!is_epub_navigation_document("ch1", &plain, "<p>Hello</p>", &strings(&["Hello"])));
    let links = "<a href=\"a.xhtml\">A</a><a href=\"b.xhtml\">B</a>";
    assert!(is_epub_navigation_document("x", &item("text/toc.xhtml", "", ""), links, &strings(&["A"])));
    assert!(is_epub_navigation_document("contents", &plain, links, &strings(&["A"])));
    assert!(is_epub_navigation_document("x", &plain, links, &strings(&["# Table of Contents"])));
    assert!(!is_epub_navigation_document("x", &plain, links, &strings(&["Story"])));
}

#[test]
fn toc_markers_and_covers() {
    assert!(blocks_have_epub_toc_marker(&strings(&["# Table-of-Contents"])));
    assert!(!blocks_have_epub_toc_marker(&strings(&["Chapter"])));
    assert!(epub_blocks_are_cover(&strings(&["![Cover](x.png)"])));
    assert!(epub_blocks_are_cover(&strings(&[" COVER "])));
    assert!(!epub_blocks_are_cover(&strings(&["text"])));
}

#[test]
fn media_types() {
    assert!(is_html_media("application/xhtml+xml"));
    assert!(is_html_media("image/svg+xml"));
    assert!(!is_html_media("image/png"));
    assert!(is_ncx_media(&item("toc.NCX", "", "")));
    assert!(is_ncx_media(&item("x", "application/x-dtbncx+xml", "")));
    assert!(!is_ncx_media(&item("x.xhtml", "application/xhtml+xml", "")));
}

#[test]
fn spine_and_manifest_are_read() {
    let spine = parse_epub_spine("<spine><itemref idref=\"c1\"/><itemref idref='c2' linear=\"no\"/></spine>");
    assert_eq!(spine, strings(&["c1", "c2"]));
    let opf = "<manifest><item id=\"c1\" href=\"text/ch%201.xhtml\" media-type=\"application/xhtml+xml\"/>\
               <item href=\"x\"/>\
               <item id=\"img\" href=\"../img.png\" media-type=\"image/png\" properties=\"cover-image\"/></manifest>";
    let items = parse_epub_manifest(opf, "OEBPS").unwrap();
    assert_eq!(items.len(), 2);
    assert_eq!(items[0].0, "c1");
    assert_eq!(items[0].1.href, "OEBPS/text/ch 1.xhtml");
    let img = manifest_get(&items, "img").unwrap();
    assert_eq!(img.href, "img.png");
    assert_eq!(img.properties, "cover-image");
    assert!(manifest_get(&items, "missing").is_none());
}

#[test]
fn merged_tables_prefer_ncx_order_and_better_html_titles() {
    let html = vec![entry("a.xhtml", None, "The Real Title"), entry("b.xhtml", None, "Bee")];
    let ncx = vec![entry("a.xhtml", None, "Chapter 1"), entry("c.xhtml", Some("x"), "Sea")];
    let merged = merge_epub_toc_entries(&html, &ncx);
    let titles: Vec<&str> = merged.iter().map(|e| e.title.as_str()).collect();
    assert_eq!(titles, vec!["The Real Title", "Sea", "Bee"]);
}

#[test]
fn titles_by_file_and_entries_of_a_file() {
    let es = vec![
        entry("a", Some("f1"), "One"),
        entry("a", Some("f2"), "Two"),
        entry("b", None, "Three"),
        entry("a", None, "Four"),
    ];
    assert_eq!(
        epub_toc_titles_by_href(&es),
        vec![("a".to_string(), "One".to_string()), ("b".to_string(), "Three".to_string())]
    );
    assert_eq!(epub_toc_entries_for_item(&es, "a").len(), 2);
    assert_eq!(epub_toc_entries_for_item(&es, "b").len(), 0);
}

#[test]
fn html_tables_of_contents_are_read() {
    let html = "<nav><ol><li><a href=\"ch1.xhtml\">Chapter 1</a> The Start</li>\
                <li><a href=\"ch2.xhtml#s\">Second Part</a></li>\
                <li><a href=\"http://x.com\">Web</a></li></ol></nav>";
    let es = epub_toc_entries_from_html("OEBPS/nav.xhtml", html).unwrap();
    assert_eq!(es.len(), 2);
    assert_eq!(es[0].href, "OEBPS/ch1.xhtml");
    assert_eq!(es[0].title, "The Start");
    assert_eq!(es[1].href, "OEBPS/ch2.xhtml");
    assert_eq!(es[1].fragment.as_deref(), Some("s"));
    assert_eq!(es[1].title, "Second Part");
    assert!(epub_toc_entries_from_html("a.xhtml", "<p>no links</p>").unwrap().is_empty());
}

#[test]
fn text_after_an_anchor_stops_at_the_next_element() {
    assert_eq!(html_text_after_anchor("<a>x</a>tail<br>more", 8), Some("tail".to_string()));
    assert_eq!(html_text_after_anchor("\u{e9}<a", 1), Some(String::new()));
    assert_eq!(html_text_after_anchor("\u{130}\u{130}\u{130}<a\u{e9}", 0), None);
}

#[test]
fn epub_links_are_rewritten_to_chapter_anchors() {
    let anchors: Vec<(Vec<char>, Vec<char>)> = vec![
        ("OEBPS/ch2.xhtml#s".chars().collect(), "second-part".chars().collect()),
        ("OEBPS/ch3.xhtml".chars().collect(), "third".chars().collect()),
    ];
    assert_eq!(
        rewrite_epub_link("OEBPS/ch1.xhtml", " ch2.xhtml#s ", &anchors, "Two"),
        Some("[Two](#second-part)".to_string())
    );
    assert_eq!(
        rewrite_epub_link("OEBPS/ch1.xhtml", "ch3.xhtml#zz", &anchors, "Three"),
        Some("[Three](#third)".to_string())
    );
    assert_eq!(
        rewrite_epub_link("OEBPS/ch1.xhtml", "https://x.org", &anchors, "Web"),
        Some("[Web](https://x.org)".to_string())
    );
    assert_eq!(
        rewrite_epub_link("OEBPS/ch1.xhtml", "#local", &anchors, "A Heading"),
        Some("[A Heading](#a-heading)".to_string())
    );
    assert_eq!(rewrite_epub_link("OEBPS/ch1.xhtml", "#n1", &anchors, "1"), None);
    assert_eq!(rewrite_epub_link("OEBPS/ch1.xhtml", "  ", &anchors, "x"), None);
    assert!(likely_heading_link_label("The End"));
    assert!(!likely_heading_link_label("12"));
}
