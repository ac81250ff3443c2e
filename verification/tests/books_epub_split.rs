use grafium_core::books::epub::EpubTocEntry;
use grafium_core::books::epub_anchors::precompute_epub_chapter_anchors;
use grafium_core::books::epub_book::{
    append_epub_prelude_blocks, markdown_title_key, markdown_title_keys_match,
    push_epub_item_chapter, push_epub_segment_chapter, remove_duplicate_epub_chapter_title,
};
use grafium_core::books::epub_split::{
    html_segment_start_for_anchor, parse_tag_attrs, split_epub_html_by_toc_entries,
};
use grafium_core::books::epub_toc::EpubManifestItem;
use grafium_core::books::BookChapter;

fn text(v: &[char]) -> String {
    v.iter().collect()
}

fn entry(href: &str, fragment: &str, title: &str) -> EpubTocEntry {
    EpubTocEntry {
        href: href.to_string(),
        fragment: Some(fragment.to_string()),
        title: title.to_string(),
    }
}

fn strings(v: &[&str]) -> Vec<String> {
    v.iter().map(|s| s.to_string()).collect()
}

#[test]
fn tag_attributes_follow_the_tag_name() {
    let attrs = parse_tag_attrs("<h1 id=\"one\" class='x'>");
    let pairs: Vec<(String, String)> = attrs.iter().map(|(k, v)| (text(k), text(v))).collect();
    assert_eq!(
        pairs,
        vec![("id".to_string(), "one".to_string()), ("class".to_string(), "x".to_string())]
    );
    assert!(parse_tag_attrs("</p>").is_empty());
}

#[test]
fn segment_start_moves_back_to_an_open_block() {
    let html = "<p>x</p><section><span id=\"a\">t</span></section>";
    let anchor = html.find("<span").unwrap();
    assert_eq!(html_segment_start_for_anchor(html, anchor), 8);
    let html2 = "<div><p>Intro</p><h2 id=\"c1\">Title</h2>";
    let anchor2 = html2.find("<h2").unwrap();
    assert_eq!(html_segment_start_for_anchor(html2, anchor2), anchor2 as u128);
}

#[test]
fn html_file_is_cut_at_its_toc_anchors() {
    let html = "<p>Front</p><h1 id=\"one\">One</h1><p>a</p><h1 id=\"two\">Two</h1><p>b</p>";
    let entries = vec![entry("ch.xhtml", "two", "Two"), entry("ch.xhtml", "one", "One")];
    let segments = split_epub_html_by_toc_entries(html, &entries).unwrap();
    assert_eq!(segments.prelude, "<p>Front</p>");
    assert_eq!(segments.chapters.len(), 2);
    assert_eq!(segments.chapters[0].entry.title, "One");
    assert_eq!(segments.chapters[0].html, "<h1 id=\"one\">One</h1><p>a</p>");
    assert_eq!(segments.chapters[1].entry.title, "Two");
    assert_eq!(segments.chapters[1].html, "<h1 id=\"two\">Two</h1><p>b</p>");
}

#[test]
fn html_file_without_toc_anchors_is_all_prelude() {
    let html = "<p>Only text</p>";
    let segments = split_epub_html_by_toc_entries(html, &[entry("ch.xhtml", "x", "X")]).unwrap();
    assert_eq!(segments.prelude, html);
    assert!(segments.chapters.is_empty());
}

#[test]
fn chapter_anchors_come_from_cut_chapters_and_the_toc() {
    let html = "<p>Front</p><h1 id=\"one\">One</h1><p>a</p><h1 id=\"two\">Two</h1><p>b</p>";
    let manifest = vec![(
        "c1".to_string(),
        EpubManifestItem {
            href: "ch.xhtml".to_string(),
            media_type: "application/xhtml+xml".to_string(),
            properties: String::new(),
        },
    )];
    let spine = strings(&["c1"]);
    let toc = vec![
        entry("ch.xhtml", "one", "One"),
        entry("ch.xhtml", "two", "Two"),
        entry("other.xhtml", "z", "Appendix Notes"),
    ];
    let texts = vec![("ch.xhtml".to_string(), html.to_string())];
    let anchors = precompute_epub_chapter_anchors(&manifest, &spine, &toc, &texts).unwrap();
    let pairs: Vec<(String, String)> = anchors.iter().map(|(k, v)| (text(k), text(v))).collect();
    assert_eq!(
        pairs,
        vec![
            ("ch.xhtml#one".to_string(), "one".to_string()),
            ("ch.xhtml".to_string(), "one".to_string()),
            ("ch.xhtml#two".to_string(), "two".to_string()),
            ("other.xhtml#z".to_string(), "appendix-notes".to_string()),
            ("other.xhtml".to_string(), "appendix-notes".to_string()),
        ]
    );
}

#[test]
fn title_keys_match_equal_keys_and_numbered_headings() {
    assert_eq!(markdown_title_key("## **The End.**"), "the end");
    assert!(markdown_title_keys_match("the end", "the end"));
    assert!(markdown_title_keys_match("chapter 3 the end", "the end"));
    assert!(!markdown_title_keys_match("prologue the end", "the end"));
    assert!(!markdown_title_keys_match("chapter 3", ""));
}

#[test]
fn duplicate_title_block_is_removed_once() {
    let mut blocks = strings(&["# One", "# One", "text"]);
    remove_duplicate_epub_chapter_title(&mut blocks, "One");
    assert_eq!(blocks, strings(&["# One", "text"]));
    let mut other = strings(&["text"]);
    remove_duplicate_epub_chapter_title(&mut other, "One");
    assert_eq!(other, strings(&["text"]));
}

#[test]
fn prelude_joins_the_previous_chapter_or_becomes_a_cover() {
    let mut chapters: Vec<BookChapter> = Vec::new();
    append_epub_prelude_blocks(&mut chapters, strings(&["Some text"]));
    assert!(chapters.is_empty());
    append_epub_prelude_blocks(&mut chapters, strings(&["![Cover](assets/cover.jpg)"]));
    assert_eq!(chapters.len(), 1);
    assert_eq!(chapters[0].title, "Cover");
    assert!(chapters[0].generated_title);
    append_epub_prelude_blocks(&mut chapters, strings(&["more"]));
    assert_eq!(chapters[0].blocks, strings(&["![Cover](assets/cover.jpg)", "more"]));
}

#[test]
fn segment_chapter_takes_its_entry_title() {
    let mut chapters: Vec<BookChapter> = Vec::new();
    push_epub_segment_chapter(&mut chapters, "One", "<h1>One</h1><p>a</p>", strings(&["# One", "a"]));
    assert_eq!(chapters.len(), 1);
    assert_eq!(chapters[0].title, "One");
    assert!(!chapters[0].generated_title);
    assert_eq!(chapters[0].blocks, strings(&["a"]));
    push_epub_segment_chapter(&mut chapters, "Two", "<h1>Two</h1>", strings(&["# Two"]));
    assert_eq!(chapters.len(), 1);
}

#[test]
fn item_chapter_titles_and_anchors_a_file() {
    let mut chapters: Vec<BookChapter> = Vec::new();
    let mut anchors: Vec<(Vec<char>, Vec<char>)> = Vec::new();
    let titles: Vec<(String, String)> = Vec::new();
    push_epub_item_chapter(&mut chapters, &mut anchors, &titles, false, "a.xhtml", strings(&["# First Part", "x"]));
    assert_eq!(chapters[0].title, "First Part");
    assert_eq!(text(&anchors[0].0), "a.xhtml");
    assert_eq!(text(&anchors[0].1), "first-part");
    push_epub_item_chapter(&mut chapters, &mut anchors, &titles, true, "b.xhtml", strings(&["y"]));
    assert_eq!(chapters.len(), 1);
    assert_eq!(chapters[0].blocks, strings(&["# First Part", "x", "y"]));
    push_epub_item_chapter(&mut chapters, &mut anchors, &titles, false, "c.xhtml", strings(&["z"]));
    assert_eq!(chapters.len(), 2);
    assert_eq!(chapters[1].title, "Chapter 2");
    assert!(chapters[1].generated_title);
    assert_eq!(anchors.len(), 1);
}
