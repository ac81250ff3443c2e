use grafium_core::books::documents::{
    asset_link_replacement, first_html_title, first_xml_tag_text, load_fb2_document,
    load_html_document, load_markdown_document, load_text_document,
    rewrite_root_book_asset_links, xml_paragraphs,
};
use grafium_core::books::{BookAsset, BookChapter, BookDocument};

fn strings(v: &[&str]) -> Vec<String> {
    v.iter().map(|s| s.to_string()).collect()
}

#[test]
fn first_xml_tag_text_reads_namespaced_elements() {
    assert_eq!(
        first_xml_tag_text("<dc:title>My &amp; <i>Book</i></dc:title>", "title"),
        Some("My & Book".to_string())
    );
    assert_eq!(first_xml_tag_text("<p>none</p>", "title"), None);
}

#[test]
fn html_title_prefers_title_then_first_heading() {
    assert_eq!(
        first_html_title("<html><head><title> A  Title </title></head><h1>H</h1></html>"),
        Some("A Title".to_string())
    );
    assert_eq!(first_html_title("<body><h1>Heading</h1></body>"), Some("Heading".to_string()));
    assert_eq!(first_html_title("<body><p>x</p></body>"), None);
}

#[test]
fn xml_paragraphs_keep_non_empty_texts() {
    assert_eq!(
        xml_paragraphs("<p>One</p><p> </p><p class=\"x\">Two <b>bold</b></p>"),
        strings(&["One", "Two bold"])
    );
}

#[test]
fn text_document_is_one_chapter_titled_after_its_file() {
    let doc = load_text_document("Para one.\n\nPara two.", Some("my  book"));
    assert_eq!(doc.title, "my book");
    assert_eq!(doc.chapters.len(), 1);
    assert_eq!(doc.chapters[0].title, "my book");
    assert_eq!(doc.chapters[0].blocks, strings(&["Para one.", "Para two."]));
    assert!(doc.assets.is_empty());
    let unnamed = load_text_document("x", None);
    assert_eq!(unnamed.title, "Imported Text");
}

#[test]
fn markdown_document_is_titled_by_its_first_heading() {
    let doc = load_markdown_document("# Heading\n\nText here", Some("file"));
    assert_eq!(doc.title, "Heading");
    assert_eq!(doc.chapters[0].blocks.last().unwrap(), "Text here");
    let plain = load_markdown_document("Just text", None);
    assert_eq!(plain.title, "Imported Markdown");
}

#[test]
fn html_document_keeps_rendered_blocks_and_assets() {
    let assets = vec![BookAsset { relative_path: "assets/a.png".to_string(), bytes: vec![1] }];
    let doc = load_html_document("<title>T</title>", Some("f"), strings(&["b1"]), assets);
    assert_eq!(doc.title, "T");
    assert_eq!(doc.chapters[0].blocks, strings(&["b1"]));
    assert_eq!(doc.assets.len(), 1);
    let untitled = load_html_document("<p>x</p>", Some("page"), Vec::new(), Vec::new());
    assert_eq!(untitled.title, "page");
}

#[test]
fn fb2_document_reads_title_and_paragraphs() {
    let raw = "<FictionBook><description><book-title>Fb Title</book-title></description><body><p>Hello</p><p>World</p></body></FictionBook>";
    let doc = load_fb2_document(raw, Some("file"));
    assert_eq!(doc.title, "Fb Title");
    assert_eq!(doc.chapters[0].blocks, strings(&["Hello", "World"]));
    assert_eq!(doc.notes.len(), 1);
    assert!(doc.notes[0].starts_with("FB2 import currently extracts text"));
    let bare = load_fb2_document("<FictionBook>Loose text</FictionBook>", Some("loose"));
    assert_eq!(bare.title, "loose");
    assert_eq!(bare.chapters[0].blocks, strings(&["Loose text"]));
}

#[test]
fn root_book_image_links_point_into_the_book_folder() {
    assert_eq!(asset_link_replacement("![x](", "F", "a.png", ")"), "![x](<F/assets/a.png>)");
    let mut doc = BookDocument {
        title: "T".to_string(),
        chapters: vec![BookChapter {
            title: "C".to_string(),
            generated_title: false,
            blocks: strings(&["![x](assets/a.png) and ![y](http://z/p.png)"]),
        }],
        assets: vec![BookAsset { relative_path: "assets/a.png".to_string(), bytes: vec![] }],
        notes: Vec::new(),
    };
    rewrite_root_book_asset_links(&mut doc, "My Book");
    assert_eq!(doc.chapters[0].blocks[0], "![x](<My Book/assets/a.png>) and ![y](http://z/p.png)");
    let mut no_assets = BookDocument {
        title: "T".to_string(),
        chapters: vec![BookChapter {
            title: "C".to_string(),
            generated_title: false,
            blocks: strings(&["![x](assets/a.png)"]),
        }],
        assets: Vec::new(),
        notes: Vec::new(),
    };
    rewrite_root_book_asset_links(&mut no_assets, "My Book");
    assert_eq!(no_assets.chapters[0].blocks[0], "![x](assets/a.png)");
}
