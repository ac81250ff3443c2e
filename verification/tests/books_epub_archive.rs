use std::io::{Cursor, Write};

use grafium_core::anki::anki_package_entries;
use grafium_core::books::assets::source_hash;
use grafium_core::books::documents::{regex_escape, rewrite_root_book_asset_links};
use grafium_core::books::epub_archive::{epub_package, load_epub_book};
use grafium_core::books::outline::single_page_book_markdown;
use grafium_core::books::{BookDocument, BookFormat};
use zip::write::SimpleFileOptions;

fn zip_of(entries: &[(&str, &[u8])]) -> Vec<u8> {
    let mut zip = zip::ZipWriter::new(Cursor::new(Vec::new()));
    for (name, bytes) in entries {
        zip.start_file(*name, SimpleFileOptions::default()).unwrap();
        zip.write_all(bytes).unwrap();
    }
    zip.finish().unwrap().into_inner()
}

const CONTAINER: &[u8] = br#"<?xml version="1.0"?><container><rootfiles><rootfile full-path="OEBPS/content.opf"/></rootfiles></container>"#;

fn page(mut doc: BookDocument) -> String {
    let title = doc.title.clone();
    rewrite_root_book_asset_links(&mut doc, &title);
    single_page_book_markdown(&title, "book.epub", BookFormat::Epub, "h", &doc.notes, &doc.chapters)
}

fn minimal_epub() -> Vec<u8> {
    zip_of(&[
        ("META-INF/container.xml", CONTAINER),
        ("OEBPS/content.opf", br#"<package xmlns:dc="http://purl.org/dc/elements/1.1/"><metadata><dc:title>Sample Book</dc:title></metadata><manifest><item id="chap1" href="chap1.xhtml" media-type="application/xhtml+xml"/><item id="img1" href="images/pic.png" media-type="image/png"/></manifest><spine><itemref idref="chap1"/></spine></package>"#),
        ("OEBPS/chap1.xhtml", br#"<html><body><h1>Opening</h1><p>Hello <em>world</em>.</p><img src="images/pic.png"/></body></html>"#),
        ("OEBPS/images/pic.png", b"png-bytes"),
    ])
}

#[test]
fn a_minimal_epub_reads_as_one_chapter_with_its_image() {
    let doc = load_epub_book(&minimal_epub(), None, Some("sample")).unwrap();
    assert_eq!(doc.title, "Sample Book");
    assert_eq!(doc.chapters.len(), 1);
    assert_eq!(doc.assets.len(), 1);
    assert_eq!(doc.assets[0].relative_path, "assets/pic.png");
    assert_eq!(doc.assets[0].bytes, b"png-bytes".to_vec());
    let book = page(doc);
    assert!(book.contains("- # Opening"));
    assert!(book.contains("  - Hello *world*."));
    assert!(book.contains("  - ![Image](<Sample Book/assets/pic.png>)"));
}

#[test]
fn the_package_gives_title_manifest_and_reading_order() {
    let pkg = epub_package(&minimal_epub(), Some("Given"), None).unwrap();
    assert_eq!(pkg.title, "Given");
    assert_eq!(pkg.opf_dir, "OEBPS");
    assert_eq!(pkg.spine, vec!["chap1".to_string()]);
    assert_eq!(pkg.manifest.len(), 2);
    assert_eq!(pkg.manifest[0].1.href, "OEBPS/chap1.xhtml");
    assert!(pkg.toc_entries.is_empty());
}

#[test]
fn the_nav_page_is_skipped_and_internal_links_point_at_headings() {
    let epub = zip_of(&[
        ("META-INF/container.xml", CONTAINER),
        ("OEBPS/content.opf", br#"<package xmlns:dc="http://purl.org/dc/elements/1.1/"><metadata><dc:title>Linked Book</dc:title></metadata><manifest><item id="nav" href="nav.xhtml" media-type="application/xhtml+xml" properties="nav"/><item id="chap1" href="chap1.xhtml" media-type="application/xhtml+xml"/><item id="chap2" href="chap2.xhtml" media-type="application/xhtml+xml"/></manifest><spine><itemref idref="nav"/><itemref idref="chap1"/><itemref idref="chap2"/></spine></package>"#),
        ("OEBPS/nav.xhtml", br#"<html><body><nav epub:type="toc"><h1>Contents</h1><ol><li><a href="chap1.xhtml">Opening</a></li><li><a href="chap2.xhtml">Second Chapter</a></li></ol></nav></body></html>"#),
        ("OEBPS/chap1.xhtml", br#"<html><body><h1>Opening</h1><p>See <a href="chap2.xhtml">Second Chapter</a>.</p></body></html>"#),
        ("OEBPS/chap2.xhtml", br#"<html><body><h1>Second Chapter</h1><p>Done.</p></body></html>"#),
    ]);
    let book = page(load_epub_book(&epub, None, None).unwrap());
    assert!(!book.contains("- # Contents"));
    assert!(!book.contains("chap1.xhtml"));
    assert!(!book.contains("chap2.xhtml"));
    assert!(book.contains("- # Opening"));
    assert!(book.contains("  - See [Second Chapter](#second-chapter)."));
    assert!(book.contains("- # Second Chapter"));
    assert!(book.contains("  - Done."));
}

#[test]
fn toc_titles_replace_fake_chapter_links() {
    let epub = zip_of(&[
        ("META-INF/container.xml", CONTAINER),
        ("OEBPS/content.opf", br#"<package xmlns:dc="http://purl.org/dc/elements/1.1/"><metadata><dc:title>Lost Books</dc:title></metadata><manifest><item id="cover" href="cover.xhtml" media-type="application/xhtml+xml"/><item id="front" href="front.xhtml" media-type="application/xhtml+xml"/><item id="adam" href="adam.xhtml" media-type="application/xhtml+xml"/><item id="eve" href="eve.xhtml" media-type="application/xhtml+xml"/></manifest><spine><itemref idref="cover"/><itemref idref="front"/><itemref idref="adam"/><itemref idref="eve"/></spine></package>"#),
        ("OEBPS/cover.xhtml", br#"<html><body><p>Cover</p></body></html>"#),
        ("OEBPS/front.xhtml", br#"<html><body><p>Published by Example Press</p><p>Table of Contents <a href="adam.xhtml">Chapter 1.</a> The First Book of Adam and Eve</p><p><a href="eve.xhtml">Chapter 2.</a> The Second Book of Adam and Eve</p></body></html>"#),
        ("OEBPS/adam.xhtml", br#"<html><body><p>This is the first real chapter text.</p><p>It continues here.</p></body></html>"#),
        ("OEBPS/eve.xhtml", br#"<html><body><p>This is the second real chapter text.</p></body></html>"#),
    ]);
    let book = page(load_epub_book(&epub, None, None).unwrap());
    assert!(!book.contains("Table of Contents"));
    assert!(!book.contains("[Chapter 1.]"));
    assert!(!book.contains("- # Chapter 2"));
    assert!(book.contains("- Cover"));
    assert!(book.contains("- # The First Book of Adam and Eve"));
    assert!(book.contains("  - This is the first real chapter text."));
    assert!(book.contains("- # The Second Book of Adam and Eve"));
    assert!(book.contains("  - This is the second real chapter text."));
}

#[test]
fn an_ncx_table_orders_chapters_at_self_closing_anchors() {
    let epub = zip_of(&[
        ("META-INF/container.xml", CONTAINER),
        ("OEBPS/content.opf", br#"<package xmlns:dc="http://purl.org/dc/elements/1.1/"><metadata><dc:title>NCX Book</dc:title></metadata><manifest><item id="toc" href="toc.ncx" media-type="application/x-dtbncx+xml"/><item id="one" href="one.xhtml" media-type="application/xhtml+xml"/><item id="two" href="two.xhtml" media-type="application/xhtml+xml"/></manifest><spine toc="toc"><itemref idref="one"/><itemref idref="two"/></spine></package>"#),
        ("OEBPS/toc.ncx", br##"<ncx><navMap><navPoint><navLabel><text>Chapter 1</text></navLabel><content src="one.xhtml#a1"/></navPoint><navPoint><navLabel><text>Chapter 2</text></navLabel><content src="two.xhtml#a2"/></navPoint></navMap></ncx>"##),
        ("OEBPS/one.xhtml", br#"<html><body><p>Front matter.</p><p><a id="a1"/><b>Chapter 1. First Chapter</b></p><p>First opening.</p><p>See <a href="two.xhtml">next</a>.</p></body></html>"#),
        ("OEBPS/two.xhtml", br#"<html><body><p>First continuation.</p><p><a id="a2"></a><b>Chapter 2. Second Chapter</b></p><p>Second text.</p></body></html>"#),
    ]);
    let book = page(load_epub_book(&epub, None, None).unwrap());
    assert!(!book.contains("Front matter."));
    assert!(book.contains("- # First Chapter"));
    assert!(book.contains("  - First opening."));
    assert!(book.contains("  - See [next](#second-chapter)."));
    assert!(book.contains("- # Second Chapter"));
    assert!(book.find("- # First Chapter").unwrap() < book.find("First continuation.").unwrap());
    assert!(book.find("First continuation.").unwrap() < book.find("- # Second Chapter").unwrap());
}

#[test]
fn broken_epubs_are_refused() {
    assert!(load_epub_book(b"not a zip", None, None)
        .err()
        .unwrap()
        .starts_with("Not a valid EPUB zip: "));
    let no_opf = zip_of(&[("readme.txt", b"hi")]);
    assert_eq!(
        load_epub_book(&no_opf, None, None).err(),
        Some("EPUB container did not include an OPF package file".to_string())
    );
    let by_name = zip_of(&[("book.opf", br#"<package><metadata><title>Found</title></metadata></package>"#)]);
    let doc = load_epub_book(&by_name, None, None).unwrap();
    assert_eq!(doc.title, "Found");
    assert!(doc.chapters.is_empty());
}

#[test]
fn anki_packages_give_their_media_and_collection() {
    assert!(anki_package_entries(b"nope").err().unwrap().starts_with("Not a valid .apkg (zip) file: "));
    let pkg = zip_of(&[
        ("media", br#"{"0":"a.png"}"#),
        ("collection.anki2", b"old"),
        ("collection.anki21", b"new"),
    ]);
    let (media, db) = anki_package_entries(&pkg).unwrap();
    assert_eq!(media, vec![("0".to_string(), "a.png".to_string())]);
    assert_eq!(db, b"new".to_vec());
    let old_only = zip_of(&[("media", b"not json"), ("collection.anki2", b"old")]);
    let (media, db) = anki_package_entries(&old_only).unwrap();
    assert!(media.is_empty());
    assert_eq!(db, b"old".to_vec());
    assert_eq!(
        anki_package_entries(&zip_of(&[("media", b"{}")])).err(),
        Some("No collection.anki2/anki21 found in .apkg".to_string())
    );
    assert_eq!(
        anki_package_entries(&zip_of(&[("media", b"\xff\xfe"), ("collection.anki2", b"x")])).err(),
        Some("stream did not contain valid UTF-8".to_string())
    );
}

#[test]
fn source_hashes_are_sha256_hex() {
    assert_eq!(
        source_hash(b"abc"),
        "ba7816bf8f01cfea414140de5dae2223b00361a396177a9cb410ff61f20015ad"
    );
    assert_eq!(source_hash(b"").len(), 64);
}

#[test]
fn regex_escape_backslashes_meta_characters() {
    assert_eq!(regex_escape("a.b*c"), "a\\.b\\*c");
    assert_eq!(regex_escape("dc:title"), "dc:title");
    assert_eq!(regex_escape("x-y~z#&"), "x\\-y\\~z\\#\\&");
}

#[test]
fn body_after_a_toc_in_the_same_file_is_kept() {
    let epub = zip_of(&[
        ("META-INF/container.xml", CONTAINER),
        ("OEBPS/content.opf", br#"<package xmlns:dc="http://purl.org/dc/elements/1.1/"><metadata><dc:title>Mixed TOC Book</dc:title></metadata><manifest><item id="one" href="one.xhtml" media-type="application/xhtml+xml"/><item id="two" href="two.xhtml" media-type="application/xhtml+xml"/></manifest><spine><itemref idref="one"/><itemref idref="two"/></spine></package>"#),
        ("OEBPS/one.xhtml", br##"<html><body><p>Table of Contents</p><p><a href="#a1">Chapter 1.</a> First Chapter</p><p><a href="two.xhtml#a2">Chapter 2.</a> Second Chapter</p><p><a id="a1"/><b>Chapter 1. First Chapter</b></p><p>First opening.</p></body></html>"##),
        ("OEBPS/two.xhtml", br#"<html><body><p>First continuation.</p><p><a id="a2"></a><b>Chapter 2. Second Chapter</b></p><p>Second text.</p></body></html>"#),
    ]);
    let book = page(load_epub_book(&epub, None, None).unwrap());
    assert!(!book.contains("Table of Contents"));
    assert!(!book.contains("[Chapter 1.]"));
    assert!(book.contains("- # First Chapter"));
    assert!(book.contains("  - First opening."));
    assert!(book.contains("  - First continuation."));
    assert!(book.contains("- # Second Chapter"));
    assert!(book.contains("  - Second text."));
    assert!(book.find("- # First Chapter").unwrap() < book.find("First continuation.").unwrap());
    assert!(book.find("First continuation.").unwrap() < book.find("- # Second Chapter").unwrap());
}
