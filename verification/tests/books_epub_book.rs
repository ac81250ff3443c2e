use grafium_core::books::epub_book::{epub_reading_order, epub_title};
use grafium_core::books::epub_toc::EpubManifestItem;

const OPF: &str = r#"<package xmlns:dc="http://purl.org/dc/elements/1.1/"><metadata><dc:title>Sample  Book</dc:title></metadata></package>"#;

#[test]
fn the_title_comes_from_the_caller_then_the_package_then_the_file() {
    assert_eq!(epub_title(Some("  My Title "), OPF, Some("file")), "My Title");
    assert_eq!(epub_title(Some("   "), OPF, Some("file")), "Sample Book");
    assert_eq!(epub_title(None, OPF, Some("file")), "Sample Book");
    assert_eq!(epub_title(None, "<package/>", Some("my_book")), "my_book");
    assert_eq!(epub_title(None, "<package/>", None), "Imported EPUB");
    assert_eq!(epub_title(None, "<package/>", Some("   ")), "Imported Book");
}

fn item(href: &str, media_type: &str) -> EpubManifestItem {
    EpubManifestItem {
        href: href.to_string(),
        media_type: media_type.to_string(),
        properties: String::new(),
    }
}

#[test]
fn an_empty_spine_reads_the_html_items_in_manifest_order() {
    let manifest = vec![
        ("one".to_string(), item("one.xhtml", "application/xhtml+xml")),
        ("pic".to_string(), item("pic.png", "image/png")),
        ("two".to_string(), item("two.html", "text/html")),
    ];
    assert_eq!(
        epub_reading_order(Vec::new(), &manifest),
        vec!["one".to_string(), "two".to_string()]
    );
    assert_eq!(
        epub_reading_order(vec!["two".to_string()], &manifest),
        vec!["two".to_string()]
    );
}
