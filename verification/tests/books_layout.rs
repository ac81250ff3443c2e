use grafium_core::books::layout::{
    asset_file_name, book_index_page_title, generated_asset_file_segments,
    generated_page_file_segments, manifest_index_page_title, single_page_book_leaf,
};
use grafium_core::books::BookFormat;

fn strings(v: &[&str]) -> Vec<String> {
    v.iter().map(|s| s.to_string()).collect()
}

#[test]
fn page_files_live_under_books() {
    assert_eq!(
        generated_page_file_segments(" Books/My Book/index "),
        Some(strings(&["Books", "My Book", "index.md"]))
    );
    assert_eq!(generated_page_file_segments("Books"), Some(strings(&["Books.md"])));
    assert_eq!(
        generated_page_file_segments("Books\\A\\ b "),
        Some(strings(&["Books", "A", "b.md"]))
    );
    assert_eq!(generated_page_file_segments("Other/x"), None);
    assert_eq!(generated_page_file_segments("Books/../x"), None);
    assert_eq!(generated_page_file_segments("Books//x"), None);
    assert_eq!(generated_page_file_segments("Books/./x"), None);
}

#[test]
fn asset_files_live_under_assets() {
    assert_eq!(generated_asset_file_segments("assets/a.png"), Some(strings(&["assets", "a.png"])));
    assert_eq!(generated_asset_file_segments("img/a.png"), None);
    assert_eq!(generated_asset_file_segments("assets/../a.png"), None);
    assert_eq!(asset_file_name("assets/a.png"), Some("a.png".to_string()));
    assert_eq!(asset_file_name("a.png"), None);
}

#[test]
fn recorded_import_opens_with_its_first_page() {
    assert_eq!(
        manifest_index_page_title(&strings(&["Books/X", "Books/X/y"]), "T"),
        Some("Books/X".to_string())
    );
    assert_eq!(
        manifest_index_page_title(&Vec::new(), "My: Book"),
        Some("Books/My Book/index".to_string())
    );
    assert_eq!(manifest_index_page_title(&Vec::new(), "  "), None);
}

#[test]
fn single_page_leaf_avoids_index() {
    assert_eq!(single_page_book_leaf(Some("Index"), "Folder"), "Folder");
    assert_eq!(single_page_book_leaf(Some("My Book"), "F"), "My Book");
    assert_eq!(single_page_book_leaf(None, "F?"), "F");
}

#[test]
fn pdf_books_get_a_page_below_their_folder() {
    assert_eq!(book_index_page_title(BookFormat::Pdf, "Folder", Some("file")), "Books/Folder/file");
    assert_eq!(book_index_page_title(BookFormat::Epub, "Folder", Some("file")), "Books/Folder");
}
