use grafium_core::books::pdf_text::{
    merge_pdf_line_blocks, parse_pdfinfo_page_count, pdf_text_to_blocks, readable_text_blocks,
};

#[test]
fn parses_pdfinfo_page_count() {
    assert_eq!(
        parse_pdfinfo_page_count("Title: Example\nPages:          42\nEncrypted: no\n"),
        Some(42)
    );
    assert_eq!(parse_pdfinfo_page_count("Title: Example\n"), None);
}

#[test]
fn readable_text_blocks_ignore_image_only_pdf_pages() {
    assert!(!readable_text_blocks(&["![Image](assets/page.png)".to_string()]));
    assert!(readable_text_blocks(&[
        "This paragraph has enough actual alphanumeric text to count as readable PDF text."
            .to_string()
    ]));
}

#[test]
fn pdf_text_merges_wrapped_lines_into_paragraph_blocks() {
    let blocks = pdf_text_to_blocks(
        "This paragraph was wrapped by the PDF extractor\nacross multiple visual lines.\n\nSecond paragraph stays separate.",
    );

    assert_eq!(
        blocks,
        vec![
            "This paragraph was wrapped by the PDF extractor across multiple visual lines.",
            "Second paragraph stays separate."
        ]
    );
}

#[test]
fn pdf_html_line_blocks_are_merged_before_import() {
    let blocks = merge_pdf_line_blocks(vec![
        "This is the first visual line".to_string(),
        "and it continues on another rendered line.".to_string(),
    ]);

    assert_eq!(
        blocks,
        vec!["This is the first visual line and it continues on another rendered line."]
    );
}

#[test]
fn pdfinfo_key_is_case_insensitive_and_value_must_be_numeric() {
    assert_eq!(parse_pdfinfo_page_count("pages: 7\n"), Some(7));
    assert_eq!(parse_pdfinfo_page_count("Pages: many\nPages: 3\n"), Some(3));
    assert_eq!(parse_pdfinfo_page_count(""), None);
}

#[test]
fn pdf_form_feed_separates_pages_into_blocks() {
    let blocks = pdf_text_to_blocks("First page text.\x0cSecond page text.");
    assert_eq!(blocks, vec!["First page text.", "Second page text."]);
}

#[test]
fn pdf_heading_lines_start_new_blocks() {
    let blocks = merge_pdf_line_blocks(vec![
        "Some text of a paragraph".to_string(),
        "CHAPTER TWO".to_string(),
        "Body".to_string(),
        "- a list item".to_string(),
    ]);
    assert_eq!(
        blocks,
        vec!["Some text of a paragraph", "CHAPTER TWO Body", "- a list item"]
    );
}
