use grafium_core::books::chapters::{
    normalize_document, pdf_toc_matches_title, pdf_toc_title_keys, split_blocks_into_chapters,
};
use grafium_core::books::outline::{chapters_outline_markdown, single_page_book_markdown};
use grafium_core::books::{BookChapter, BookDocument, BookFormat};

#[test]
fn pdf_chapter_split_uses_toc_titles_as_allowlist() {
    let chapters = split_blocks_into_chapters(
        vec![
            "# INDEX".to_string(),
            "| Title | Page |\n| --- | --- |\n| THE KABALISTIC TREE OF LIFE | PAGE 1-9 |\n| SPIRIT AND MATTER | PAGE 14-15 |".to_string(),
            "# THE KABALISTIC TREE OF LIFE".to_string(),
            "Opening chapter paragraph.".to_string(),
            "# SECTION INSIDE CHAPTER".to_string(),
            "This visual section should stay inside the first chapter.".to_string(),
            "# SPIRIT AND MATTER".to_string(),
            "Second chapter paragraph.".to_string(),
        ],
        "Part",
    );

    assert_eq!(chapters.len(), 3);
    assert!(chapters[0].generated_title);
    assert_eq!(chapters[1].title, "THE KABALISTIC TREE OF LIFE");
    assert!(chapters[1]
        .blocks
        .contains(&"# SECTION INSIDE CHAPTER".to_string()));
    assert_eq!(chapters[2].title, "SPIRIT AND MATTER");
}

#[test]
fn pdf_chapter_split_does_not_promote_plain_toc_title_mentions() {
    let chapters = split_blocks_into_chapters(
        vec![
            "# INDEX".to_string(),
            "| Title | Page |\n| --- | --- |\n| THE KABALISTIC TREE OF LIFE | PAGE 19 |\n| SPIRIT AND MATTER | PAGE 20 |".to_string(),
            "# INTRODUCTION".to_string(),
            "Opening introduction paragraph.".to_string(),
            "THE KABALISTIC TREE OF LIFE The Kabbalistic Tree of Life starts as ordinary body text, not a visual chapter heading.".to_string(),
            "# SPIRIT AND MATTER".to_string(),
            "The next real visual chapter starts here.".to_string(),
        ],
        "Part",
    );

    let titles = chapters
        .iter()
        .filter(|chapter| !chapter.generated_title)
        .map(|chapter| chapter.title.as_str())
        .collect::<Vec<_>>();

    assert_eq!(titles, vec!["INTRODUCTION", "SPIRIT AND MATTER"]);
    assert!(chapters
        .iter()
        .any(|chapter| chapter.blocks.iter().any(|block| {
            block.starts_with("THE KABALISTIC TREE OF LIFE The Kabbalistic Tree of Life")
        })));
}

#[test]
fn pdf_toc_title_matching_ignores_common_chapter_prefixes() {
    let toc_keys = pdf_toc_title_keys(&[
        "| Title | Page |\n| --- | --- |\n| THE TREE OF LIFE & KNOWLEDGE | PAGE 13 |".to_string(),
    ]);

    assert!(pdf_toc_matches_title(
        &toc_keys,
        "Chapter 3: The Tree of Life and Knowledge"
    ));
}

#[test]
fn toc_keys_are_lower_case_distinct_and_without_prefixes() {
    let keys = pdf_toc_title_keys(&[
        "| Title | Page |\n| --- | --- |\n| Chapter IV: The Sea | p. 4 |\n| THE SEA | 9 |".to_string(),
        "Part 2 - The Land - 12".to_string(),
    ]);
    assert_eq!(keys, vec!["sea".to_string(), "land".to_string()]);
}

#[test]
fn empty_input_yields_one_generated_chapter() {
    let chapters = split_blocks_into_chapters(vec![], "Fallback");
    assert_eq!(chapters.len(), 1);
    assert_eq!(chapters[0].title, "Fallback");
    assert!(chapters[0].generated_title);
    assert!(chapters[0].blocks.is_empty());
}

#[test]
fn plain_heading_lines_become_titles_without_a_toc() {
    let chapters = split_blocks_into_chapters(
        vec![
            "Preamble text.".to_string(),
            "A VERY LOUD HEADING".to_string(),
            "Body.".to_string(),
        ],
        "Part",
    );
    assert_eq!(chapters.len(), 2);
    assert_eq!(chapters[0].blocks, vec!["Preamble text.".to_string()]);
    assert_eq!(chapters[1].title, "A VERY LOUD HEADING");
    assert!(!chapters[1].generated_title);
    assert_eq!(chapters[1].blocks, vec!["Body.".to_string()]);
}

#[test]
fn single_page_pdf_markdown_links_toc_rows_to_chapter_headings() {
    let markdown = single_page_book_markdown(
        "PDF Book",
        "book.pdf",
        BookFormat::Pdf,
        "abc123",
        &[],
        &[
            BookChapter {
                title: "Part".to_string(),
                generated_title: true,
                blocks: vec![
                    "# INDEX".to_string(),
                    "| Title | Page |\n| --- | --- |\n| THE KABALISTIC TREE OF LIFE | PAGE 1-9 |\n| SPIRIT AND MATTER | PAGE 14-15 |".to_string(),
                ],
            },
            BookChapter {
                title: "THE KABALISTIC TREE OF LIFE".to_string(),
                generated_title: false,
                blocks: vec![
                    "# THE KABALISTIC TREE OF LIFE".to_string(),
                    "First chapter paragraph.".to_string(),
                ],
            },
            BookChapter {
                title: "SPIRIT AND MATTER".to_string(),
                generated_title: false,
                blocks: vec![
                    "# SPIRIT AND MATTER".to_string(),
                    "Second chapter paragraph.".to_string(),
                ],
            },
        ],
    );

    assert!(markdown
        .contains("| [THE KABALISTIC TREE OF LIFE](#the-kabalistic-tree-of-life) | PAGE 1-9 |"));
    assert!(markdown.contains("| [SPIRIT AND MATTER](#spirit-and-matter) | PAGE 14-15 |"));
    assert!(markdown.contains("- # THE KABALISTIC TREE OF LIFE"));
}

#[test]
fn single_page_pdf_markdown_links_toc_rows_to_matching_body_text() {
    let markdown = single_page_book_markdown(
        "PDF Book",
        "book.pdf",
        BookFormat::Pdf,
        "abc123",
        &[],
        &[
            BookChapter {
                title: "Part".to_string(),
                generated_title: true,
                blocks: vec![
                    "# INDEX".to_string(),
                    "| Title | Page |\n| --- | --- |\n| THE KABALISTIC TREE OF LIFE | PAGE 19 |"
                        .to_string(),
                ],
            },
            BookChapter {
                title: "INTRODUCTION".to_string(),
                generated_title: false,
                blocks: vec![
                    "# INTRODUCTION".to_string(),
                    "THE KABALISTIC TREE OF LIFE The Kabbalistic Tree of Life starts as ordinary body text.".to_string(),
                ],
            },
        ],
    );

    assert!(markdown
        .contains("| [THE KABALISTIC TREE OF LIFE](#the-kabalistic-tree-of-life) | PAGE 19 |"));
    assert!(!markdown.contains("- # THE KABALISTIC TREE OF LIFE"));
}

#[test]
fn generated_pdf_chapter_titles_are_not_written_as_fake_headings() {
    let chapters = split_blocks_into_chapters(
        vec![
            "Opening paragraph before any detected heading.".to_string(),
            "Second paragraph.".to_string(),
        ],
        "OCR Part",
    );
    let markdown = chapters_outline_markdown(&chapters);

    assert!(!markdown.contains("OCR Part"));
    assert!(markdown.contains("- Opening paragraph before any detected heading."));
    assert!(markdown.contains("- Second paragraph."));
}

#[test]
fn outline_nests_chapter_blocks_and_lists_import_notes() {
    let markdown = single_page_book_markdown(
        "Book",
        "book.txt",
        BookFormat::Text,
        "h",
        &["Note one\nsecond line".to_string()],
        &[BookChapter {
            title: "Intro".to_string(),
            generated_title: false,
            blocks: vec!["First.\r\nContinued  ".to_string(), "id:: not a property".to_string()],
        }],
    );
    assert_eq!(
        markdown,
        "- # Intro\n  - First.\n    Continued\n  - \\id:: not a property\n- Import notes\n  - Note one\n    second line\n"
    );
    assert_eq!(chapters_outline_markdown(&[]), "- Imported content was empty.\n");
}

#[test]
fn normalizing_drops_empty_chapters_and_cleans_titles() {
    let mut doc = BookDocument {
        title: "T".to_string(),
        chapters: vec![
            BookChapter {
                title: "  Real   title ".to_string(),
                generated_title: false,
                blocks: vec!["  spaced   text  ".to_string(), "   ".to_string()],
            },
            BookChapter {
                title: "Empty".to_string(),
                generated_title: false,
                blocks: vec!["  ".to_string()],
            },
        ],
        assets: vec![],
        notes: vec![],
    };
    normalize_document(&mut doc);
    assert_eq!(doc.chapters.len(), 1);
    assert_eq!(doc.chapters[0].title, "Real title");
    assert_eq!(doc.chapters[0].blocks, vec!["spaced text".to_string()]);
}
