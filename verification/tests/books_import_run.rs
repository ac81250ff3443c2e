use grafium_core::books::import_run::{
    book_page_title, calibre_unavailable_item, ensure_document_title, failed_item,
    found_books_message, imported_item, importing_message, initial_queue, output_folder_name,
    processed_message, progress_snapshot, queue_mark_finished, queue_mark_importing,
    sort_candidates, unchanged_import_item, unreadable_document_item, BookCandidate,
};
use grafium_core::books::{
    BookChapter, BookDocument, BookFormat, BookImportQueueStatus, BookImportStatus,
};

fn cand(parts: &[&str], format: BookFormat) -> BookCandidate {
    BookCandidate {
        path_components: parts.iter().map(|s| s.to_string()).collect(),
        display_name: parts.last().unwrap().to_string(),
        format,
    }
}

#[test]
fn candidates_are_imported_easy_formats_first_then_by_path() {
    let sorted = sort_candidates(vec![
        cand(&["d", "a.pdf"], BookFormat::Pdf),
        cand(&["d", "b.epub"], BookFormat::Epub),
        cand(&["d", "a.epub"], BookFormat::Epub),
        cand(&["c", "z.html"], BookFormat::Html),
        cand(&["d", "sub", "a.epub"], BookFormat::Epub),
    ]);
    let names: Vec<Vec<String>> = sorted.iter().map(|c| c.path_components.clone()).collect();
    assert_eq!(
        names,
        vec![
            vec!["d".to_string(), "a.epub".to_string()],
            vec!["d".to_string(), "b.epub".to_string()],
            vec!["d".to_string(), "sub".to_string(), "a.epub".to_string()],
            vec!["c".to_string(), "z.html".to_string()],
            vec!["d".to_string(), "a.pdf".to_string()],
        ]
    );
}

#[test]
fn queue_entries_move_from_queued_to_finished() {
    let candidates = vec![cand(&["a.epub"], BookFormat::Epub), cand(&["b.txt"], BookFormat::Text)];
    let mut queue = initial_queue(&candidates);
    assert_eq!(queue.len(), 2);
    assert_eq!(queue[0].status, BookImportQueueStatus::Queued);
    queue_mark_importing(&mut queue, 0, Some("Reading".to_string()));
    assert_eq!(queue[0].status, BookImportQueueStatus::Importing);
    assert_eq!(queue[0].message.as_deref(), Some("Reading"));
    let item = failed_item("a.epub".to_string(), BookFormat::Epub, "bad zip".to_string());
    queue_mark_finished(&mut queue, 0, &item);
    assert_eq!(queue[0].status, BookImportQueueStatus::Failed);
    assert_eq!(queue[0].message.as_deref(), Some("bad zip"));
    queue_mark_importing(&mut queue, 9, None);
    assert_eq!(queue[1].status, BookImportQueueStatus::Queued);
    let snap = progress_snapshot(1, 2, processed_message(1, 2), &queue);
    assert_eq!(snap.message, "Processed 1 of 2 book files");
    assert_eq!(snap.queue.len(), 2);
}

#[test]
fn progress_messages() {
    assert_eq!(found_books_message(3), "Found 3 supported book files");
    assert_eq!(importing_message("a.epub"), "Importing a.epub");
}

#[test]
fn report_lines_for_each_outcome() {
    let skipped = unchanged_import_item("a.epub".to_string(), BookFormat::Epub, "A".to_string(), Some("Books/A".to_string()), None);
    assert_eq!(skipped.status, BookImportStatus::Skipped);
    assert_eq!(skipped.message.as_deref(), Some("Already imported; source file is unchanged"));
    let calibre = calibre_unavailable_item("b.mobi".to_string(), BookFormat::CalibreEbook, Some("b  book"));
    assert_eq!(calibre.title.as_deref(), Some("b book"));
    assert_eq!(calibre.message.as_deref(), Some("Install Calibre's ebook-convert to import this ebook format"));
    let done = imported_item("c.epub".to_string(), BookFormat::Epub, "C".to_string(), "Books/C".to_string(), "id1".to_string(), 3, 2);
    assert_eq!(done.message.as_deref(), Some("Imported 1 book page with 3 chapter sections and 2 assets"));
}

#[test]
fn documents_without_text_fail_with_their_last_note() {
    let mut doc = BookDocument {
        title: "  ".to_string(),
        chapters: vec![BookChapter { title: "C".to_string(), generated_title: false, blocks: Vec::new() }],
        assets: Vec::new(),
        notes: vec!["OCR tools are missing".to_string()],
    };
    ensure_document_title(&mut doc, Some("scan  file"));
    assert_eq!(doc.title, "scan file");
    let item = unreadable_document_item("scan.pdf", BookFormat::Pdf, &doc).unwrap();
    assert_eq!(item.status, BookImportStatus::Failed);
    assert_eq!(item.message.as_deref(), Some("OCR tools are missing"));
    doc.notes.clear();
    let item2 = unreadable_document_item("scan.pdf", BookFormat::Pdf, &doc).unwrap();
    assert_eq!(item2.message.as_deref(), Some("No readable text was found. Scanned PDFs need OCR support."));
    doc.chapters[0].blocks.push("text".to_string());
    assert!(unreadable_document_item("scan.pdf", BookFormat::Pdf, &doc).is_none());
}

#[test]
fn folder_names_add_the_source_hash_then_a_number() {
    assert_eq!(output_folder_name("Title", "abcdef0123456789", 0), "Title");
    assert_eq!(output_folder_name("Title", "abcdef0123456789", 1), "Title (abcdef01)");
    assert_eq!(output_folder_name("Title", "abcdef0123456789", 2), "Title (abcdef01-2)");
    assert_eq!(output_folder_name("Title", "abc", 1), "Title (abc)");
    assert_eq!(book_page_title("Title (abc)"), "Books/Title (abc)");
}
