use grafium_core::books::import_run::{
    book_candidates, book_manifest, import_decision, import_run_step, manifest_is_current,
    no_folder_message, output_step, BookImportManifest, ImportAction, ImportDecision,
    ImportRunState, OutputStep, SelectedFile, report_source_name, scan_step, source_dir_check,
    ScanStep,
};
use grafium_core::books::{BookFormat, IMPORTER_VERSION};

fn manifest(version: &str, hash: &str) -> BookImportManifest {
    BookImportManifest {
        importer_version: version.to_string(),
        title: "Book".to_string(),
        source_file: "book.epub".to_string(),
        source_sha256: hash.to_string(),
        source_format: BookFormat::Epub,
        generated_pages: vec!["Books/Book".to_string()],
        assets: vec![],
    }
}

#[test]
fn manifests_record_this_importer() {
    let m = book_manifest("T", "t.epub", BookFormat::Epub, "abc", vec!["Books/T".to_string()], vec!["assets/a.png".to_string()]);
    assert_eq!(m.importer_version, IMPORTER_VERSION);
    assert_eq!(m.title, "T");
    assert_eq!(m.source_file, "t.epub");
    assert_eq!(m.source_sha256, "abc");
    assert_eq!(m.generated_pages, vec!["Books/T".to_string()]);
    assert_eq!(m.assets, vec!["assets/a.png".to_string()]);
    assert!(manifest_is_current(&m));
    assert!(!manifest_is_current(&manifest("grafium-book-import-v1", "abc")));
}

#[test]
fn a_folder_is_kept_replaced_taken_or_passed() {
    let current = manifest(IMPORTER_VERSION, "h1");
    let old = manifest("grafium-book-import-v1", "h1");
    assert_eq!(output_step(Some(&current), true, "h1"), OutputStep::Unchanged);
    assert_eq!(output_step(Some(&old), true, "h1"), OutputStep::Replace);
    assert_eq!(output_step(Some(&current), true, "h2"), OutputStep::NextAttempt);
    assert_eq!(output_step(Some(&current), false, "h2"), OutputStep::Create);
    assert_eq!(output_step(None, false, "h1"), OutputStep::Create);
    assert_eq!(output_step(None, true, "h1"), OutputStep::NextAttempt);
    assert_eq!(no_folder_message("X"), "Could not find a safe Books folder name for X");
}

#[test]
fn the_checks_of_a_book_come_in_order() {
    let current = manifest(IMPORTER_VERSION, "h1");
    let old = manifest("grafium-book-import-v1", "h1");
    assert_eq!(import_decision(Some(&current), "h1", true, true, false), ImportDecision::SkipUnchanged);
    assert_eq!(import_decision(Some(&old), "h1", true, true, false), ImportDecision::SkipNeedsCalibre);
    assert_eq!(import_decision(None, "h1", false, true, false), ImportDecision::Cancelled);
    assert_eq!(import_decision(Some(&current), "h2", false, false, false), ImportDecision::FailUnreadable);
    assert_eq!(import_decision(None, "h1", false, false, true), ImportDecision::Write);
}

fn selected(display: &str, is_file: bool, inside: bool, ext: Option<&str>) -> SelectedFile {
    SelectedFile {
        display: display.to_string(),
        path_components: vec!["/".to_string(), "books".to_string(), display.to_string()],
        name: display.to_string(),
        is_file,
        inside_graph: inside,
        extension: ext.map(String::from),
    }
}

#[test]
fn selected_files_become_candidates_or_a_refusal() {
    assert_eq!(book_candidates(&vec![]).err(), Some("No book files were selected".to_string()));
    let ok = book_candidates(&vec![selected("a.EPUB", true, false, Some("EPUB")), selected("b.txt", true, false, Some("txt"))]).unwrap();
    assert_eq!(ok.len(), 2);
    assert_eq!(ok[0].format, BookFormat::Epub);
    assert_eq!(ok[0].display_name, "a.EPUB");
    assert_eq!(ok[1].format, BookFormat::Text);
    assert_eq!(
        book_candidates(&vec![selected("a.epub", true, false, Some("epub")), selected("dir", false, false, None)]).err(),
        Some("Book import source is not a file: dir".to_string())
    );
    assert_eq!(
        book_candidates(&vec![selected("g.epub", true, true, Some("epub"))]).err(),
        Some("Book import source is inside the current Grafium graph: g.epub. Choose the original book file outside Grafium.".to_string())
    );
    assert_eq!(
        book_candidates(&vec![selected("noext", true, false, None)]).err(),
        Some("Selected file has no supported book extension: noext".to_string())
    );
    assert_eq!(
        book_candidates(&vec![selected("x.zip", true, false, Some("zip"))]).err(),
        Some("Selected file is not a supported book format: x.zip".to_string())
    );
}

#[test]
fn a_run_takes_each_candidate_once_until_cancelled() {
    let st = ImportRunState { next: 0, total: 2 };
    let (st, a) = import_run_step(st, false);
    assert_eq!(a, ImportAction::Import(0));
    let (st, a) = import_run_step(st, false);
    assert_eq!(a, ImportAction::Import(1));
    let (st2, a) = import_run_step(st, true);
    assert_eq!(a, ImportAction::Done);
    assert_eq!(st2, st);
    let (st3, a) = import_run_step(ImportRunState { next: 1, total: 3 }, true);
    assert_eq!(a, ImportAction::Cancel);
    assert_eq!(st3, ImportRunState { next: 1, total: 3 });
}

#[test]
fn folders_and_their_entries() {
    assert_eq!(
        source_dir_check("/x", false, false),
        Some("Book import source is not a directory: /x".to_string())
    );
    assert_eq!(
        source_dir_check("/g/pages", true, true),
        Some("Book import source is inside the current Grafium graph: /g/pages. Choose the folder that contains the original book files outside Grafium, not pages/Books.".to_string())
    );
    assert_eq!(source_dir_check("/x", true, false), None);
    assert_eq!(scan_step(".hidden", true, false, None), ScanStep::Skip);
    assert_eq!(scan_step("sub", true, false, None), ScanStep::Descend);
    assert_eq!(scan_step("a.pdf", false, true, Some("pdf")), ScanStep::Skip);
    assert_eq!(scan_step("a.pdf", false, false, Some("pdf")), ScanStep::Candidate(BookFormat::Pdf));
    assert_eq!(scan_step("a.zip", false, false, Some("zip")), ScanStep::Skip);
    assert_eq!(scan_step("README", false, false, None), ScanStep::Skip);
    assert_eq!(report_source_name(Some("Library")), "Library");
    assert_eq!(report_source_name(None), "selected folder");
}
