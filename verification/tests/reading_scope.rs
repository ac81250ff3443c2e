use grafium_core::reading_scope::{block_heading, wiki_label};
use grafium_core::reading_scope::rendered_text;
use grafium_core::collections::{Page, Properties, PropertyValue};
use grafium_core::reading_scope::{
    capture_selection, check_target_fields, is_book_page, normalize, Block, ReadingScope,
    ReadingSelection, ResearchTarget, ScopeError,
};

fn blocks() -> Vec<Block> {
    [
        ("a", None, "# Chapter one"),
        ("b", Some("a"), "before **selected** words SECRET"),
        ("c", Some("a"), "## Subsection"),
        ("d", Some("c"), "nested cobalt evidence"),
        ("e", Some("a"), "### Deeper"),
        ("f", Some("e"), "deep child"),
        ("g", Some("a"), "## Next subsection"),
        ("h", Some("g"), "NEXT-SUBSECTION"),
        ("i", None, "# Chapter two"),
        ("j", Some("i"), "OTHER-CHAPTER"),
    ]
    .iter()
    .enumerate()
    .map(|(n, (id, parent, text))| Block {
        id: id.to_string(),
        parent_id: parent.map(str::to_string),
        content: text.to_string(),
        order_index: n as i32,
    })
    .collect()
}

fn rendered() -> Vec<String> {
    [
        "Chapter one",
        "before selected words SECRET",
        "Subsection",
        "nested cobalt evidence",
        "Deeper",
        "deep child",
        "Next subsection",
        "NEXT-SUBSECTION",
        "Chapter two",
        "OTHER-CHAPTER",
    ]
    .iter()
    .map(|s| s.to_string())
    .collect()
}

fn selection(ids: &[&str], text: &str) -> ReadingSelection {
    ReadingSelection {
        block_ids: ids.iter().map(|s| s.to_string()).collect(),
        text: text.to_string(),
    }
}

#[test]
fn selection_exposes_only_the_validated_selected_text() {
    let sel = selection(&["b"], "selected words");
    let block = capture_selection(&sel, "selected words", &blocks(), &rendered()).unwrap();
    assert_eq!(block.id, "b");
    assert_eq!(block.content, "selected words");

    let injected = selection(&["b"], "selected INJECTED words");
    assert_eq!(
        capture_selection(&injected, "selected INJECTED words", &blocks(), &rendered()).unwrap_err(),
        ScopeError::TextMismatch
    );
    for (ids, err) in [
        (vec!["foreign"], ScopeError::BlockNotOnPage),
        (vec!["b", "b"], ScopeError::InvalidSelection),
        (vec!["b", "d"], ScopeError::NotContiguous),
        (vec!["d", "c"], ScopeError::NotContiguous),
        (vec!["missing"], ScopeError::BlockNotOnPage),
    ] {
        let sel = selection(&ids, "selected");
        assert_eq!(capture_selection(&sel, "selected", &blocks(), &rendered()).unwrap_err(), err);
    }
    let span = selection(&["c", "d"], "Subsection\nnested cobalt");
    let block = capture_selection(&span, "Subsection\nnested cobalt", &blocks(), &rendered()).unwrap();
    assert_eq!(block.id, "c");
    assert_eq!(block.content, "Subsection\nnested cobalt");
    let inner = selection(&["c", "d"], "nested cobalt");
    assert_eq!(
        capture_selection(&inner, "nested cobalt", &blocks(), &rendered()).unwrap_err(),
        ScopeError::TextMismatch
    );
    let blank = selection(&["b"], "   ");
    assert_eq!(
        capture_selection(&blank, "   ", &blocks(), &rendered()).unwrap_err(),
        ScopeError::InvalidSelection
    );
    assert!(ScopeError::TextMismatch.message().starts_with("Research scope: "));
}

#[test]
fn scopes_require_exactly_their_fields() {
    let target = |scope, block: Option<&str>, sel: bool| ResearchTarget {
        page_id: "p".to_string(),
        scope,
        block_id: block.map(str::to_string),
        selection: if sel { Some(selection(&["b"], "x")) } else { None },
    };
    assert!(check_target_fields(&target(ReadingScope::Page, None, false)).is_ok());
    assert!(check_target_fields(&target(ReadingScope::Page, Some("a"), false)).is_err());
    assert!(check_target_fields(&target(ReadingScope::Block, Some("c"), false)).is_ok());
    assert!(check_target_fields(&target(ReadingScope::Block, Some("  "), false)).is_err());
    assert!(check_target_fields(&target(ReadingScope::Section, None, false)).is_err());
    assert!(check_target_fields(&target(ReadingScope::Selection, None, true)).is_ok());
    assert!(check_target_fields(&target(ReadingScope::Selection, None, false)).is_err());
    assert!(check_target_fields(&target(ReadingScope::Selection, Some("b"), true)).is_err());
}

#[test]
fn normalize_collapses_white_space() {
    assert_eq!(normalize("  a \n\t b  c "), "a b c");
    assert_eq!(normalize(""), "");
}

#[test]
fn books_are_recognised_by_marker_or_title() {
    let page = |title: &str, props: Properties| Page {
        id: "p".to_string(),
        title: title.to_string(),
        file_path: None,
        created_at: 0,
        updated_at: 0,
        is_journal: false,
        properties: props,
    };
    let obj = |k: &str, v: PropertyValue| Properties::Object(vec![(k.to_string(), v)]);
    assert!(is_book_page(&page("x", obj("collection", PropertyValue::Text("book".into())))));
    assert!(is_book_page(&page("x", obj("type", PropertyValue::Text("book".into())))));
    assert!(is_book_page(&page("x", obj("book", PropertyValue::Other("true".into())))));
    assert!(is_book_page(&page("x", obj("book", PropertyValue::Text("true".into())))));
    assert!(is_book_page(&page("Books/Title", Properties::NotObject("null".into()))));
    assert!(!is_book_page(&page("x", obj("collection", PropertyValue::Text("project".into())))));
}

#[test]
fn rendered_text_reads_markdown_and_wiki_labels() {
    assert_eq!(
        rendered_text("**strong**word [label](https://example.test) [[Destination|Alias]]"),
        "strongword label Alias"
    );
    assert_eq!(rendered_text("# Title\n\nBody `code` [[Plain]]"), "Title Body code Plain");
}

#[test]
fn block_headings_start_their_block() {
    assert_eq!(block_heading("## Section *two*"), Some((2, "Section two".to_string())));
    assert_eq!(block_heading("Text then\n# Not first"), None);
    assert_eq!(block_heading("```\n# fake heading\n```"), None);
    assert_eq!(block_heading("#"), None);
    assert_eq!(wiki_label("Target|Shown|x"), "Shown|x");
    assert_eq!(wiki_label("Target"), "Target");
}
