use grafium_core::assistant_scope::{
    capture_plan, check_book_root, collection_members, imported_book_folder, is_book_collection,
    manifest_names_book, web_mode_for, AssistantContext, AssistantMode, CapturePlan,
    ResearchWebMode,
};
use grafium_core::collections::{Page, Properties, PropertyValue};
use grafium_core::reading_scope::{ReadingScope, ReadingSelection};

#[test]
fn modes_map_to_web_modes() {
    assert_eq!(web_mode_for(AssistantMode::Answer), ResearchWebMode::Off);
    assert_eq!(web_mode_for(AssistantMode::Web), ResearchWebMode::Search);
    assert_eq!(web_mode_for(AssistantMode::Deep), ResearchWebMode::Research);
}

#[test]
fn contexts_plan_exactly_their_scope() {
    assert!(matches!(capture_plan(&AssistantContext::Nothing), CapturePlan::Nothing));
    assert!(matches!(capture_plan(&AssistantContext::Graph), CapturePlan::WholeGraph));
    match capture_plan(&AssistantContext::Book { page_id: "b".into() }) {
        CapturePlan::WholeBook(id) => assert_eq!(id, "b"),
        _ => panic!("book"),
    }
    match capture_plan(&AssistantContext::Section { page_id: "p".into(), block_id: "x".into() }) {
        CapturePlan::Reading(t) => {
            assert_eq!(t.page_id, "p");
            assert_eq!(t.scope, ReadingScope::Section);
            assert_eq!(t.block_id.as_deref(), Some("x"));
            assert!(t.selection.is_none());
        }
        _ => panic!("section"),
    }
    let sel = ReadingSelection { block_ids: vec!["b1".into()], text: "words".into() };
    match capture_plan(&AssistantContext::Selection { page_id: "p".into(), selection: sel }) {
        CapturePlan::Reading(t) => {
            assert_eq!(t.scope, ReadingScope::Selection);
            assert!(t.block_id.is_none());
            let s = t.selection.unwrap();
            assert_eq!(s.block_ids, vec!["b1".to_string()]);
            assert_eq!(s.text, "words");
        }
        _ => panic!("selection"),
    }
}

#[test]
fn imported_books_are_found_by_folder_and_manifest() {
    assert_eq!(imported_book_folder("Books/Synthetic").as_deref(), Some("Synthetic"));
    assert_eq!(imported_book_folder("Books/Synthetic/Chapter").as_deref(), Some("Synthetic"));
    assert_eq!(imported_book_folder("Books/"), None);
    assert_eq!(imported_book_folder("Books/../x"), None);
    assert_eq!(imported_book_folder("Books/a\\b"), None);
    assert_eq!(imported_book_folder("Notes/x"), None);
    let pages = vec!["Books/Synthetic".to_string()];
    assert!(manifest_names_book("grafium-book-import-v13", &pages, "Books/Synthetic"));
    assert!(!manifest_names_book("grafium-book-import-v13", &pages, "Books/Just a title"));
    assert!(!manifest_names_book("other-v1", &pages, "Books/Synthetic"));
}

#[test]
fn collection_members_are_ordered_distinct_and_exclude_the_book() {
    let linked = ["c1", "book", "c2", "c1", "c3"].iter().map(|s| s.to_string()).collect::<Vec<_>>();
    assert_eq!(
        collection_members("book", &linked),
        vec!["c1".to_string(), "c2".to_string(), "c3".to_string()]
    );
}

#[test]
fn only_non_journal_book_collections_count() {
    let page = |journal: bool, kind: &str| Page {
        id: "p".into(),
        title: "t".into(),
        file_path: None,
        created_at: 0,
        updated_at: 0,
        is_journal: journal,
        properties: Properties::Object(vec![("collection".into(), PropertyValue::Text(kind.into()))]),
    };
    assert!(is_book_collection(&page(false, "book")));
    assert!(!is_book_collection(&page(true, "book")));
    assert!(!is_book_collection(&page(false, "project")));
}

#[test]
fn a_book_is_read_whole_only_from_its_root() {
    assert!(check_book_root("b", "b").is_ok());
    assert_eq!(
        check_book_root("b", "member").unwrap_err(),
        "Chat context: select the identified whole book, not its current member"
    );
}
