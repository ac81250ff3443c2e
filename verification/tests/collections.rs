use grafium_core::collections::{
    clear_collection, collection_of, mark_collection, Page, Properties, PropertyValue,
};

fn page_with_props(props: Properties) -> Page {
    Page {
        id: "p1".to_string(),
        title: "My Book".to_string(),
        file_path: None,
        created_at: 0,
        updated_at: 0,
        is_journal: false,
        properties: props,
    }
}

fn text(s: &str) -> PropertyValue {
    PropertyValue::Text(s.to_string())
}

fn object(entries: &[(&str, PropertyValue)]) -> Properties {
    Properties::Object(entries.iter().map(|(k, v)| (k.to_string(), v.clone())).collect())
}

fn get<'a>(props: &'a Properties, key: &str) -> Option<&'a PropertyValue> {
    match props {
        Properties::Object(es) => es.iter().find(|(k, _)| k == key).map(|(_, v)| v),
        Properties::NotObject(_) => None,
    }
}

#[test]
fn collection_of_is_none_for_a_plain_page() {
    assert!(collection_of(&page_with_props(object(&[]))).is_none());
    assert!(collection_of(&page_with_props(Properties::NotObject("null".to_string()))).is_none());
    assert!(collection_of(&page_with_props(object(&[("icon", text("book"))]))).is_none());
}

#[test]
fn collection_of_reads_kind_and_optional_status() {
    let page = page_with_props(object(&[
        ("collection", text("book")),
        ("collection-status", text("draft")),
    ]));
    let info = collection_of(&page).expect("marker present");
    assert_eq!(info.kind, "book");
    assert_eq!(info.status.as_deref(), Some("draft"));

    let no_status = page_with_props(object(&[("collection", text("project"))]));
    let info = collection_of(&no_status).unwrap();
    assert_eq!(info.kind, "project");
    assert_eq!(info.status, None);
}

#[test]
fn malformed_marker_reads_as_not_a_collection() {
    assert!(collection_of(&page_with_props(object(&[("collection-status", text("draft"))]))).is_none());
    for bad in [
        object(&[("collection", text(""))]),
        object(&[("collection", text("   "))]),
        object(&[("collection", PropertyValue::Other("7".to_string()))]),
        object(&[("collection", PropertyValue::Other("{\"kind\":\"book\"}".to_string()))]),
    ] {
        assert!(collection_of(&page_with_props(bad)).is_none());
    }
}

#[test]
fn mark_then_read_round_trips() {
    let mut props = object(&[]);
    mark_collection(&mut props, "book");
    let page = page_with_props(props);
    assert_eq!(collection_of(&page).unwrap().kind, "book");
}

#[test]
fn mark_preserves_unrelated_properties() {
    let mut props = object(&[
        ("icon", text("📕")),
        ("color", text("red")),
        ("tags", PropertyValue::Other("[\"fiction\",\"1900s\"]".to_string())),
    ]);
    mark_collection(&mut props, "book");
    assert_eq!(get(&props, "icon"), Some(&text("📕")));
    assert_eq!(get(&props, "color"), Some(&text("red")));
    assert_eq!(
        get(&props, "tags"),
        Some(&PropertyValue::Other("[\"fiction\",\"1900s\"]".to_string()))
    );
    assert_eq!(get(&props, "collection"), Some(&text("book")));
}

#[test]
fn re_marking_a_new_kind_preserves_existing_status() {
    let mut props = object(&[
        ("collection", text("book")),
        ("collection-status", text("published")),
    ]);
    mark_collection(&mut props, "project");
    assert_eq!(get(&props, "collection"), Some(&text("project")));
    assert_eq!(get(&props, "collection-status"), Some(&text("published")));
}

#[test]
fn mark_promotes_a_null_properties_blob() {
    let mut props = Properties::NotObject("null".to_string());
    mark_collection(&mut props, "book");
    assert!(matches!(props, Properties::Object(_)));
    assert_eq!(get(&props, "collection"), Some(&text("book")));
}

#[test]
fn clear_removes_only_the_marker() {
    let mut props = object(&[
        ("icon", text("📕")),
        ("collection", text("book")),
        ("collection-status", text("draft")),
    ]);
    clear_collection(&mut props);
    assert!(get(&props, "collection").is_none());
    assert!(get(&props, "collection-status").is_none());
    assert_eq!(get(&props, "icon"), Some(&text("📕")));
}

#[test]
fn clear_is_a_no_op_without_a_marker() {
    let mut props = object(&[("icon", text("📗"))]);
    clear_collection(&mut props);
    assert_eq!(props, object(&[("icon", text("📗"))]));

    let mut null_props = Properties::NotObject("null".to_string());
    clear_collection(&mut null_props);
    assert_eq!(null_props, Properties::NotObject("null".to_string()));
}

#[test]
fn full_lifecycle_round_trips_cleanly() {
    let mut props = object(&[("author", text("Ada"))]);
    mark_collection(&mut props, "book");
    let marked = page_with_props(props.clone());
    assert_eq!(collection_of(&marked).unwrap().kind, "book");
    clear_collection(&mut props);
    let cleared = page_with_props(props.clone());
    assert!(collection_of(&cleared).is_none());
    assert_eq!(get(&props, "author"), Some(&text("Ada")));
}

#[test]
fn kind_and_status_are_trimmed() {
    let page = page_with_props(object(&[
        ("collection", text("  book ")),
        ("collection-status", text("  ")),
    ]));
    let info = collection_of(&page).unwrap();
    assert_eq!(info.kind, "book");
    assert_eq!(info.status, None);
}
