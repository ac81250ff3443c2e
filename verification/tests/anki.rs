use grafium_core::anki::{
    build_anki_deck, build_anki_deck_checked, clean_field, deck_file_name, deck_ok_exec,
    extract_attr, media_progress_due, media_to_extract, model_sort_fields, parse_media_map, parse_models, slugify,
};

#[test]
fn test_slugify() {
    assert_eq!(slugify("GRE"), "gre");
    assert_eq!(slugify("Chinese HSK 1"), "chinese-hsk-1");
    assert_eq!(slugify("!!!"), "anki");
}

#[test]
fn test_clean_field_sound() {
    let mut refs = Vec::new();
    let out = clean_field("abandon [sound:abandon.mp3]", "gre", &mut refs);
    assert!(out.contains("![](../assets/anki/gre/abandon.mp3)"));
    assert!(refs.contains(&"abandon.mp3".to_string()));
}

#[test]
fn test_clean_field_html() {
    let mut refs = Vec::new();
    let out = clean_field("<b>bold</b><br>next &amp; more", "d", &mut refs);
    assert_eq!(out, "bold / next & more");
}

#[test]
fn test_clean_field_escapes_double_colon() {
    let mut refs = Vec::new();
    let out = clean_field("a :: b", "d", &mut refs);
    assert!(!out.contains("::"));
}

#[test]
fn test_clean_field_neutralizes_hash() {
    let mut refs = Vec::new();
    let out = clean_field("etymology #NAME? see #4804", "d", &mut refs);
    assert!(!out.contains('#'), "stray # should be neutralized: {out}");
    assert!(out.contains("NAME?"), "text content preserved: {out}");
}

#[test]
fn test_extract_attr() {
    assert_eq!(
        extract_attr("<img src=\"a.png\" alt=x>", "src"),
        Some("a.png".to_string())
    );
    assert_eq!(extract_attr("<img src='b.jpg'>", "src"), Some("b.jpg".to_string()));
}

#[test]
fn extract_attr_reads_unquoted_and_upper_case_names() {
    assert_eq!(extract_attr("<img SRC=c.gif alt=x>", "src"), Some("c.gif".to_string()));
    assert_eq!(extract_attr("<img alt=x>", "src"), None);
    assert_eq!(extract_attr("<img src=\"open", "src"), None);
    assert_eq!(extract_attr("<img src=", "src"), None);
}

#[test]
fn images_and_sounds_are_rewritten_and_recorded_once() {
    let mut refs = Vec::new();
    let out = clean_field(
        "<img src=\"x/y:z.png\"> [sound:a.mp3] again [sound:a.mp3] [sound: ] [sound:open",
        "deck",
        &mut refs,
    );
    assert_eq!(
        out,
        "![](../assets/anki/deck/y_z.png) ![](../assets/anki/deck/a.mp3) again ![](../assets/anki/deck/a.mp3) [sound:open"
    );
    assert_eq!(refs, vec!["a.mp3".to_string(), "x/y:z.png".to_string()]);
}

#[test]
fn a_deck_becomes_a_page_of_cards() {
    let notes = vec![
        ("1".to_string(), "front one\u{1f}back <b>one</b>".to_string()),
        ("1".to_string(), "   \u{1f}  ".to_string()),
        ("2".to_string(), "answer\u{1f}question".to_string()),
        ("3".to_string(), "lonely".to_string()),
    ];
    let sort_fields = vec![("2".to_string(), 1usize)];
    let deck = build_anki_deck("My Deck", &notes, &sort_fields);
    assert_eq!(deck.topic, "my-deck");
    assert_eq!(
        deck.lines,
        vec![
            "- front one :: back one  #my-deck".to_string(),
            "- question :: answer  #my-deck".to_string(),
            "- lonely  #my-deck".to_string(),
        ]
    );
    assert_eq!(deck.note_count, 4);
    assert_eq!(deck.card_count, 2);
    assert!(deck.content.starts_with(
        "# My Deck\n\nImported from Anki — 2 flashcards. Study them in **Flashcards** (sidebar): they belong to the `#my-deck` topic.\n\n- front one"
    ));
    assert!(deck.content.ends_with("- lonely  #my-deck\n"));
    assert!(deck.referenced.is_empty());
}

#[test]
fn deck_file_names_and_progress_throttle() {
    assert_eq!(deck_file_name("a/b"), "a_b.md");
    assert!(media_progress_due(0, 100));
    assert!(!media_progress_due(1, 100));
    assert!(media_progress_due(64, 100));
    assert!(media_progress_due(99, 100));
    assert!(!media_progress_due(0, 0));
}

#[test]
fn note_types_list_fields_in_ord_order() {
    let models = parse_models(
        r#"{"1":{"sortf":1,"flds":[{"ord":1,"name":"B"},{"ord":0,"name":"A"}]},"0":{"flds":[{"ord":2},{"name":"X"}]}}"#,
    );
    assert_eq!(
        models,
        vec![
            ("0".to_string(), vec!["X".to_string(), "".to_string()], 0usize),
            ("1".to_string(), vec!["A".to_string(), "B".to_string()], 1usize),
        ]
    );
    assert!(parse_models("not json").is_empty());
    assert!(parse_models("[1, 2]").is_empty());
}

#[test]
fn equal_ords_keep_their_order() {
    let models = parse_models(r#"{"5":{"flds":[{"ord":1,"name":"P"},{"ord":1,"name":"Q"},{"ord":0,"name":"R"}]}}"#);
    assert_eq!(models[0].1, vec!["R".to_string(), "P".to_string(), "Q".to_string()]);
}

#[test]
fn media_map_and_files_to_copy() {
    let media = parse_media_map(r#"{"0":"a.png","1":"b.mp3","2":"a.png"}"#);
    assert_eq!(
        media,
        vec![
            ("0".to_string(), "a.png".to_string()),
            ("1".to_string(), "b.mp3".to_string()),
            ("2".to_string(), "a.png".to_string()),
        ]
    );
    assert!(parse_media_map("{broken").is_empty());
    let refs = vec!["b.mp3".to_string(), "missing.jpg".to_string(), "a.png".to_string()];
    assert_eq!(
        media_to_extract(&refs, &media),
        vec![
            ("1".to_string(), "b.mp3".to_string()),
            ("2".to_string(), "a.png".to_string()),
        ]
    );
}

#[test]
fn a_field_that_cannot_be_read_refuses_the_deck() {
    let bad = vec![("1".to_string(), "<img alt=\"\u{130}\" src=\u{e9}x>".to_string())];
    assert!(!deck_ok_exec("D", &bad));
    assert!(build_anki_deck_checked("D", &bad, &[]).is_none());
    let good = vec![
        ("1".to_string(), "q <img src=\"p.png\">\u{1f}a".to_string()),
        ("1".to_string(), " \u{1f} ".to_string()),
    ];
    assert!(deck_ok_exec("D", &good));
    let deck = build_anki_deck_checked("D", &good, &[]).unwrap();
    assert_eq!(deck.note_count, 2);
    assert_eq!(deck.card_count, 1);
    assert_eq!(deck.lines, vec!["- q ![](../assets/anki/d/p.png) :: a  #d".to_string()]);
    assert_eq!(deck.referenced, vec!["p.png".to_string()]);
}

#[test]
fn the_sort_field_of_a_note_type_is_the_front() {
    let models = parse_models(r#"{"2":{"sortf":1,"flds":[{"ord":0,"name":"Back"},{"ord":1,"name":"Front"}]}}"#);
    let sort_fields = model_sort_fields(&models);
    assert_eq!(sort_fields, vec![("2".to_string(), 1usize)]);
    let notes = vec![("2".to_string(), "answer\u{1f}question".to_string())];
    let deck = build_anki_deck("Deck", &notes, &sort_fields);
    assert_eq!(deck.lines, vec!["- question :: answer  #deck".to_string()]);
}

#[test]
fn a_cleaned_field_is_one_line_without_separators_or_tags() {
    let mut refs = Vec::new();
    let out = clean_field("  a::b :::: #tag<br>x\n\ty &#35; ", "t", &mut refs);
    assert!(!out.contains("::"));
    assert!(!out.contains('#'));
    assert!(!out.contains('\n') && !out.contains('\t') && !out.contains("  "));
    assert_eq!(out, out.trim());
}
