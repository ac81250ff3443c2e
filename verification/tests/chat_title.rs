use grafium_core::chat_title::{choose_title, sanitize, title_from_question, title_prompt, MAX_TITLE_CHARS};

const QUESTION: &str = "can you flash a global os image onto the VIVO X300 Ultra?";

#[test]
fn a_plain_title_is_kept_as_is() {
    assert_eq!(
        sanitize("Flashing a global OS image", QUESTION).as_deref(),
        Some("Flashing a global OS image")
    );
}

#[test]
fn quotes_are_removed() {
    for raw in [
        "\"Flashing a global OS image\"",
        "'Flashing a global OS image'",
        "“Flashing a global OS image”",
        "`Flashing a global OS image`",
    ] {
        assert_eq!(
            sanitize(raw, QUESTION).as_deref(),
            Some("Flashing a global OS image"),
            "{raw}"
        );
    }
}

#[test]
fn a_title_label_is_removed() {
    for raw in [
        "Title: Flashing a global OS image",
        "TITLE: Flashing a global OS image",
        "Chat title: Flashing a global OS image",
    ] {
        assert_eq!(
            sanitize(raw, QUESTION).as_deref(),
            Some("Flashing a global OS image"),
            "{raw}"
        );
    }
}

#[test]
fn a_label_and_quotes_together_are_both_removed() {
    assert_eq!(
        sanitize("Title: \"Flashing a global OS image\"", QUESTION).as_deref(),
        Some("Flashing a global OS image")
    );
}

#[test]
fn narration_before_the_title_is_skipped() {
    for raw in [
        "Sure! Here is a short title:\n\nFlashing a global OS image",
        "Here's a title:\nFlashing a global OS image",
        "Okay.\nFlashing a global OS image",
    ] {
        assert_eq!(
            sanitize(raw, QUESTION).as_deref(),
            Some("Flashing a global OS image"),
            "{raw}"
        );
    }
}

#[test]
fn a_reply_that_is_only_narration_is_rejected() {
    assert_eq!(sanitize("Sure! Here is a short title:", QUESTION), None);
}

#[test]
fn a_reasoning_models_thinking_is_stripped() {
    let raw =
        "<think>The user wants a name. I should be brief.</think>\nFlashing a global OS image";
    assert_eq!(
        sanitize(raw, QUESTION).as_deref(),
        Some("Flashing a global OS image")
    );
}

#[test]
fn a_reply_that_is_only_thinking_is_rejected() {
    assert_eq!(sanitize("<think>Hmm, let me consider what", QUESTION), None);
}

#[test]
fn trailing_punctuation_is_removed() {
    assert_eq!(
        sanitize("Flashing a global OS image.", QUESTION).as_deref(),
        Some("Flashing a global OS image")
    );
}

#[test]
fn empty_and_whitespace_replies_are_rejected() {
    assert_eq!(sanitize("", QUESTION), None);
    assert_eq!(sanitize("   \n  \n", QUESTION), None);
}

#[test]
fn a_real_title_that_starts_with_a_junk_word_is_kept() {
    for raw in [
        "Chat history export",
        "Titles in the sidebar",
        "Conversation backups",
    ] {
        assert_eq!(sanitize(raw, QUESTION).as_deref(), Some(raw), "{raw}");
    }
}

#[test]
fn a_refusal_is_rejected_however_it_is_worded() {
    for raw in [
        "I cannot generate a title for this.",
        "I'm sorry, but I can't help with that.",
        "As an AI language model, I do not name conversations.",
    ] {
        assert_eq!(sanitize(raw, QUESTION), None, "{raw}");
    }
}

#[test]
fn a_title_that_says_nothing_is_rejected() {
    for raw in ["Title", "Conversation", "New chat", "Untitled", "Sure"] {
        assert_eq!(sanitize(raw, QUESTION), None, "{raw}");
    }
}

#[test]
fn an_answer_instead_of_a_title_is_rejected() {
    let raw = "Yes, you can flash a global ROM. First unlock the bootloader. \
               Then download the firmware. Finally run the flash tool.";
    assert_eq!(sanitize(raw, QUESTION), None);
}

#[test]
fn a_restatement_of_the_question_is_rejected() {
    let long_question = "what";
    assert_eq!(
        sanitize(
            "A very long title that is plainly longer than the question it claims to name",
            long_question
        ),
        None
    );
}

#[test]
fn a_long_title_is_clipped_on_a_word_boundary() {
    let raw = "Flashing a global operating system image onto a Chinese market phone";
    let title = sanitize(raw, raw).expect("a long but valid title is still usable");
    assert!(title.chars().count() <= MAX_TITLE_CHARS + 1, "{title}");
    assert!(title.ends_with('…'), "{title}");
    assert!(!title.contains("  "), "{title}");
}

#[test]
fn the_question_names_a_chat_when_the_model_cannot() {
    assert_eq!(
        title_from_question("  What can the VIVO X300 Ultra do?  "),
        "What can the VIVO X300 Ultra do?"
    );
}

#[test]
fn a_multiline_question_becomes_one_line() {
    assert_eq!(
        title_from_question("first line\n\nsecond line"),
        "first line second line"
    );
}

#[test]
fn an_empty_question_still_names_the_chat() {
    assert_eq!(title_from_question("   "), "New chat");
}

#[test]
fn clipping_keeps_the_word_boundary_exactly() {
    let long = "alpha beta gamma delta epsilon zeta eta theta iota kappa lambda";
    assert_eq!(
        title_from_question(long),
        "alpha beta gamma delta epsilon zeta eta theta…"
    );
}

#[test]
fn clipping_without_a_late_space_cuts_at_the_limit() {
    let long = "a ".to_string() + &"x".repeat(60);
    let title = title_from_question(&long);
    assert_eq!(title.chars().count(), MAX_TITLE_CHARS + 1);
    assert!(title.starts_with("a xxx"));
}

#[test]
fn a_dash_label_is_removed() {
    assert_eq!(
        sanitize("Title - Garden planning", QUESTION).as_deref(),
        Some("Garden planning")
    );
}

#[test]
fn the_naming_request_and_the_chosen_title() {
    assert_eq!(title_prompt("  What  is\nRust? ", ""), "Question: What is Rust?\n\nTitle:");
    assert_eq!(
        title_prompt("Why?", "Because   it is."),
        "Question: Why?\n\nAnswer: Because it is.\n\nTitle:"
    );
    let long = "x".repeat(500);
    assert_eq!(title_prompt("q", &long), format!("Question: q\n\nAnswer: {}\n\nTitle:", "x".repeat(400)));
    assert_eq!(choose_title(None, "How do I flash an OS image?"), "How do I flash an OS image?");
    assert_eq!(choose_title(Some("Flashing OS images".to_string()), "How do I flash an OS image?"), "Flashing OS images");
    assert_eq!(choose_title(Some("".to_string()), ""), "New chat");
}
