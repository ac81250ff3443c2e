use grafium_core::engine::{
    ask_context_budget_with, build_context_block, build_notes_only_system_prompt, build_sources,
    build_system_prompt, describe_web_failure, format_date_ms, parse_cited_indices,
    render_web_section, AnswerMode, AskPhase, Citation, ContextEntry, ResearchTopic,
    WebResearchResult, ASK_DEFAULT_CONTEXT_BUDGET_TOKENS, ASK_MIN_CONTEXT_BUDGET_TOKENS,
    ASK_PROMPT_OVERHEAD_TOKENS, ASK_RESERVED_OUTPUT_TOKENS, ASK_THINKING_OUTPUT_TOKENS,
};

const MS_2026_03_14: i64 = 1_773_446_400_000;
const MS_2026_01_02: i64 = 1_767_312_000_000;

fn entries() -> Vec<ContextEntry> {
    vec![
        ContextEntry {
            index: 1,
            block_id: "b1".to_string(),
            page_id: "p1".to_string(),
            page_title: "2026-03-14".to_string(),
            date_ms: Some(MS_2026_03_14),
            note_created_ms: Some(0),
            is_journal: true,
            text: "felt upset about the deadline".to_string(),
        },
        ContextEntry {
            index: 2,
            block_id: "b2".to_string(),
            page_id: "p2".to_string(),
            page_title: "Rust".to_string(),
            date_ms: None,
            note_created_ms: None,
            is_journal: false,
            text: "ownership and borrowing".to_string(),
        },
        ContextEntry {
            index: 3,
            block_id: "b3".to_string(),
            page_id: "p3".to_string(),
            page_title: "home/renovation".to_string(),
            date_ms: None,
            note_created_ms: Some(MS_2026_01_02),
            is_journal: false,
            text: "painted the bedroom".to_string(),
        },
    ]
}

#[test]
fn context_block_renders_dated_cited_lines() {
    let block = build_context_block(&entries());
    assert!(block.contains("[1] 2026-03-14 (journal) — from \"2026-03-14\":"));
    assert!(block.contains("felt upset about the deadline"));
    assert!(block.contains("[2] undated — from \"Rust\":"));
    assert!(!block.contains("(journal) — from \"Rust\""));
    assert!(block
        .contains("[3] note saved 2026-01-02; event date unknown — from \"home/renovation\":"));
}

#[test]
fn context_block_is_empty_without_entries() {
    assert!(build_context_block(&[]).is_empty());
}

#[test]
fn context_block_has_exact_layout_and_no_trailing_blank() {
    let block = build_context_block(&entries()[1..2]);
    assert_eq!(block, "[2] undated — from \"Rust\":\nownership and borrowing");
}

#[test]
fn dates_are_rendered_as_utc_calendar_days() {
    assert_eq!(format_date_ms(MS_2026_03_14), "2026-03-14");
    assert_eq!(format_date_ms(0), "1970-01-01");
    assert_eq!(format_date_ms(-1), "1969-12-31");
    assert_eq!(format_date_ms(951_782_400_000), "2000-02-29");
    assert_eq!(format_date_ms(253_402_300_800_000), "+10000-01-01");
    assert_eq!(format_date_ms(-62_167_305_600_000), "-0001-12-31");
    assert_eq!(format_date_ms(8_210_266_790_400_000), "+262142-12-31");
    assert_eq!(format_date_ms(8_210_266_876_800_000), "");
    assert_eq!(format_date_ms(i64::MAX), "");
}

#[test]
fn system_prompt_supports_blended_answering() {
    let notes = build_system_prompt("[1] 2026-03-14 — from \"x\":\nhi", AnswerMode::Notes);
    assert!(!notes.to_lowercase().contains("only answer from"));
    assert!(notes.contains("Retrieved notes"));
    assert!(notes.contains("[1] 2026-03-14"));

    let blend = build_system_prompt("[1] x", AnswerMode::Blend);
    assert!(blend.contains("Retrieved notes"));
    assert!(blend.contains("general knowledge"));

    let general = build_system_prompt("", AnswerMode::General);
    assert!(general.contains("No relevant notes"));
    assert!(general.contains("general knowledge"));
}

#[test]
fn notes_only_prompt_forbids_general_knowledge_and_ends_with_the_notes() {
    let prompt = build_notes_only_system_prompt("[1] cobalt");
    assert!(prompt.contains("STRICTLY"));
    assert!(prompt.ends_with("date):\n\n[1] cobalt"));
}

#[test]
fn parse_cited_indices_extracts_used_markers() {
    let cited = parse_cited_indices("As [1] shows, and per [3], but not [x] or [12].");
    assert!(cited.contains(&1));
    assert!(cited.contains(&3));
    assert!(cited.contains(&12));
    assert!(!cited.contains(&2));
}

#[test]
fn cited_indices_are_distinct_in_order_of_first_use() {
    assert_eq!(parse_cited_indices("[2] [1] [2] [] [3 [4]"), vec![2, 1, 4]);
    assert_eq!(
        parse_cited_indices("[99999999999999999999999] [7]"),
        vec![7]
    );
}

#[test]
fn sources_keep_only_cited_entries_with_event_dates() {
    let sources = build_sources(&entries(), "See [3] and [1].");
    assert_eq!(sources.len(), 2);
    assert_eq!(sources[0].index, 1);
    assert_eq!(sources[0].date.as_deref(), Some("2026-03-14"));
    assert_eq!(sources[1].index, 3);
    assert_eq!(sources[1].date, None);
    assert!(build_sources(&entries(), "no markers").is_empty());
}

#[test]
fn ask_context_budget_is_model_aware_and_never_overflows() {
    let b4096 = ask_context_budget_with(Some(4096), ASK_RESERVED_OUTPUT_TOKENS);
    assert_eq!(
        b4096,
        4096 - ASK_PROMPT_OVERHEAD_TOKENS - ASK_RESERVED_OUTPUT_TOKENS
    );
    assert!(
        b4096 + ASK_PROMPT_OVERHEAD_TOKENS + ASK_RESERVED_OUTPUT_TOKENS <= 4096,
        "prompt + output must fit the window"
    );
    assert!(b4096 < 6000, "must not use the old unconditional 6000 budget");
    assert!(ask_context_budget_with(Some(8192), ASK_RESERVED_OUTPUT_TOKENS) > b4096);
    assert_eq!(
        ask_context_budget_with(None, ASK_RESERVED_OUTPUT_TOKENS),
        ASK_DEFAULT_CONTEXT_BUDGET_TOKENS
    );
    assert!(ask_context_budget_with(None, ASK_RESERVED_OUTPUT_TOKENS) <= 2048);
    assert_eq!(
        ask_context_budget_with(Some(256), ASK_RESERVED_OUTPUT_TOKENS),
        ASK_MIN_CONTEXT_BUDGET_TOKENS
    );
}

#[test]
fn thinking_models_reserve_more_output_and_still_fit_the_window() {
    let normal = ask_context_budget_with(Some(4096), ASK_RESERVED_OUTPUT_TOKENS);
    let thinking = ask_context_budget_with(Some(4096), ASK_THINKING_OUTPUT_TOKENS);
    assert!(
        ASK_THINKING_OUTPUT_TOKENS > ASK_RESERVED_OUTPUT_TOKENS,
        "thinking models must get a bigger output budget"
    );
    assert!(
        thinking < normal,
        "the larger output reservation must come out of the context budget"
    );
    assert!(
        thinking + ASK_PROMPT_OVERHEAD_TOKENS + ASK_THINKING_OUTPUT_TOKENS <= 4096,
        "prompt + (thinking) output must still fit the window"
    );
}

#[test]
fn render_web_section_includes_answer_and_topics_and_is_never_blank() {
    let full = WebResearchResult {
        title_answer: Some("Short direct answer.".to_string()),
        topics: vec![ResearchTopic {
            topic: "A topic".to_string(),
            summary: "Body with a marker[1].".to_string(),
            tags: vec![],
        }],
        citations: vec![Citation {
            number: 1,
            title: "S".to_string(),
            url: "https://s.example".to_string(),
        }],
    };
    let md = render_web_section(&full);
    assert!(md.contains("Short direct answer."));
    assert!(md.contains("**A topic**"));
    assert!(md.contains("Body with a marker[1]."));

    let empty = WebResearchResult {
        title_answer: None,
        topics: vec![],
        citations: vec![],
    };
    assert!(!render_web_section(&empty).trim().is_empty());
}

#[test]
fn web_section_has_exact_layout_and_skips_blank_summaries() {
    let result = WebResearchResult {
        title_answer: Some("  Answer.  ".to_string()),
        topics: vec![
            ResearchTopic { topic: "Skipped".to_string(), summary: "   ".to_string(), tags: vec![] },
            ResearchTopic { topic: " ".to_string(), summary: "Plain body.".to_string(), tags: vec![] },
        ],
        citations: vec![],
    };
    assert_eq!(render_web_section(&result), "Answer.\n\nPlain body.");
}

#[test]
fn web_failures_read_as_actionable_messages() {
    let throttled = describe_web_failure("returned HTTP 429 Too Many Requests");
    assert!(throttled.contains("rate-limiting"));
    assert!(throttled.contains("clears within a minute"));
    assert!(!throttled.contains("429"));
    assert!(describe_web_failure("TOO MANY REQUESTS").contains("rate-limiting"));
    let other = describe_web_failure("timeout");
    assert_eq!(
        other,
        "I couldn't complete the web research just now (timeout). Your notes answer above is unaffected — you can try again."
    );
}

#[test]
fn ask_phases_have_stable_wire_names() {
    assert_eq!(AskPhase::Retrieving.as_str(), "retrieving");
    assert_eq!(AskPhase::ProcessingPrompt.as_str(), "processing_prompt");
    assert_eq!(AskPhase::Synthesizing.as_str(), "synthesizing");
}
