use grafium_core::ask_budget::{
    excerpt, fit_step, history_messages, prompt_limit, research_history, FitAction, FitState,
    MessageRole,
};
use grafium_core::conversation::ChatTurn;

fn long_history() -> Vec<ChatTurn> {
    (0..12)
        .map(|index| ChatTurn {
            role: if index % 2 == 0 { "user" } else { "assistant" }.into(),
            content: format!(
                "Prior exchange {index}: {} ending {index}",
                "synthetic 中文 context ".repeat(400)
            ),
        })
        .collect()
}

#[test]
fn history_excerpts_are_byte_bounded_without_mutating_the_visible_thread() {
    let history = long_history();
    let before = history.clone();
    for bytes in [0, 1, 40, 128, 1024, 4096] {
        let messages = history_messages(&history, bytes);
        assert!(
            messages
                .iter()
                .map(|message| message.content.len())
                .sum::<usize>()
                <= bytes
        );
        assert!(messages
            .iter()
            .all(|message| std::str::from_utf8(message.content.as_bytes()).is_ok()));
    }
    let messages = history_messages(&history, 4096);
    assert!(messages
        .iter()
        .any(|message| message.content.contains("excerpt shortened")));
    assert!(messages.last().unwrap().content.contains("ending 11"));
    assert_eq!(history, before);
}

#[test]
fn a_short_history_is_replayed_verbatim_with_roles() {
    let history = vec![
        ChatTurn { role: "user".into(), content: "What is cobalt?".into() },
        ChatTurn { role: "assistant".into(), content: "A metal.".into() },
    ];
    let messages = history_messages(&history, 1000);
    assert_eq!(messages.len(), 2);
    assert_eq!(messages[0].role, MessageRole::User);
    assert_eq!(messages[0].content, "What is cobalt?");
    assert_eq!(messages[1].role, MessageRole::Assistant);
    assert_eq!(messages[1].content, "A metal.");
    assert!(history_messages(&history, 0).is_empty());
    assert!(history_messages(&[], 100).is_empty());
}

#[test]
fn a_long_history_starts_with_a_system_recap_and_research_demotes_it() {
    let history = long_history();
    let messages = history_messages(&history, 4096);
    assert_eq!(messages[0].role, MessageRole::System);
    assert_eq!(messages.len(), 5);
    let research = research_history(&history, 1024);
    assert_eq!(research.len(), 5);
    assert!(research.iter().all(|m| m.role != MessageRole::System));
    assert_eq!(research[0].role, MessageRole::User);
}

#[test]
fn excerpt_keeps_head_and_tail_on_character_boundaries() {
    let original = "héllo wörld, this is a fairly long sentence to shorten".repeat(3);
    let text: Vec<char> = original.chars().collect();
    let short: String = excerpt(&text, 80).into_iter().collect();
    assert!(short.len() <= 80);
    assert!(short.starts_with("héllo wörld\n[..."));
    assert!(short.ends_with("...]\nce to shorten"));
    assert!(short.contains("excerpt shortened"));
    let tiny: String = excerpt(&text, 5).into_iter().collect();
    assert_eq!(tiny, "[... ");
    let fits: String = excerpt(&text, 1000).into_iter().collect();
    assert_eq!(fits, original);
}

#[test]
fn the_prompt_limit_leaves_room_for_the_answer() {
    assert_eq!(prompt_limit(8192, 1024), Ok(8192 - 1024 - 16));
    assert_eq!(prompt_limit(1040, 1024), Ok(0));
    assert_eq!(
        prompt_limit(1039, 1024),
        Err("The model context is too small to reserve room for an Ask answer.".to_string())
    );
    assert!(prompt_limit(10, 1024).is_err());
}

#[test]
fn each_fitting_step_shrinks_one_thing() {
    let st = FitState {
        history_bytes: 4000,
        thread_bytes: 3000,
        source_bytes: 2000,
        entry_count: 3,
        last_entry_bytes: 500,
    };
    assert_eq!(fit_step(st, 100, 100), FitAction::Fits);
    assert_eq!(fit_step(st, 101, 100), FitAction::ShrinkHistory(2000));
    let small = FitState { history_bytes: 100, ..st };
    assert_eq!(fit_step(small, 101, 100), FitAction::ShrinkHistory(0));
    let light = FitState { thread_bytes: 500, ..st };
    assert_eq!(fit_step(light, 101, 100), FitAction::DropLastEntry);
    let single = FitState { thread_bytes: 0, entry_count: 1, ..st };
    assert_eq!(fit_step(single, 101, 100), FitAction::ShortenLastEntry(250));
    let tiny = FitState { last_entry_bytes: 256, ..single };
    assert_eq!(fit_step(tiny, 101, 100), FitAction::Fail);
    let one_with_history = FitState { thread_bytes: 10, source_bytes: 100000, entry_count: 1, ..st };
    assert_eq!(fit_step(one_with_history, 101, 100), FitAction::ShrinkHistory(2000));
}
