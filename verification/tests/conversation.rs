use grafium_core::conversation::{
    estimate_tokens, fit_history, is_self_contained, render_compaction, resolve_followup,
    ChatTurn, MIN_VERBATIM_TURNS,
};

fn user(c: &str) -> ChatTurn {
    ChatTurn {
        role: "user".into(),
        content: c.into(),
    }
}
fn assistant(c: &str) -> ChatTurn {
    ChatTurn {
        role: "assistant".into(),
        content: c.into(),
    }
}

#[test]
fn a_question_with_its_own_topic_is_self_contained() {
    assert!(is_self_contained("what is scientology"));
    assert!(is_self_contained("does creatine cause cancer"));
    assert!(is_self_contained("when did I paint my room"));
}

#[test]
fn a_pure_back_reference_is_not_self_contained() {
    assert!(!is_self_contained(
        "can you look it up on the internet and give me more thorough answer?"
    ));
    assert!(!is_self_contained("look it up on the internet"));
    assert!(!is_self_contained("tell me more about that"));
    assert!(!is_self_contained("can you give me more?"));
}

#[test]
fn followup_borrows_the_topic_from_the_last_substantive_user_turn() {
    let history = vec![
        user("what is scientology"),
        assistant("Scientology is a religious movement…"),
    ];
    assert_eq!(
        resolve_followup("can you look it up on the internet", &history),
        "what is scientology"
    );
}

#[test]
fn followup_skips_intervening_back_references() {
    let history = vec![
        user("what is scientology"),
        assistant("…"),
        user("tell me more"),
        assistant("…"),
    ];
    assert_eq!(
        resolve_followup("look it up on the internet", &history),
        "what is scientology"
    );
}

#[test]
fn a_self_contained_question_is_never_rewritten() {
    let history = vec![user("what is scientology"), assistant("…")];
    assert_eq!(
        resolve_followup("does creatine cause cancer", &history),
        "does creatine cause cancer"
    );
}

#[test]
fn without_usable_history_the_question_is_left_alone() {
    assert_eq!(resolve_followup("look it up", &[]), "look it up");
    let only_assistant = vec![assistant("hello")];
    assert_eq!(
        resolve_followup("look it up", &only_assistant),
        "look it up"
    );
}

#[test]
fn short_conversations_are_replayed_whole() {
    let history = vec![user("a"), assistant("b")];
    let fitted = fit_history(&history, 1000);
    assert_eq!(fitted.verbatim.len(), 2);
    assert!(!fitted.needs_compaction());
    assert!(fit_history(&[], 1000).verbatim.is_empty());
}

#[test]
fn long_conversations_compact_the_oldest_turns() {
    let history: Vec<ChatTurn> = (0..40)
        .map(|i| user(&format!("question number {i} with some words in it")))
        .collect();
    let fitted = fit_history(&history, 100);
    assert!(fitted.needs_compaction());
    assert!(!fitted.verbatim.is_empty());
    assert_eq!(
        fitted.verbatim.len() + fitted.to_compact.len(),
        history.len(),
        "every turn must be accounted for — nothing may be dropped outright"
    );
    assert_eq!(
        fitted.verbatim.last().unwrap().content,
        history.last().unwrap().content
    );
}

#[test]
fn the_most_recent_turns_survive_a_tiny_budget() {
    let history: Vec<ChatTurn> = (0..10)
        .map(|i| user(&format!("a very long turn {i} {}", "padding ".repeat(50))))
        .collect();
    let fitted = fit_history(&history, 1);
    assert_eq!(fitted.verbatim.len(), MIN_VERBATIM_TURNS);
}

#[test]
fn compaction_recap_names_both_speakers() {
    let turns = vec![user("what is scientology"), assistant("It is a movement")];
    let recap = render_compaction(&turns);
    assert!(recap.contains("User: what is scientology"));
    assert!(recap.contains("Assistant: It is a movement"));
}

#[test]
fn the_user_role_is_matched_ignoring_ascii_case() {
    assert!(ChatTurn { role: "USER".into(), content: String::new() }.is_user());
    assert!(!ChatTurn { role: "assistant".into(), content: String::new() }.is_user());
}

#[test]
fn token_estimate_is_a_quarter_of_the_characters() {
    assert_eq!(estimate_tokens("abcdefgh"), 2);
    assert_eq!(estimate_tokens("abc"), 0);
}

#[test]
fn recap_clips_each_turn_to_220_characters() {
    let long = "x".repeat(300);
    let recap = render_compaction(&[user(&long)]);
    assert_eq!(
        recap,
        format!("Earlier in this conversation:\n- User: {}\n", "x".repeat(220))
    );
}
