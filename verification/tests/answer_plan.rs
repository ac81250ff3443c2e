use grafium_core::answer_plan::{
    answer_plan, answer_system_prompt, scope_note, web_history, web_uses_excerpts, AnswerPlan,
    EvidenceKind,
};
use grafium_core::ask_budget::{ChatMessage, MessageRole};
use grafium_core::assistant_scope::ResearchWebMode;

#[test]
fn blank_questions_and_missing_models_are_refused() {
    assert_eq!(
        answer_plan("  ", EvidenceKind::Reading, ResearchWebMode::Off, true, false),
        Err("A Chat question is required.".to_string())
    );
    assert_eq!(
        answer_plan("why?", EvidenceKind::Reading, ResearchWebMode::Off, false, false),
        Err("Chat needs a configured AI model.".to_string())
    );
}

#[test]
fn the_plan_follows_the_evidence_and_the_web_mode() {
    assert_eq!(
        answer_plan("why?", EvidenceKind::Reading, ResearchWebMode::Off, true, true),
        Ok(AnswerPlan { output_tokens: 2048, notes_arm: true, web_arm: false, single_round: false })
    );
    assert_eq!(
        answer_plan("why?", EvidenceKind::Conversation, ResearchWebMode::Search, true, false),
        Ok(AnswerPlan { output_tokens: 1024, notes_arm: false, web_arm: true, single_round: true })
    );
    assert_eq!(
        answer_plan("why?", EvidenceKind::Graph, ResearchWebMode::Research, true, false),
        Ok(AnswerPlan { output_tokens: 1024, notes_arm: true, web_arm: true, single_round: false })
    );
}

#[test]
fn the_system_prompt_depends_on_the_evidence() {
    let none = answer_system_prompt(EvidenceKind::Conversation, ResearchWebMode::Off, "[1] x", "RULE");
    assert!(none.starts_with("Answer the user's question using general knowledge"));
    assert!(none.ends_with("external sources.\nRULE"));
    assert!(!none.contains("[1] x"));
    let graph = answer_system_prompt(EvidenceKind::Graph, ResearchWebMode::Off, "[1] x", "RULE");
    assert!(graph.ends_with("Graph excerpts:\n[1] x\n\nRULE"));
    let graph_web = answer_system_prompt(EvidenceKind::Graph, ResearchWebMode::Search, "[1] x", "RULE");
    assert!(graph_web.ends_with("Selected reading excerpts:\n[1] x\n\nRULE"));
}

#[test]
fn the_scope_note_counts_what_was_used() {
    assert_eq!(
        scope_note(EvidenceKind::Reading, 120, 7, 5),
        Some("Reading scope: 120 selected blocks, 7 source chunks; using 5 bounded excerpts. Long sources may be only partially covered; this is not a full-book review.".to_string())
    );
    assert_eq!(
        scope_note(EvidenceKind::Graph, 0, 0, 12),
        Some("Using 12 bounded relevant excerpts from this graph; coverage is partial.".to_string())
    );
    assert_eq!(scope_note(EvidenceKind::Conversation, 1, 2, 3), None);
}

fn msg(role: MessageRole, text: &str) -> ChatMessage {
    ChatMessage { role, content: text.to_string() }
}

#[test]
fn the_web_sees_the_fitted_conversation_only() {
    let messages = vec![
        msg(MessageRole::System, "prompt"),
        msg(MessageRole::System, "recap"),
        msg(MessageRole::User, "earlier"),
        msg(MessageRole::Assistant, "reply"),
        msg(MessageRole::User, "question"),
    ];
    let h = web_history(&messages);
    let got: Vec<(MessageRole, String)> = h.into_iter().map(|m| (m.role, m.content)).collect();
    assert_eq!(
        got,
        vec![
            (MessageRole::User, "recap".to_string()),
            (MessageRole::User, "earlier".to_string()),
            (MessageRole::Assistant, "reply".to_string()),
        ]
    );
    assert!(web_history(&messages[..1].to_vec()).is_empty());
    assert!(web_uses_excerpts(EvidenceKind::Reading, 2));
    assert!(!web_uses_excerpts(EvidenceKind::Reading, 0));
    assert!(!web_uses_excerpts(EvidenceKind::Conversation, 2));
}
