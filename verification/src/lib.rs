//! Text processing, conversation handling and book-import logic of a
//! local-first knowledge base, with machine-checked contracts.
use vstd::prelude::*;

pub mod text;
pub mod unicode;
pub mod chat_title;
pub mod conversation;
pub mod ink;
pub mod registry;
pub mod patterns;
pub mod numbers;
pub mod books;
pub mod ask_budget;
pub mod engine;
pub mod collections;
pub mod anki;
pub mod reading_scope;
pub mod assistant_scope;
pub mod answer_plan;
pub mod providers;
pub mod archive;

verus! {

} // verus!
