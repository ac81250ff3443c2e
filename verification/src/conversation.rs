//! Carrying conversation context into a Chat question.
//!
//! A follow-up that leans on the conversation ("look it up on the internet")
//! gives retrieval nothing to search for, so it is rewritten into the most
//! recent user turn that names a topic of its own. Recent turns are replayed
//! verbatim; older ones are handed back for compaction into a recap.
use vstd::prelude::*;
use crate::text::{
    ascii_lower_seq, ascii_lowercase, chars_of, eq_ignore_ascii_case, eq_ignore_case, eq_str,
    lemma_chars_deep, push_all, push_str, slice, string_of, trim, trim_chars, words, words_exec, words_scan, is_ws,
};
use crate::unicode::{is_alphanumeric, spec_is_alphanumeric};

verus! {

/// One prior message in the Chat transcript.
#[derive(Debug, Clone, PartialEq, Eq)]
pub struct ChatTurn {
    /// `"user"` or `"assistant"`.
    pub role: String,
    pub content: String,
}

impl ChatTurn {
    /// Whether the turn was written by the user (role compared ignoring
    /// ASCII case).
    pub open spec fn is_user_spec(&self) -> bool {
        eq_ignore_case(self.role@, "user"@)
    }

    pub fn is_user(&self) -> (r: bool)
        ensures
            r == self.is_user_spec(),
    {
        let role = chars_of(self.role.as_str());
        let user = chars_of("user");
        eq_ignore_ascii_case(&role, &user)
    }
}

/// Never compact below this many recent turns, whatever the budget says.
pub const MIN_VERBATIM_TURNS: usize = 4;

/// Words that make a question a back-reference rather than a self-contained one.
pub open spec fn is_referent_word(w: Seq<char>) -> bool {
    ||| w == "it"@
    ||| w == "this"@
    ||| w == "that"@
    ||| w == "these"@
    ||| w == "those"@
    ||| w == "them"@
    ||| w == "they"@
    ||| w == "he"@
    ||| w == "she"@
    ||| w == "him"@
    ||| w == "her"@
    ||| w == "its"@
    ||| w == "their"@
    ||| w == "theirs"@
    ||| w == "same"@
    ||| w == "above"@
    ||| w == "previous"@
    ||| w == "last"@
}

/// Words carrying no topical signal.
pub open spec fn is_stopword(w: Seq<char>) -> bool {
    ||| w == "a"@
    ||| w == "about"@
    ||| w == "again"@
    ||| w == "an"@
    ||| w == "and"@
    ||| w == "answer"@
    ||| w == "any"@
    ||| w == "are"@
    ||| w == "as"@
    ||| w == "ask"@
    ||| w == "at"@
    ||| w == "be"@
    ||| w == "better"@
    ||| w == "but"@
    ||| w == "by"@
    ||| w == "can"@
    ||| w == "could"@
    ||| w == "detail"@
    ||| w == "details"@
    ||| w == "did"@
    ||| w == "do"@
    ||| w == "does"@
    ||| w == "elaborate"@
    ||| w == "expand"@
    ||| w == "explain"@
    ||| w == "for"@
    ||| w == "from"@
    ||| w == "further"@
    ||| w == "get"@
    ||| w == "give"@
    ||| w == "had"@
    ||| w == "has"@
    ||| w == "have"@
    ||| w == "how"@
    ||| w == "i"@
    ||| w == "in"@
    ||| w == "internet"@
    ||| w == "into"@
    ||| w == "is"@
    ||| w == "it"@
    ||| w == "just"@
    ||| w == "know"@
    ||| w == "look"@
    ||| w == "made"@
    ||| w == "make"@
    ||| w == "me"@
    ||| w == "more"@
    ||| w == "much"@
    ||| w == "my"@
    ||| w == "net"@
    ||| w == "of"@
    ||| w == "on"@
    ||| w == "online"@
    ||| w == "or"@
    ||| w == "please"@
    ||| w == "search"@
    ||| w == "see"@
    ||| w == "so"@
    ||| w == "some"@
    ||| w == "tell"@
    ||| w == "than"@
    ||| w == "that"@
    ||| w == "the"@
    ||| w == "their"@
    ||| w == "them"@
    ||| w == "then"@
    ||| w == "there"@
    ||| w == "these"@
    ||| w == "they"@
    ||| w == "this"@
    ||| w == "those"@
    ||| w == "thorough"@
    ||| w == "through"@
    ||| w == "to"@
    ||| w == "up"@
    ||| w == "us"@
    ||| w == "use"@
    ||| w == "was"@
    ||| w == "we"@
    ||| w == "web"@
    ||| w == "were"@
    ||| w == "what"@
    ||| w == "when"@
    ||| w == "where"@
    ||| w == "which"@
    ||| w == "who"@
    ||| w == "why"@
    ||| w == "will"@
    ||| w == "with"@
    ||| w == "would"@
    ||| w == "you"@
    ||| w == "your"@
}

fn is_referent_word_exec(w: &Vec<char>) -> (r: bool)
    ensures
        r == is_referent_word(w@),
{
    eq_str(w, "it")
        || eq_str(w, "this")
        || eq_str(w, "that")
        || eq_str(w, "these")
        || eq_str(w, "those")
        || eq_str(w, "them")
        || eq_str(w, "they")
        || eq_str(w, "he")
        || eq_str(w, "she")
        || eq_str(w, "him")
        || eq_str(w, "her")
        || eq_str(w, "its")
        || eq_str(w, "their")
        || eq_str(w, "theirs")
        || eq_str(w, "same")
        || eq_str(w, "above")
        || eq_str(w, "previous")
        || eq_str(w, "last")
}

fn is_stopword_exec(w: &Vec<char>) -> (r: bool)
    ensures
        r == is_stopword(w@),
{
    eq_str(w, "a")
        || eq_str(w, "about")
        || eq_str(w, "again")
        || eq_str(w, "an")
        || eq_str(w, "and")
        || eq_str(w, "answer")
        || eq_str(w, "any")
        || eq_str(w, "are")
        || eq_str(w, "as")
        || eq_str(w, "ask")
        || eq_str(w, "at")
        || eq_str(w, "be")
        || eq_str(w, "better")
        || eq_str(w, "but")
        || eq_str(w, "by")
        || eq_str(w, "can")
        || eq_str(w, "could")
        || eq_str(w, "detail")
        || eq_str(w, "details")
        || eq_str(w, "did")
        || eq_str(w, "do")
        || eq_str(w, "does")
        || eq_str(w, "elaborate")
        || eq_str(w, "expand")
        || eq_str(w, "explain")
        || eq_str(w, "for")
        || eq_str(w, "from")
        || eq_str(w, "further")
        || eq_str(w, "get")
        || eq_str(w, "give")
        || eq_str(w, "had")
        || eq_str(w, "has")
        || eq_str(w, "have")
        || eq_str(w, "how")
        || eq_str(w, "i")
        || eq_str(w, "in")
        || eq_str(w, "internet")
        || eq_str(w, "into")
        || eq_str(w, "is")
        || eq_str(w, "it")
        || eq_str(w, "just")
        || eq_str(w, "know")
        || eq_str(w, "look")
        || eq_str(w, "made")
        || eq_str(w, "make")
        || eq_str(w, "me")
        || eq_str(w, "more")
        || eq_str(w, "much")
        || eq_str(w, "my")
        || eq_str(w, "net")
        || eq_str(w, "of")
        || eq_str(w, "on")
        || eq_str(w, "online")
        || eq_str(w, "or")
        || eq_str(w, "please")
        || eq_str(w, "search")
        || eq_str(w, "see")
        || eq_str(w, "so")
        || eq_str(w, "some")
        || eq_str(w, "tell")
        || eq_str(w, "than")
        || eq_str(w, "that")
        || eq_str(w, "the")
        || eq_str(w, "their")
        || eq_str(w, "them")
        || eq_str(w, "then")
        || eq_str(w, "there")
        || eq_str(w, "these")
        || eq_str(w, "they")
        || eq_str(w, "this")
        || eq_str(w, "those")
        || eq_str(w, "thorough")
        || eq_str(w, "through")
        || eq_str(w, "to")
        || eq_str(w, "up")
        || eq_str(w, "us")
        || eq_str(w, "use")
        || eq_str(w, "was")
        || eq_str(w, "we")
        || eq_str(w, "web")
        || eq_str(w, "were")
        || eq_str(w, "what")
        || eq_str(w, "when")
        || eq_str(w, "where")
        || eq_str(w, "which")
        || eq_str(w, "who")
        || eq_str(w, "why")
        || eq_str(w, "will")
        || eq_str(w, "with")
        || eq_str(w, "would")
        || eq_str(w, "you")
        || eq_str(w, "your")
}

/// Drop leading characters that are not alphanumeric.
pub open spec fn trim_start_non_alnum(s: Seq<char>) -> Seq<char>
    decreases s.len(),
{
    if s.len() > 0 && !spec_is_alphanumeric(s[0]) {
        trim_start_non_alnum(s.drop_first())
    } else {
        s
    }
}

/// Drop trailing characters that are not alphanumeric.
pub open spec fn trim_end_non_alnum(s: Seq<char>) -> Seq<char>
    decreases s.len(),
{
    if s.len() > 0 && !spec_is_alphanumeric(s.last()) {
        trim_end_non_alnum(s.drop_last())
    } else {
        s
    }
}

/// A word with surrounding punctuation removed, ASCII-lower-cased.
pub open spec fn normalized_word(word: Seq<char>) -> Seq<char> {
    ascii_lower_seq(trim_end_non_alnum(trim_start_non_alnum(word)))
}

/// A word that carries a topic: non-empty, neither a referent nor a stopword.
pub open spec fn is_topic_word(word: Seq<char>) -> bool {
    let w = normalized_word(word);
    w.len() > 0 && !is_referent_word(w) && !is_stopword(w)
}

/// Whether `question` carries enough of its own topic for retrieval or a web
/// search to act on: some word survives stripping referents and stopwords.
pub open spec fn is_self_contained_spec(question: Seq<char>) -> bool {
    exists|i: int| 0 <= i < words(question).len() && is_topic_word(#[trigger] words(question)[i])
}

fn normalize_word(word: &Vec<char>) -> (r: Vec<char>)
    ensures
        r@ == normalized_word(word@),
{
    let mut i: usize = 0;
    proof {
        assert(word@.skip(0) =~= word@);
    }
    while i < word.len() && !is_alphanumeric(word[i])
        invariant
            i <= word.len(),
            trim_start_non_alnum(word@) == trim_start_non_alnum(word@.skip(i as int)),
        decreases word.len() - i,
    {
        proof {
            assert(word@.skip(i as int).drop_first() =~= word@.skip(i + 1));
        }
        i += 1;
    }
    let mut j: usize = word.len();
    proof {
        assert(word@.skip(i as int) =~= word@.subrange(i as int, j as int));
    }
    while j > i && !is_alphanumeric(word[j - 1])
        invariant
            i <= j <= word.len(),
            trim_end_non_alnum(trim_start_non_alnum(word@)) == trim_end_non_alnum(
                word@.subrange(i as int, j as int),
            ),
        decreases j,
    {
        proof {
            assert(word@.subrange(i as int, j as int).drop_last() =~= word@.subrange(
                i as int,
                j - 1,
            ));
        }
        j -= 1;
    }
    let core = slice(word, i, j);
    ascii_lowercase(&core)
}

fn is_topic_word_exec(word: &Vec<char>) -> (r: bool)
    ensures
        r == is_topic_word(word@),
{
    let w = normalize_word(word);
    w.len() > 0 && !is_referent_word_exec(&w) && !is_stopword_exec(&w)
}

fn is_self_contained_chars(question: &Vec<char>) -> (r: bool)
    ensures
        r == is_self_contained_spec(question@),
{
    let ws = words_exec(question);
    let mut i: usize = 0;
    while i < ws.len()
        invariant
            i <= ws.len(),
            ws.deep_view() == words(question@),
            forall|k: int| 0 <= k < i ==> !is_topic_word(#[trigger] words(question@)[k]),
        decreases ws.len() - i,
    {
        proof {
            lemma_chars_deep(&ws@[i as int]);
        }
        if is_topic_word_exec(&ws[i]) {
            proof {
                assert(is_topic_word(words(question@)[i as int]));
            }
            return true;
        }
        i += 1;
    }
    false
}

/// Whether `question` carries enough of its own topic for retrieval or a web
/// search to act on, or whether it leans on the conversation to make sense.
pub fn is_self_contained(question: &str) -> (r: bool)
    ensures
        r == is_self_contained_spec(question@),
{
    let q = chars_of(question);
    is_self_contained_chars(&q)
}

/// The most recent user turn (searching backwards) whose trimmed content is
/// non-empty and self-contained.
pub open spec fn last_substantive_user_turn_spec(history: Seq<ChatTurn>) -> Option<Seq<char>>
    decreases history.len(),
{
    if history.len() == 0 {
        None
    } else {
        let t = history.last();
        let c = trim(t.content@);
        if t.is_user_spec() && c.len() > 0 && is_self_contained_spec(c) {
            Some(c)
        } else {
            last_substantive_user_turn_spec(history.drop_last())
        }
    }
}

fn last_substantive_user_turn(history: &[ChatTurn]) -> (r: Option<Vec<char>>)
    ensures
        match r {
            Some(v) => last_substantive_user_turn_spec(history@) == Some(v@),
            None => last_substantive_user_turn_spec(history@) is None,
        },
{
    let mut j: usize = history.len();
    proof {
        assert(history@.take(j as int) =~= history@);
    }
    while j > 0
        invariant
            j <= history.len(),
            last_substantive_user_turn_spec(history@) == last_substantive_user_turn_spec(
                history@.take(j as int),
            ),
        decreases j,
    {
        let t = &history[j - 1];
        proof {
            assert(history@.take(j as int).drop_last() =~= history@.take(j - 1));
            assert(history@.take(j as int).last() == *t);
        }
        if t.is_user() {
            let content = chars_of(t.content.as_str());
            let c = trim_chars(&content);
            if c.len() > 0 && is_self_contained_chars(&c) {
                return Some(c);
            }
        }
        j -= 1;
    }
    None
}

/// A user turn that carries its own topic: written by the user, and its
/// trimmed text is non-empty and self-contained.
pub open spec fn is_substantive_turn(t: ChatTurn) -> bool {
    &&& eq_ignore_case(t.role@, "user"@)
    &&& trim(t.content@).len() > 0
    &&& is_self_contained_spec(trim(t.content@))
}

/// The topic borrowed from a history is the trimmed text of its latest
/// substantive user turn: some substantive turn with none after it; there
/// is none exactly when no turn is substantive.
pub proof fn lemma_latest_substantive_turn(history: Seq<ChatTurn>)
    ensures
        last_substantive_user_turn_spec(history) matches Some(c) ==> exists|k: int|
            0 <= k < history.len() && is_substantive_turn(#[trigger] history[k]) && c == trim(history[k].content@)
                && forall|j: int| k < j < history.len() ==> !is_substantive_turn(#[trigger] history[j]),
        last_substantive_user_turn_spec(history) is None <==> forall|k: int|
            0 <= k < history.len() ==> !is_substantive_turn(#[trigger] history[k]),
    decreases history.len(),
{
    if history.len() > 0 {
        let prev = history.drop_last();
        lemma_latest_substantive_turn(prev);
        let n = history.len() - 1;
        let t = history.last();
        if is_substantive_turn(t) {
            assert(t.is_user_spec());
            let c = trim(t.content@);
            assert(history[n] == t);
        } else {
            assert(!(t.is_user_spec() && trim(t.content@).len() > 0 && is_self_contained_spec(trim(t.content@))));
            if let Some(c) = last_substantive_user_turn_spec(prev) {
                let k = choose|k: int|
                    0 <= k < prev.len() && is_substantive_turn(#[trigger] prev[k]) && c == trim(prev[k].content@)
                        && forall|j: int| k < j < prev.len() ==> !is_substantive_turn(#[trigger] prev[j]);
                assert(history[k] == prev[k]);
                assert forall|j: int| k < j < history.len() implies !is_substantive_turn(#[trigger] history[j]) by {
                    if j < n {
                        assert(history[j] == prev[j]);
                    }
                }
            } else {
                assert forall|k: int| 0 <= k < history.len() implies !is_substantive_turn(#[trigger] history[k]) by {
                    if k < n {
                        assert(history[k] == prev[k]);
                    }
                }
            }
            if last_substantive_user_turn_spec(history) is None {
            } else {
                assert(!(forall|k: int| 0 <= k < history.len() ==> !is_substantive_turn(#[trigger] history[k]))) by {
                    let c = last_substantive_user_turn_spec(prev)->0;
                    let k = choose|k: int|
                        0 <= k < prev.len() && is_substantive_turn(#[trigger] prev[k]) && c == trim(prev[k].content@)
                            && forall|j: int| k < j < prev.len() ==> !is_substantive_turn(#[trigger] prev[j]);
                    assert(history[k] == prev[k]);
                }
            }
        }
    }
}

/// A follow-up that is not self-contained takes the topic of the latest
/// substantive user turn (the trimmed text of a substantive turn with no
/// substantive turn after it), and stays as asked when there is none; a
/// self-contained question is its own query.
pub proof fn lemma_followup_takes_latest_topic(question: Seq<char>, history: Seq<ChatTurn>)
    ensures
        is_self_contained_spec(question) ==> resolve_followup_spec(question, history) == question,
        !is_self_contained_spec(question) && (forall|k: int| 0 <= k < history.len() ==> !is_substantive_turn(#[trigger] history[k]))
            ==> resolve_followup_spec(question, history) == question,
        !is_self_contained_spec(question) && (exists|k: int| 0 <= k < history.len() && is_substantive_turn(#[trigger] history[k]))
            ==> exists|k: int|
            0 <= k < history.len() && is_substantive_turn(#[trigger] history[k]) && resolve_followup_spec(question, history)
                == trim(history[k].content@) && forall|j: int| k < j < history.len() ==> !is_substantive_turn(#[trigger] history[j]),
{
    lemma_latest_substantive_turn(history);
}

/// The retrieval query for a question: unchanged when self-contained,
/// otherwise the topic of the last substantive user turn, if any.
pub open spec fn resolve_followup_spec(question: Seq<char>, history: Seq<ChatTurn>) -> Seq<
    char,
> {
    if is_self_contained_spec(question) {
        question
    } else {
        match last_substantive_user_turn_spec(history) {
            Some(topic) => topic,
            None => question,
        }
    }
}

/// Rewrite a back-referencing follow-up into a standalone query by borrowing
/// the topic from the most recent self-contained user turn.
pub fn resolve_followup(question: &str, history: &[ChatTurn]) -> (r: String)
    ensures
        r@ == resolve_followup_spec(question@, history@),
{
    let q = chars_of(question);
    if is_self_contained_chars(&q) {
        return string_of(&q);
    }
    match last_substantive_user_turn(history) {
        Some(topic) => string_of(&topic),
        None => string_of(&q),
    }
}

// ---------------------------------------------------------------------------
// Fitting a transcript into a budget.
// ---------------------------------------------------------------------------

/// Rough token estimate of a text: four characters per token.
pub open spec fn estimate_tokens_spec(text: Seq<char>) -> nat {
    text.len() / 4
}

/// Rough token estimate of a text: its character count divided by four.
pub fn estimate_tokens(text: &str) -> (r: usize)
    ensures
        r == estimate_tokens_spec(text@),
{
    let v = chars_of(text);
    v.len() / 4
}

/// Total estimated cost of the turns.
pub open spec fn turns_cost(turns: Seq<ChatTurn>) -> nat
    decreases turns.len(),
{
    if turns.len() == 0 {
        0
    } else {
        turns_cost(turns.drop_last()) + estimate_tokens_spec(turns.last().content@)
    }
}

/// How many of the newest turns are kept verbatim: walking back from the
/// newest, a turn is kept unless at least `MIN_VERBATIM_TURNS` are already
/// kept and it would take the spent tokens past the budget.
pub open spec fn kept_count(history: Seq<ChatTurn>, budget: nat, kept: nat, used: nat) -> nat
    decreases history.len() - kept,
{
    if kept >= history.len() {
        kept
    } else {
        let cost = estimate_tokens_spec(history[history.len() - 1 - kept].content@);
        if kept >= MIN_VERBATIM_TURNS && used + cost > budget {
            kept
        } else {
            kept_count(history, budget, kept + 1, used + cost)
        }
    }
}

/// How a transcript was fitted into the available budget.
#[derive(Debug, Clone, PartialEq, Eq)]
pub struct FittedHistory<'a> {
    /// Turns replayed verbatim, oldest first.
    pub verbatim: &'a [ChatTurn],
    /// Turns too old to replay in full, which the caller should compact into a
    /// summary. Empty when the whole conversation fits.
    pub to_compact: &'a [ChatTurn],
}

impl<'a> FittedHistory<'a> {
    /// Whether anything had to be dropped from the verbatim replay.
    pub fn needs_compaction(&self) -> (r: bool)
        ensures
            r == (self.to_compact@.len() > 0),
    {
        self.to_compact.len() != 0
    }
}

/// Split `history` into the newest turns that fit within `budget_tokens` and
/// the older remainder that needs compacting.
pub fn fit_history(history: &[ChatTurn], budget_tokens: usize) -> (r: FittedHistory<'_>)
    requires
        turns_cost(history@) <= usize::MAX,
    ensures
        r.to_compact@ + r.verbatim@ == history@,
        r.verbatim@.len() == kept_count(history@, budget_tokens as nat, 0, 0),
        r.verbatim@.len() >= if history@.len() < MIN_VERBATIM_TURNS {
            history@.len()
        } else {
            MIN_VERBATIM_TURNS as nat
        },
{
    let mut used: usize = 0;
    let mut kept: usize = 0;
    while kept < history.len()
        invariant
            kept <= history.len(),
            used == turns_cost(history@.skip(history@.len() - kept)),
            turns_cost(history@) <= usize::MAX,
            kept_count(history@, budget_tokens as nat, 0, 0) == kept_count(
                history@,
                budget_tokens as nat,
                kept as nat,
                used as nat,
            ),
        ensures
            kept <= history.len(),
            kept_count(history@, budget_tokens as nat, 0, 0) == kept,
        decreases history.len() - kept,
    {
        let turn = &history[history.len() - 1 - kept];
        let cost = estimate_tokens(turn.content.as_str());
        proof {
            let n = history@.len();
            let suffix = history@.skip(n - kept - 1);
            assert(suffix.drop_last() =~= history@.skip(n - kept - 1).take(kept as int));
            lemma_cost_suffix(history@, (n - kept - 1) as int);
        }
        if kept >= MIN_VERBATIM_TURNS && used + cost > budget_tokens {
            break;
        }
        used = used + cost;
        kept = kept + 1;
    }
    proof {
        lemma_kept_min(history@, budget_tokens as nat, 0, 0);
    }
    let split = history.len() - kept;
    let verbatim = vstd::slice::slice_subrange(history, split, history.len());
    let to_compact = vstd::slice::slice_subrange(history, 0, split);
    proof {
        assert(history@.subrange(split as int, history@.len() as int) =~= history@.skip(split as int));
        assert(history@.subrange(0, split as int) =~= history@.take(split as int));
    }
    proof {
        assert(to_compact@ + verbatim@ =~= history@);
    }
    FittedHistory { verbatim, to_compact }
}

/// The cost of a suffix grows by the turn in front of it, and never exceeds
/// the cost of the whole history.
proof fn lemma_cost_suffix(h: Seq<ChatTurn>, k: int)
    requires
        0 <= k < h.len(),
    ensures
        turns_cost(h.skip(k)) == turns_cost(h.skip(k + 1)) + estimate_tokens_spec(h[k].content@),
        turns_cost(h.skip(k)) <= turns_cost(h),
    decreases h.len(),
{
    assert(h.skip(k).drop_last() =~= h.drop_last().skip(k)) by {
    };
    if k == h.len() - 1 {
        assert(h.skip(k + 1) =~= Seq::<ChatTurn>::empty());
        assert(h.skip(k).drop_last() =~= Seq::<ChatTurn>::empty());
        lemma_cost_nonneg_prefix(h, k);
    } else {
        lemma_cost_suffix(h.drop_last(), k);
        assert(h.skip(k + 1).drop_last() =~= h.drop_last().skip(k + 1));
        assert(h.skip(k).last() == h.last());
        assert(h.skip(k + 1).last() == h.last());
    }
}

proof fn lemma_cost_nonneg_prefix(h: Seq<ChatTurn>, k: int)
    requires
        0 <= k < h.len(),
    ensures
        turns_cost(h.skip(k)) <= turns_cost(h),
    decreases h.len(),
{
    if k == 0 {
        assert(h.skip(0) =~= h);
    } else {
        lemma_cost_nonneg_prefix(h.drop_first(), k - 1);
        assert(h.drop_first().skip(k - 1) =~= h.skip(k));
        lemma_cost_front(h);
    }
}

proof fn lemma_cost_front(h: Seq<ChatTurn>)
    requires
        h.len() > 0,
    ensures
        turns_cost(h) == estimate_tokens_spec(h[0].content@) + turns_cost(h.drop_first()),
    decreases h.len(),
{
    if h.len() == 1 {
        assert(h.drop_first() =~= Seq::<ChatTurn>::empty());
        assert(h.drop_last() =~= Seq::<ChatTurn>::empty());
    } else {
        lemma_cost_front(h.drop_last());
        assert(h.drop_last().drop_first() =~= h.drop_first().drop_last());
        assert(h.drop_first().last() == h.last());
    }
}

/// The walk keeps at least `MIN_VERBATIM_TURNS` turns when there are that many.
proof fn lemma_kept_min(h: Seq<ChatTurn>, budget: nat, kept: nat, used: nat)
    requires
        kept <= h.len(),
    ensures
        kept_count(h, budget, kept, used) >= kept,
        kept_count(h, budget, kept, used) <= h.len(),
        kept_count(h, budget, kept, used) >= if h.len() < MIN_VERBATIM_TURNS {
            h.len()
        } else {
            MIN_VERBATIM_TURNS as nat
        },
    decreases h.len() - kept,
{
    if kept < h.len() {
        let cost = estimate_tokens_spec(h[h.len() - 1 - kept].content@);
        if !(kept >= MIN_VERBATIM_TURNS && used + cost > budget) {
            lemma_kept_min(h, budget, kept + 1, used + cost);
        }
    }
}

/// The recap of compacted turns: a header line, then one line per turn naming
/// the speaker and giving the first 220 characters of the trimmed content.
pub open spec fn compaction_line(turn: ChatTurn) -> Seq<char> {
    "- "@ + (if turn.is_user_spec() {
        "User"@
    } else {
        "Assistant"@
    }) + ": "@ + trim(turn.content@).take(
        if trim(turn.content@).len() < 220 {
            trim(turn.content@).len() as int
        } else {
            220
        },
    ) + "\n"@
}

pub open spec fn render_compaction_spec(turns: Seq<ChatTurn>) -> Seq<char>
    decreases turns.len(),
{
    if turns.len() == 0 {
        "Earlier in this conversation:\n"@
    } else {
        render_compaction_spec(turns.drop_last()) + compaction_line(turns.last())
    }
}

/// Render already-compacted turns as a single system-visible recap, so the
/// model retains the thread of a long conversation without replaying it.
pub fn render_compaction(turns: &[ChatTurn]) -> (r: String)
    ensures
        r@ == render_compaction_spec(turns@),
{
    let mut out = chars_of("Earlier in this conversation:\n");
    let mut i: usize = 0;
    while i < turns.len()
        invariant
            i <= turns.len(),
            out@ == render_compaction_spec(turns@.take(i as int)),
        decreases turns.len() - i,
    {
        let turn = &turns[i];
        push_str(&mut out, "- ");
        if turn.is_user() {
            push_str(&mut out, "User");
        } else {
            push_str(&mut out, "Assistant");
        }
        push_str(&mut out, ": ");
        let content = chars_of(turn.content.as_str());
        let t = trim_chars(&content);
        let n = if t.len() < 220 {
            t.len()
        } else {
            220
        };
        let brief = slice(&t, 0, n);
        push_all(&mut out, &brief);
        push_str(&mut out, "\n");
        proof {
            assert(brief@ =~= t@.take(n as int));
            assert(turns@.take(i + 1).drop_last() =~= turns@.take(i as int));
            assert(turns@.take(i + 1).last() == *turn);
        }
        i += 1;
    }
    proof {
        assert(turns@.take(i as int) =~= turns@);
    }
    string_of(&out)
}


/// Scanning on from a word boundary adds the words of what follows.
proof fn lemma_words_scan_append(p: Seq<char>, y: Seq<char>)
    requires
        words_scan(p).1.len() == 0,
    ensures
        words_scan(p + y) == (words_scan(p).0 + words_scan(y).0, words_scan(y).1),
    decreases y.len(),
{
    if y.len() == 0 {
        assert(p + y =~= p);
        assert(words_scan(p).0 + Seq::<Seq<char>>::empty() =~= words_scan(p).0);
    } else {
        lemma_words_scan_append(p, y.drop_last());
        assert((p + y).drop_last() =~= p + y.drop_last());
        assert((p + y).last() == y.last());
        let (dy, cy) = words_scan(y.drop_last());
        assert((words_scan(p).0 + dy).push(cy) =~= words_scan(p).0 + dy.push(cy));
    }
}

/// The words of two texts joined by a space are the words of each.
pub proof fn lemma_words_join(a: Seq<char>, b: Seq<char>)
    ensures
        words(a + seq![' '] + b) == words(a) + words(b),
{
    let p = a + seq![' '];
    assert(p.drop_last() =~= a);
    assert(is_ws(' '));
    assert(words_scan(p).0 == words(a));
    lemma_words_scan_append(p, b);
    let (db, cb) = words_scan(b);
    assert(words(a) + db.push(cb) =~= (words(a) + db).push(cb));
}

/// How `is_self_contained` (whose result is `is_self_contained_spec`)
/// behaves when text is appended: a self-contained question `a` stays
/// self-contained with any `b` after it or before it (`"{a} {b}"`,
/// `"{b} {a}"`); and when every whitespace-separated word of `b`
/// normalizes to nothing, to a referent word or to a stopword, `"{a} {b}"`
/// is self-contained exactly when `a` is.
pub proof fn lemma_self_contained_append(a: Seq<char>, b: Seq<char>)
    ensures
        is_self_contained_spec(a) ==> is_self_contained_spec(a + seq![' '] + b),
        is_self_contained_spec(a) ==> is_self_contained_spec(b + seq![' '] + a),
        (forall|i: int|
            0 <= i < words(b).len() ==> {
                let w = normalized_word(#[trigger] words(b)[i]);
                w.len() == 0 || is_referent_word(w) || is_stopword(w)
            }) ==> (is_self_contained_spec(a + seq![' '] + b) == is_self_contained_spec(a)),
{
    lemma_words_join(a, b);
    lemma_words_join(b, a);
    let wab = words(a + seq![' '] + b);
    let wba = words(b + seq![' '] + a);
    if is_self_contained_spec(a) {
        let i = choose|i: int| 0 <= i < words(a).len() && is_topic_word(#[trigger] words(a)[i]);
        assert(wab[i] == words(a)[i]);
        assert(wba[words(b).len() + i] == words(a)[i]);
    }
    if forall|i: int| 0 <= i < words(b).len() ==> !is_topic_word(#[trigger] words(b)[i]) {
        if is_self_contained_spec(a + seq![' '] + b) {
            let i = choose|i: int| 0 <= i < wab.len() && is_topic_word(#[trigger] wab[i]);
            if i >= words(a).len() {
                assert(wab[i] == words(b)[i - words(a).len()]);
            } else {
                assert(wab[i] == words(a)[i]);
            }
        }
    }
}

} // verus!
