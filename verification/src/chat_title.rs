//! Naming a conversation from its opening exchange.
//!
//! The opening question is a serviceable name on its own; a model's proposed
//! title replaces it only when the reply survives the clean-up below. A reply
//! that is empty, a refusal, a restatement of the question or a paragraph is
//! rejected, so the caller keeps the question.
use vstd::prelude::*;
use crate::text::{
    chars_of, char_index_of_byte, char_index_of_byte_exec, collapse, collapse_exec,
    count_matches, count_matches_exec, ends_with, ends_with_str, eq_str, find, lemma_chars_deep,
    lemma_char_index_of_byte, lemma_find_from, lemma_find_shift, lemma_rfind_to,
    lemma_utf8_len_bounds, lemma_utf8_len_prefix_mono, utf8_len_checked, utf8_len_exceeds, lines, lines_exec, owned, push_all, push_str, rfind, rfind_exec, slice,
    starts_with, starts_with_exec, starts_with_str, string_of, trim, trim_chars,
    trim_end_set, trim_end_set_chars, utf8_len, utf8_len_exec, find_from_exec,
};
use crate::unicode::{spec_str_lowercase, str_lowercase};

verus! {

/// Longer than this and the switcher just shows an ellipsis anyway.
pub const MAX_TITLE_CHARS: usize = 48;

// ---------------------------------------------------------------------------
// Specification.
// ---------------------------------------------------------------------------

/// Clip on a word boundary so a title never ends mid-word: keep the first
/// `MAX_TITLE_CHARS` characters, cut back to the last space when that space
/// lies past the middle (measured in UTF-8 bytes), and mark the cut with `…`.
pub open spec fn clip_spec(t: Seq<char>) -> Seq<char> {
    if t.len() <= MAX_TITLE_CHARS {
        t
    } else {
        let c = t.take(MAX_TITLE_CHARS as int);
        match rfind(c, " "@) {
            Some(k) => if 0 <= k <= c.len() && utf8_len(c.take(k)) > MAX_TITLE_CHARS / 2 {
                c.take(k) + "…"@
            } else {
                c + "…"@
            },
            None => c + "…"@,
        }
    }
}

/// The name given to a chat from its question alone.
pub open spec fn title_from_question_spec(q: Seq<char>) -> Seq<char> {
    if collapse(q).len() == 0 {
        "New chat"@
    } else {
        clip_spec(collapse(q))
    }
}

/// Whether a line announces a title rather than giving one.
pub open spec fn is_lead_in_spec(line: Seq<char>) -> bool {
    let lowered = spec_str_lowercase(trim(line));
    if starts_with(lowered, "title:"@) && utf8_len(lowered) > 7 {
        false
    } else if ends_with(lowered, ":"@) {
        true
    } else {
        ||| starts_with(lowered, "here is"@)
        ||| starts_with(lowered, "here's"@)
        ||| starts_with(lowered, "sure"@)
        ||| starts_with(lowered, "certainly"@)
        ||| starts_with(lowered, "of course"@)
        ||| starts_with(lowered, "okay"@)
    }
}

/// Text with every `<think>…</think>` block removed; an unterminated block
/// swallows the rest of the text.
pub open spec fn strip_thinking_spec(t: Seq<char>) -> Seq<char>
    decreases t.len(),
{
    match find(t, "<think>"@) {
        None => t,
        Some(start) => if 0 <= start <= t.len() {
            match find(t.skip(start), "</think>"@) {
                Some(end) => if 0 <= end && start + end + "</think>"@.len() <= t.len()
                    && "</think>"@.len() > 0 {
                    t.take(start) + strip_thinking_spec(t.skip(start + end + "</think>"@.len()))
                } else {
                    t.take(start)
                },
                None => t.take(start),
            }
        } else {
            t
        },
    }
}

/// One label removal: when the lower-cased text starts with `label`, the text
/// after the label's byte span, trimmed. When that byte position is not a
/// character boundary the text is kept as it is, and so it is when a byte
/// length does not fit in `usize`.
pub open spec fn strip_one_label(text: Seq<char>, label: Seq<char>) -> Option<Seq<char>> {
    let lowered = spec_str_lowercase(text);
    if starts_with(lowered, label) && (utf8_len(text) > usize::MAX || utf8_len(lowered)
        > usize::MAX) {
        Some(text)
    } else if starts_with(lowered, label) {
        let offset = utf8_len(text) as int - (utf8_len(lowered) as int - utf8_len(label) as int);
        match char_index_of_byte(text, offset) {
            Some(k) => Some(trim(text.skip(k))),
            None => Some(text),
        }
    } else {
        None
    }
}

/// Drop a leading `Title:` / `Chat title:` / `Conversation title:` / `Title -`
/// label, trying them in that order.
pub open spec fn strip_label_spec(text: Seq<char>) -> Seq<char> {
    match strip_one_label(text, "title:"@) {
        Some(r) => r,
        None => match strip_one_label(text, "chat title:"@) {
            Some(r) => r,
            None => match strip_one_label(text, "conversation title:"@) {
                Some(r) => r,
                None => match strip_one_label(text, "title -"@) {
                    Some(r) => r,
                    None => text,
                },
            },
        },
    }
}

/// Whether a trimmed text is wrapped in one of the recognised quote pairs.
pub open spec fn quoted(t: Seq<char>) -> bool {
    t.len() >= 2 && ((t[0] == '"' && t.last() == '"') || (t[0] == '\'' && t.last() == '\'') || (
    t[0] == '“' && t.last() == '”') || (t[0] == '«' && t.last() == '»') || (t[0] == '`'
        && t.last() == '`'))
}

/// Trim, then remove one pair of surrounding quotes (and trim again).
pub open spec fn unwrap_quotes_spec(text: Seq<char>) -> Seq<char> {
    let t = trim(text);
    if quoted(t) {
        trim(t.subrange(1, t.len() - 1))
    } else {
        t
    }
}

/// Punctuation removed from the end of a candidate title.
pub open spec fn trailing_punct() -> Seq<char> {
    seq!['.', ',', ':', ';', '!']
}

/// Replies that name nothing, matched as whole strings.
pub open spec fn is_empty_title(lowered: Seq<char>) -> bool {
    ||| lowered == "title"@
    ||| lowered == "conversation"@
    ||| lowered == "new chat"@
    ||| lowered == "untitled"@
    ||| lowered == "chat"@
    ||| lowered == "sure"@
    ||| lowered == "none"@
}

/// How a model starts a refusal, matched as prefixes.
pub open spec fn is_refusal(lowered: Seq<char>) -> bool {
    ||| starts_with(lowered, "i cannot"@)
    ||| starts_with(lowered, "i can't"@)
    ||| starts_with(lowered, "i am unable"@)
    ||| starts_with(lowered, "i'm unable"@)
    ||| starts_with(lowered, "i am sorry"@)
    ||| starts_with(lowered, "i'm sorry"@)
    ||| starts_with(lowered, "as an ai"@)
    ||| starts_with(lowered, "here is"@)
}

/// The first non-empty trimmed line that is not a lead-in.
pub open spec fn first_candidate(lines: Seq<Seq<char>>) -> Option<Seq<char>>
    decreases lines.len(),
{
    if lines.len() == 0 {
        None
    } else if trim(lines[0]).len() > 0 && !is_lead_in_spec(trim(lines[0])) {
        Some(trim(lines[0]))
    } else {
        first_candidate(lines.drop_first())
    }
}

/// The candidate after label, quote, white-space and punctuation clean-up.
pub open spec fn cleaned_candidate(c0: Seq<char>) -> Seq<char> {
    let c1 = strip_label_spec(c0);
    let c2 = unwrap_quotes_spec(c1);
    let c3 = collapse(c2);
    let c4 = trim(trim_end_set(c3, trailing_punct()));
    unwrap_quotes_spec(c4)
}

/// A usable title made from a model's reply, or `None` to keep the question.
pub open spec fn sanitize_spec(raw: Seq<char>, question: Seq<char>) -> Option<Seq<char>> {
    match first_candidate(lines(strip_thinking_spec(raw))) {
        None => None,
        Some(c0) => {
            let c = cleaned_candidate(c0);
            let limit = if collapse(question).len() > MAX_TITLE_CHARS {
                collapse(question).len()
            } else {
                MAX_TITLE_CHARS as nat
            };
            if c.len() == 0 {
                None
            } else if is_empty_title(spec_str_lowercase(c)) || is_refusal(spec_str_lowercase(c)) {
                None
            } else if c.len() > limit {
                None
            } else if count_matches(c, ". "@) >= 2 {
                None
            } else {
                Some(clip_spec(c))
            }
        },
    }
}

// ---------------------------------------------------------------------------
// Implementation.
// ---------------------------------------------------------------------------

/// Clip a title to `MAX_TITLE_CHARS` characters plus an ellipsis.
fn clip(text: &Vec<char>) -> (r: Vec<char>)
    ensures
        r@ == clip_spec(text@),
        text@.len() > 0 ==> r@.len() > 0,
        r@.len() <= MAX_TITLE_CHARS + 1,
        text@.len() <= MAX_TITLE_CHARS ==> r@ == text@,
{
    proof {
        reveal_strlit("…");
    }
    if text.len() <= MAX_TITLE_CHARS {
        return slice(text, 0, text.len());
    }
    let clipped = slice(text, 0, MAX_TITLE_CHARS);
    proof {
        assert(clipped@ =~= text@.take(MAX_TITLE_CHARS as int));
    }
    let space = chars_of(" ");
    let found = rfind_exec(&clipped, &space);
    proof {
        lemma_rfind_to(clipped@, space@, clipped@.len() - space@.len());
    }
    match found {
        Some(k) => {
            let head = slice(&clipped, 0, k);
            proof {
                assert(head@ =~= clipped@.take(k as int));
                lemma_utf8_len_bounds(head@);
            }
            if head.len() <= usize::MAX / 4 && utf8_len_exec(&head) > MAX_TITLE_CHARS / 2 {
                let mut out = head;
                push_str(&mut out, "…");
                out
            } else {
                let mut out = clipped;
                push_str(&mut out, "…");
                out
            }
        },
        None => {
            let mut out = clipped;
            push_str(&mut out, "…");
            out
        },
    }
}

/// Turn the opening question into a name without asking anything.
///
/// Used immediately when a chat starts, and as the fallback whenever the model
/// is unavailable, slow, or unhelpful.
pub fn title_from_question(question: &str) -> (r: String)
    ensures
        r@ == title_from_question_spec(question@),
        r@.len() > 0,
        r@.len() <= MAX_TITLE_CHARS + 1,
{
    proof {
        reveal_strlit("New chat");
    }
    let q = chars_of(question);
    let cleaned = collapse_exec(&q);
    if cleaned.len() == 0 {
        return owned("New chat");
    }
    let c = clip(&cleaned);
    string_of(&c)
}

/// Whether a line is the model announcing a title rather than giving one.
fn is_lead_in(line: &Vec<char>) -> (r: bool)
    ensures
        r == is_lead_in_spec(line@),
{
    let t = trim_chars(line);
    let ts = string_of(&t);
    let lowered_s = str_lowercase(ts.as_str());
    let lowered = chars_of(lowered_s.as_str());
    let title_label = chars_of("title:");
    if starts_with_exec(&lowered, &title_label) {
        if utf8_len_exceeds(&lowered, 7) {
            return false;
        }
    }
    if ends_with_str(&lowered, ":") {
        return true;
    }
    starts_with_str(&lowered, "here is") || starts_with_str(&lowered, "here's") || starts_with_str(
        &lowered,
        "sure",
    ) || starts_with_str(&lowered, "certainly") || starts_with_str(&lowered, "of course")
        || starts_with_str(&lowered, "okay")
}

/// Reasoning models emit `<think>…</think>` before answering. An unterminated
/// block means the whole reply was thinking and nothing is left.
fn strip_thinking(text: &Vec<char>) -> (r: Vec<char>)
    ensures
        r@ == strip_thinking_spec(text@),
{
    let open = chars_of("<think>");
    let close = chars_of("</think>");
    let mut out: Vec<char> = Vec::new();
    let mut i: usize = 0;
    proof {
        assert(text@.skip(0) =~= text@);
    }
    while i <= text.len()
        invariant
            i <= text.len(),
            open@ == "<think>"@,
            close@ == "</think>"@,
            out@ + strip_thinking_spec(text@.skip(i as int)) == strip_thinking_spec(text@),
        decreases text.len() + 1 - i,
    {
        let ghost rest = text@.skip(i as int);
        let start = find_from_exec(text, &open, i);
        proof {
            lemma_find_shift(text@, open@, i as int);
            lemma_find_from(text@, open@, i as int);
        }
        match start {
            None => {
                let tail = slice(text, i, text.len());
                proof {
                    assert(tail@ =~= rest);
                }
                push_all(&mut out, &tail);
                return out;
            },
            Some(s) => {
                let head = slice(text, i, s);
                proof {
                    assert(head@ =~= rest.take(s - i));
                }
                push_all(&mut out, &head);
                let end = find_from_exec(text, &close, s);
                proof {
                    lemma_find_shift(text@, close@, s as int);
                    lemma_find_shift(rest, close@, s - i);
                    assert(rest.skip(s - i) =~= text@.skip(s as int));
                    lemma_find_from(text@, close@, s as int);
                }
                match end {
                    None => {
                        return out;
                    },
                    Some(e) => {
                        proof {
                            assert(rest.skip((s - i) + (e - s) + close@.len()) =~= text@.skip(
                                e + close@.len(),
                            ));
                            if close@.len() == 0 {
                                reveal_strlit("</think>");
                                assert(false);
                            }
                        }
                        i = e + close.len();
                    },
                }
            },
        }
    }
    out
}

/// One label removal; `None` when the lower-cased text lacks the label.
fn strip_one(text: &Vec<char>, label: &str) -> (r: Option<Vec<char>>)
    ensures
        match r {
            Some(v) => strip_one_label(text@, label@) == Some(v@),
            None => strip_one_label(text@, label@) is None,
        },
{
    let ts = string_of(text);
    let lowered_s = str_lowercase(ts.as_str());
    let lowered = chars_of(lowered_s.as_str());
    let lab = chars_of(label);
    if !starts_with_exec(&lowered, &lab) {
        return None;
    }
    proof {
        lemma_utf8_len_prefix_mono(lowered@, lab@.len() as int);
    }
    let tb = match utf8_len_checked(text) {
        Some(n) => n,
        None => return Some(slice(text, 0, text.len())),
    };
    let lb = match utf8_len_checked(&lowered) {
        Some(n) => n,
        None => return Some(slice(text, 0, text.len())),
    };
    let labb = match utf8_len_checked(&lab) {
        Some(n) => n,
        None => return Some(slice(text, 0, text.len())),
    };
    proof {
        lemma_utf8_len_prefix_mono(lowered@, lab@.len() as int);
    }
    let rest_bytes = lb - labb;
    if rest_bytes > tb {
        proof {
            assert(char_index_of_byte(text@, tb - rest_bytes) is None);
        }
        return Some(slice(text, 0, text.len()));
    }
    match char_index_of_byte_exec(text, tb - rest_bytes) {
        Some(k) => {
            proof {
                lemma_char_index_of_byte(text@, (tb - rest_bytes) as int);
                assert(text@.skip(k as int) =~= text@.subrange(k as int, text@.len() as int));
            }
            let tail = slice(text, k, text.len());
            Some(trim_chars(&tail))
        },
        None => Some(slice(text, 0, text.len())),
    }
}

/// Drop a leading `Title:` / `Chat title -` style label.
fn strip_label(text: &Vec<char>) -> (r: Vec<char>)
    ensures
        r@ == strip_label_spec(text@),
{
    if let Some(r) = strip_one(text, "title:") {
        return r;
    }
    if let Some(r) = strip_one(text, "chat title:") {
        return r;
    }
    if let Some(r) = strip_one(text, "conversation title:") {
        return r;
    }
    if let Some(r) = strip_one(text, "title -") {
        return r;
    }
    slice(text, 0, text.len())
}

fn unwrap_quotes(text: &Vec<char>) -> (r: Vec<char>)
    ensures
        r@ == unwrap_quotes_spec(text@),
{
    let t = trim_chars(text);
    if t.len() >= 2 {
        let first = t[0];
        let last = t[t.len() - 1];
        if (first == '"' && last == '"') || (first == '\'' && last == '\'') || (first == '“'
            && last == '”') || (first == '«' && last == '»') || (first == '`' && last == '`') {
            let inner = slice(&t, 1, t.len() - 1);
            return trim_chars(&inner);
        }
    }
    t
}

fn is_empty_title_exec(lowered: &Vec<char>) -> (r: bool)
    ensures
        r == is_empty_title(lowered@),
{
    eq_str(lowered, "title") || eq_str(lowered, "conversation") || eq_str(lowered, "new chat")
        || eq_str(lowered, "untitled") || eq_str(lowered, "chat") || eq_str(lowered, "sure")
        || eq_str(lowered, "none")
}

fn is_refusal_exec(lowered: &Vec<char>) -> (r: bool)
    ensures
        r == is_refusal(lowered@),
{
    starts_with_str(lowered, "i cannot") || starts_with_str(lowered, "i can't") || starts_with_str(
        lowered,
        "i am unable",
    ) || starts_with_str(lowered, "i'm unable") || starts_with_str(lowered, "i am sorry")
        || starts_with_str(lowered, "i'm sorry") || starts_with_str(lowered, "as an ai")
        || starts_with_str(lowered, "here is")
}

/// The first usable line of a reply.
fn pick_candidate(lines: &Vec<Vec<char>>) -> (r: Option<Vec<char>>)
    ensures
        match r {
            Some(v) => first_candidate(lines.deep_view()) == Some(v@),
            None => first_candidate(lines.deep_view()) is None,
        },
{
    let mut i: usize = 0;
    proof {
        assert(lines.deep_view().skip(0) =~= lines.deep_view());
    }
    while i < lines.len()
        invariant
            i <= lines.len(),
            first_candidate(lines.deep_view()) == first_candidate(lines.deep_view().skip(i as int)),
        decreases lines.len() - i,
    {
        let t = trim_chars(&lines[i]);
        proof {
            lemma_chars_deep(&lines@[i as int]);
            assert(lines.deep_view().skip(i as int)[0] == lines@[i as int]@);
            assert(lines.deep_view().skip(i as int).drop_first() =~= lines.deep_view().skip(
                i + 1,
            ));
        }
        if t.len() > 0 && !is_lead_in(&t) {
            return Some(t);
        }
        i += 1;
    }
    None
}

/// Make a model's reply usable, or reject it.
///
/// `None` means "keep the question" — the caller always has that to fall back
/// on, so this can afford to be strict.
pub fn sanitize(raw: &str, question: &str) -> (r: Option<String>)
    ensures
        match r {
            Some(t) => sanitize_spec(raw@, question@) == Some(t@),
            None => sanitize_spec(raw@, question@) is None,
        },
        r matches Some(t) ==> 0 < t@.len() <= MAX_TITLE_CHARS + 1,
{
    let raw_chars = chars_of(raw);
    let without = strip_thinking(&raw_chars);
    let ls = lines_exec(&without);
    let c0 = match pick_candidate(&ls) {
        Some(c) => c,
        None => return None,
    };
    let c1 = strip_label(&c0);
    let c2 = unwrap_quotes(&c1);
    let c3 = collapse_exec(&c2);
    let mut punct: Vec<char> = Vec::new();
    punct.push('.');
    punct.push(',');
    punct.push(':');
    punct.push(';');
    punct.push('!');
    proof {
        assert(punct@ =~= trailing_punct());
    }
    let c4a = trim_end_set_chars(&c3, &punct);
    let c4 = trim_chars(&c4a);
    let c = unwrap_quotes(&c4);
    if c.len() == 0 {
        return None;
    }
    let cs = string_of(&c);
    let lowered_s = str_lowercase(cs.as_str());
    let lowered = chars_of(lowered_s.as_str());
    if is_empty_title_exec(&lowered) || is_refusal_exec(&lowered) {
        return None;
    }
    let q = chars_of(question);
    let qc = collapse_exec(&q);
    let limit = if qc.len() > MAX_TITLE_CHARS {
        qc.len()
    } else {
        MAX_TITLE_CHARS
    };
    if c.len() > limit {
        return None;
    }
    let sep = chars_of(". ");
    proof {
        reveal_strlit(". ");
    }
    if count_matches_exec(&c, &sep) >= 2 {
        return None;
    }
    let clipped = clip(&c);
    Some(string_of(&clipped))
}


// ---------------------------------------------------------------------------
// Asking the model.
// ---------------------------------------------------------------------------

/// The system prompt of the naming request.
pub const TITLE_SYSTEM_PROMPT: &'static str = "You name conversations. Reply with a short title of at most six words that says what the conversation is about. No quotes, no punctuation at the end, no preamble, no explanation. Reply with the title and nothing else.";

/// Tokens the model may spend on a title.
pub const TITLE_TOKENS: u32 = 32;

/// Characters of the answer shown to the model.
pub const TITLE_ANSWER_CHARS: usize = 400;

/// The naming request: the question with white space collapsed, and the
/// answer's first 400 characters (collapsed) when it has any.
pub open spec fn title_prompt_spec(question: Seq<char>, answer: Seq<char>) -> Seq<char> {
    let a = collapse(answer);
    let excerpt = if a.len() <= 400 { a } else { a.take(400) };
    if excerpt.len() == 0 {
        "Question: "@ + collapse(question) + "\n\nTitle:"@
    } else {
        "Question: "@ + collapse(question) + "\n\nAnswer: "@ + excerpt + "\n\nTitle:"@
    }
}

pub fn title_prompt(question: &str, answer: &str) -> (r: String)
    ensures
        r@ == title_prompt_spec(question@, answer@),
{
    let ac = chars_of(answer);
    let a = collapse_exec(&ac);
    let excerpt = if a.len() <= TITLE_ANSWER_CHARS {
        slice(&a, 0, a.len())
    } else {
        slice(&a, 0, TITLE_ANSWER_CHARS)
    };
    proof {
        assert(excerpt@ =~= if a@.len() <= 400 { a@ } else { a@.take(400) });
    }
    let qc = chars_of(question);
    let q = collapse_exec(&qc);
    let mut out = chars_of("Question: ");
    push_all(&mut out, &q);
    if excerpt.len() > 0 {
        push_str(&mut out, "\n\nAnswer: ");
        push_all(&mut out, &excerpt);
    }
    push_str(&mut out, "\n\nTitle:");
    string_of(&out)
}

/// The title of a chat: the model's reply made usable, else the question
/// as a title; a missing or failed reply gives the question too, so naming
/// never fails.
pub open spec fn choose_title_spec(reply: Option<Seq<char>>, question: Seq<char>) -> Seq<char> {
    match reply {
        Some(raw) => match sanitize_spec(raw, question) {
            Some(t) => t,
            None => title_from_question_spec(question),
        },
        None => title_from_question_spec(question),
    }
}

pub fn choose_title(reply: Option<String>, question: &str) -> (r: String)
    ensures
        r@ == choose_title_spec(
            match reply {
                Some(s) => Some(s@),
                None => None,
            },
            question@,
        ),
        0 < r@.len() <= MAX_TITLE_CHARS + 1,
{
    match reply {
        Some(raw) => match sanitize(raw.as_str(), question) {
            Some(t) => t,
            None => title_from_question(question),
        },
        None => title_from_question(question),
    }
}

} // verus!
