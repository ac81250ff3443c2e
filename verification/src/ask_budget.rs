//! Fitting prior conversation into a byte budget for a model request.
//!
//! Long texts are cut in the middle: the beginning and the end survive with a
//! marker between them, and every cut falls on a character boundary, so the
//! result is always valid UTF-8 of at most the budgeted number of bytes.
use vstd::prelude::*;
use crate::conversation::{render_compaction, render_compaction_spec, ChatTurn, MIN_VERBATIM_TURNS};
use crate::text::{
    chars_of, lemma_utf8_len_add, push_all, slice, string_of, trim, trim_chars, utf8_len,
    utf8_len_checked, utf8_len_exceeds, utf8_len_exec, utf8_width, utf8_width_exec,
};

verus! {

/// Who a model message is attributed to.
#[derive(Debug, Clone, Copy, PartialEq, Eq, Structural)]
pub enum MessageRole {
    System,
    User,
    Assistant,
}

/// One message of a model request.
#[derive(Debug, Clone)]
pub struct ChatMessage {
    pub role: MessageRole,
    pub content: String,
}

/// A message as its role and its text.
pub open spec fn message_view(m: ChatMessage) -> (MessageRole, Seq<char>) {
    (m.role, m.content@)
}

/// The views of a list of messages.
pub open spec fn messages_view(ms: Seq<ChatMessage>) -> Seq<(MessageRole, Seq<char>)> {
    ms.map_values(|m: ChatMessage| message_view(m))
}

/// The marker put where an excerpt drops the middle of a text.
pub open spec fn omitted_marker() -> Seq<char> {
    "\n[... excerpt shortened to fit the model context ...]\n"@
}

/// The longest prefix of `s` whose UTF-8 encoding fits in `budget` bytes: the
/// text cut at the last character boundary at or before `budget`.
pub open spec fn prefix_within(s: Seq<char>, budget: int) -> Seq<char>
    decreases s.len(),
{
    if s.len() == 0 || utf8_width(s[0]) > budget {
        seq![]
    } else {
        seq![s[0]] + prefix_within(s.drop_first(), budget - utf8_width(s[0]))
    }
}

/// The longest suffix of `s` whose UTF-8 encoding fits in `budget` bytes: the
/// text from the first character boundary at or after `len - budget`.
pub open spec fn suffix_within(s: Seq<char>, budget: int) -> Seq<char>
    decreases s.len(),
{
    if s.len() == 0 || utf8_width(s.last()) > budget {
        seq![]
    } else {
        suffix_within(s.drop_last(), budget - utf8_width(s.last())).push(s.last())
    }
}

/// A text shortened to at most `bytes` bytes: unchanged when it fits; when
/// the budget cannot even hold the marker, a prefix of the trimmed marker;
/// otherwise its head (half of what the marker leaves), the marker, and as
/// much of its tail as the rest of the budget holds.
pub open spec fn excerpt_spec(text: Seq<char>, bytes: int) -> Seq<char> {
    let o = omitted_marker();
    if utf8_len(text) <= bytes {
        text
    } else if bytes <= utf8_len(o) {
        prefix_within(trim(o), bytes)
    } else {
        let available = bytes - utf8_len(o);
        let head = prefix_within(text, available / 2);
        head + o + suffix_within(text, available - utf8_len(head))
    }
}

/// A prefix cut by [`prefix_within`] is a prefix of the text and fits its
/// budget.
pub proof fn lemma_prefix_within(s: Seq<char>, budget: int)
    requires
        budget >= 0,
    ensures
        utf8_len(prefix_within(s, budget)) <= budget,
        prefix_within(s, budget).len() <= s.len(),
        prefix_within(s, budget) == s.take(prefix_within(s, budget).len() as int),
    decreases s.len(),
{
    if s.len() > 0 && utf8_width(s[0]) <= budget {
        let rest = prefix_within(s.drop_first(), budget - utf8_width(s[0]));
        lemma_prefix_within(s.drop_first(), budget - utf8_width(s[0]));
        lemma_utf8_len_add(seq![s[0]], rest);
        assert(seq![s[0]].drop_last() =~= Seq::<char>::empty());
        assert(utf8_len(seq![s[0]].drop_last()) == 0);
        assert(utf8_len(seq![s[0]]) == utf8_width(s[0]));
        assert(seq![s[0]] + rest =~= s.take(rest.len() + 1 as int));
    } else {
        assert(s.take(0) =~= Seq::<char>::empty());
    }
}

/// A suffix cut by [`suffix_within`] is a suffix of the text and fits its
/// budget.
pub proof fn lemma_suffix_within(s: Seq<char>, budget: int)
    requires
        budget >= 0,
    ensures
        utf8_len(suffix_within(s, budget)) <= budget,
        suffix_within(s, budget).len() <= s.len(),
        suffix_within(s, budget) == s.skip(s.len() - suffix_within(s, budget).len()),
    decreases s.len(),
{
    if s.len() > 0 && utf8_width(s.last()) <= budget {
        let rest = suffix_within(s.drop_last(), budget - utf8_width(s.last()));
        lemma_suffix_within(s.drop_last(), budget - utf8_width(s.last()));
        assert(rest.push(s.last()).drop_last() =~= rest);
        assert(rest.push(s.last()) =~= s.skip(s.len() - rest.len() - 1));
    } else {
        assert(s.skip(s.len() as int) =~= Seq::<char>::empty());
    }
}

/// An excerpt never exceeds its byte budget, and keeps the text whole when
/// the text fits.
pub proof fn lemma_excerpt_within(text: Seq<char>, bytes: int)
    requires
        bytes >= 0,
    ensures
        utf8_len(excerpt_spec(text, bytes)) <= bytes,
        utf8_len(text) <= bytes ==> excerpt_spec(text, bytes) == text,
{
    let o = omitted_marker();
    if utf8_len(text) <= bytes {
    } else if bytes <= utf8_len(o) {
        lemma_prefix_within(trim(o), bytes);
    } else {
        let available = bytes - utf8_len(o);
        let head = prefix_within(text, available / 2);
        lemma_prefix_within(text, available / 2);
        let tail = suffix_within(text, available - utf8_len(head));
        lemma_suffix_within(text, available - utf8_len(head));
        lemma_utf8_len_add(head, o);
        lemma_utf8_len_add(head + o, tail);
    }
}

/// The longest prefix of `s` within `max` bytes, and its byte length
/// (`truncate_to_char_boundary`).
fn prefix_within_exec(s: &Vec<char>, max: usize) -> (r: (Vec<char>, usize))
    ensures
        r.0@ == prefix_within(s@, max as int),
        r.1 == utf8_len(r.0@),
        r.1 <= max,
{
    let mut used: usize = 0;
    let mut i: usize = 0;
    proof {
        assert(s@.skip(0) =~= s@);
        assert(s@.take(0) =~= Seq::<char>::empty());
    }
    while i < s.len() && utf8_width_exec(s[i]) <= max - used
        invariant
            i <= s.len(),
            used <= max,
            used == utf8_len(s@.take(i as int)),
            prefix_within(s@, max as int) == s@.take(i as int) + prefix_within(
                s@.skip(i as int),
                max - used,
            ),
        decreases s.len() - i,
    {
        let w = utf8_width_exec(s[i]);
        proof {
            assert(s@.skip(i as int).drop_first() =~= s@.skip(i + 1));
            assert(s@.skip(i as int)[0] == s@[i as int]);
            assert(s@.take(i as int) + (seq![s@[i as int]] + prefix_within(
                s@.skip(i + 1),
                max - used - w,
            )) =~= s@.take(i + 1) + prefix_within(s@.skip(i + 1), max - used - w));
            assert(s@.take(i + 1).drop_last() =~= s@.take(i as int));
        }
        used = used + w;
        i = i + 1;
    }
    proof {
        if i < s.len() {
            assert(s@.skip(i as int)[0] == s@[i as int]);
        }
        assert(s@.take(i as int) + Seq::<char>::empty() =~= s@.take(i as int));
        assert(s@.take(i as int) =~= s@.subrange(0, i as int));
    }
    (slice(s, 0, i), used)
}

/// The longest suffix of `s` within `max` bytes.
fn suffix_within_exec(s: &Vec<char>, max: usize) -> (r: Vec<char>)
    ensures
        r@ == suffix_within(s@, max as int),
{
    let mut used: usize = 0;
    let mut j: usize = s.len();
    proof {
        assert(s@.take(j as int) =~= s@);
        assert(s@.skip(j as int) =~= Seq::<char>::empty());
    }
    while j > 0 && utf8_width_exec(s[j - 1]) <= max - used
        invariant
            j <= s.len(),
            used <= max,
            suffix_within(s@, max as int) == suffix_within(s@.take(j as int), max - used) + s@.skip(
                j as int,
            ),
        decreases j,
    {
        let w = utf8_width_exec(s[j - 1]);
        proof {
            assert(s@.take(j as int).drop_last() =~= s@.take(j - 1));
            assert(s@.take(j as int).last() == s@[j - 1]);
            assert(suffix_within(s@.take(j - 1), max - used - w).push(s@[j - 1]) + s@.skip(
                j as int,
            ) =~= suffix_within(s@.take(j - 1), max - used - w) + s@.skip(j - 1));
        }
        used = used + w;
        j = j - 1;
    }
    proof {
        if j > 0 {
            assert(s@.take(j as int).last() == s@[j - 1]);
        }
        assert(Seq::<char>::empty() + s@.skip(j as int) =~= s@.subrange(j as int, s@.len() as int));
    }
    slice(s, j, s.len())
}

/// Shorten `text` to at most `bytes` bytes, keeping its beginning and end.
pub fn excerpt(text: &Vec<char>, bytes: usize) -> (r: Vec<char>)
    ensures
        r@ == excerpt_spec(text@, bytes as int),
        utf8_len(r@) <= bytes,
{
    proof {
        lemma_excerpt_within(text@, bytes as int);
        reveal_strlit("\n[... excerpt shortened to fit the model context ...]\n");
    }
    if !utf8_len_exceeds(text, bytes) {
        let _n = text.len();
        proof {
            assert(text@.subrange(0, text@.len() as int) =~= text@);
        }
        return slice(text, 0, text.len());
    }
    let marker = chars_of("\n[... excerpt shortened to fit the model context ...]\n");
    let m = utf8_len_exec(&marker);
    if bytes <= m {
        let t = trim_chars(&marker);
        let (cut, _) = prefix_within_exec(&t, bytes);
        return cut;
    }
    let available = bytes - m;
    let (head, head_len) = prefix_within_exec(text, available / 2);
    let tail = suffix_within_exec(text, available - head_len);
    let mut out = head;
    push_all(&mut out, &marker);
    push_all(&mut out, &tail);
    out
}

/// The role a prior turn is replayed under.
pub open spec fn role_of(turn: ChatTurn) -> MessageRole {
    if turn.is_user_spec() {
        MessageRole::User
    } else {
        MessageRole::Assistant
    }
}

/// Total byte length of the turns' contents.
pub open spec fn total_bytes(turns: Seq<ChatTurn>) -> nat
    decreases turns.len(),
{
    if turns.len() == 0 {
        0
    } else {
        total_bytes(turns.drop_last()) + utf8_len(turns.last().content@)
    }
}

/// Total byte length of the messages' contents.
pub open spec fn messages_bytes(ms: Seq<(MessageRole, Seq<char>)>) -> nat
    decreases ms.len(),
{
    if ms.len() == 0 {
        0
    } else {
        utf8_len(ms[0].1) + messages_bytes(ms.drop_first())
    }
}

/// The turns replayed as they are.
pub open spec fn verbatim_messages(turns: Seq<ChatTurn>) -> Seq<(MessageRole, Seq<char>)> {
    turns.map_values(|t: ChatTurn| (role_of(t), t.content@))
}

/// The recent turns, each cut to an even share of what is left of the
/// budget when its turn comes.
pub open spec fn recent_messages(turns: Seq<ChatTurn>, remaining: int) -> Seq<(MessageRole, Seq<char>)>
    decreases turns.len(),
{
    if turns.len() == 0 {
        seq![]
    } else {
        let allowance = remaining / (turns.len() as int);
        let c = excerpt_spec(turns[0].content@, allowance);
        seq![(role_of(turns[0]), c)] + recent_messages(turns.drop_first(), remaining - utf8_len(c))
    }
}

/// Where the recent turns start.
pub open spec fn recap_split(n: nat) -> nat {
    if n > MIN_VERBATIM_TURNS {
        (n - MIN_VERBATIM_TURNS) as nat
    } else {
        0
    }
}

/// The transcript fitted into `bytes`: nothing for an empty transcript or
/// budget; every turn verbatim when all fit; otherwise a system recap of the
/// older turns (a quarter of the budget, when there are older turns) followed
/// by the last [`MIN_VERBATIM_TURNS`] turns, each excerpted.
pub open spec fn history_messages_spec(history: Seq<ChatTurn>, bytes: nat) -> Seq<(MessageRole, Seq<char>)> {
    if history.len() == 0 || bytes == 0 {
        seq![]
    } else if total_bytes(history) <= bytes {
        verbatim_messages(history)
    } else {
        let split = recap_split(history.len());
        let recap_bytes: nat = if split > 0 {
            bytes / 4
        } else {
            0
        };
        (if recap_bytes > 0 {
            seq![
                (MessageRole::System, excerpt_spec(
                    render_compaction_spec(history.take(split as int)),
                    recap_bytes as int,
                )),
            ]
        } else {
            seq![]
        }) + recent_messages(history.skip(split as int), bytes - recap_bytes)
    }
}

/// The message a turn becomes is the user's exactly when the turn is the
/// user's, the assistant's otherwise.
pub open spec fn replays_turn_role(m: (MessageRole, Seq<char>), t: ChatTurn) -> bool {
    if crate::text::eq_ignore_case(t.role@, "user"@) {
        m.0 == MessageRole::User
    } else {
        m.0 == MessageRole::Assistant
    }
}

proof fn lemma_recent_roles(turns: Seq<ChatTurn>, remaining: int)
    ensures
        recent_messages(turns, remaining).len() == turns.len(),
        forall|i: int| 0 <= i < turns.len() ==> replays_turn_role(#[trigger] recent_messages(turns, remaining)[i], turns[i]),
    decreases turns.len(),
{
    if turns.len() > 0 {
        let allowance = remaining / (turns.len() as int);
        let c = excerpt_spec(turns[0].content@, allowance);
        let rest = turns.drop_first();
        lemma_recent_roles(rest, remaining - utf8_len(c));
        let r = recent_messages(turns, remaining);
        assert forall|i: int| 0 <= i < turns.len() implies replays_turn_role(#[trigger] r[i], turns[i]) by {
            if i > 0 {
                assert(r[i] == recent_messages(rest, remaining - utf8_len(c))[i - 1]);
                assert(turns[i] == rest[i - 1]);
            }
        }
    }
}

/// Every turn replayed into a request keeps its role. Aligned from the end,
/// each message is the message of the turn at the same distance from the
/// end of the history, under that turn's role (User for the user's turns,
/// Assistant for the others); only a first message can be something else:
/// the System recap of the older turns, followed by exactly the last
/// `MIN_VERBATIM_TURNS` turns. The last turns are always among those
/// replayed.
pub proof fn lemma_history_keeps_roles(history: Seq<ChatTurn>, bytes: nat)
    ensures
        ({
            let r = history_messages_spec(history, bytes);
            &&& r.len() <= history.len() + 1
            &&& (history.len() > 0 && bytes > 0 ==> r.len() >= if history.len() < MIN_VERBATIM_TURNS {
                history.len()
            } else {
                MIN_VERBATIM_TURNS as nat
            })
            &&& (r.len() > 0 && r[0].0 == MessageRole::System ==> r.len() == MIN_VERBATIM_TURNS + 1
                && history.len() > MIN_VERBATIM_TURNS)
            &&& forall|i: int|
                0 <= i < r.len() ==> (i == 0 && #[trigger] r[i].0 == MessageRole::System)
                    || (0 <= history.len() - r.len() + i && replays_turn_role(r[i], history[history.len() - r.len() + i]))
        }),
{
    let r = history_messages_spec(history, bytes);
    if history.len() == 0 || bytes == 0 {
    } else if total_bytes(history) <= bytes {
        assert forall|i: int| 0 <= i < r.len() implies (0 <= history.len() - r.len() + i && replays_turn_role(
            #[trigger] r[i],
            history[history.len() - r.len() + i],
        )) by {}
    } else {
        let split = recap_split(history.len());
        let recap_bytes: nat = if split > 0 { bytes / 4 } else { 0 };
        let tail = history.skip(split as int);
        let rec = recent_messages(tail, bytes - recap_bytes);
        lemma_recent_roles(tail, bytes - recap_bytes);
        let head: Seq<(MessageRole, Seq<char>)> = if recap_bytes > 0 {
            seq![(MessageRole::System, excerpt_spec(render_compaction_spec(history.take(split as int)), recap_bytes as int))]
        } else {
            seq![]
        };
        assert(r == head + rec);
        if r.len() > 0 && r[0].0 == MessageRole::System {
            if head.len() == 0 {
                assert(r[0] == rec[0]);
                assert(tail[0] == history[split as int]);
            }
        }
        assert forall|i: int| 0 <= i < r.len() implies (i == 0 && #[trigger] r[i].0
            == MessageRole::System) || (0 <= history.len() - r.len() + i && replays_turn_role(
            r[i],
            history[history.len() - r.len() + i],
        )) by {
            if i >= head.len() {
                let j = i - head.len();
                assert(r[i] == rec[j]);
                assert(tail[j] == history[split + j]);
            } else {
                if split < history.len() - 0 {
                }
            }
        }
    }
}

proof fn lemma_total_bytes_prefix(turns: Seq<ChatTurn>, k: int)
    requires
        0 <= k <= turns.len(),
    ensures
        total_bytes(turns.take(k)) <= total_bytes(turns),
    decreases turns.len() - k,
{
    if k < turns.len() {
        lemma_total_bytes_prefix(turns, k + 1);
        assert(turns.take(k + 1).drop_last() =~= turns.take(k));
    } else {
        assert(turns.take(k) =~= turns);
    }
}

proof fn lemma_messages_bytes_one(m: (MessageRole, Seq<char>))
    ensures
        messages_bytes(seq![m]) == utf8_len(m.1),
{
    assert(seq![m].drop_first() =~= Seq::<(MessageRole, Seq<char>)>::empty());
    assert(messages_bytes(seq![m].drop_first()) == 0);
}

proof fn lemma_messages_bytes_concat(a: Seq<(MessageRole, Seq<char>)>, b: Seq<(MessageRole, Seq<char>)>)
    ensures
        messages_bytes(a + b) == messages_bytes(a) + messages_bytes(b),
    decreases a.len(),
{
    if a.len() == 0 {
        assert(a + b =~= b);
    } else {
        lemma_messages_bytes_concat(a.drop_first(), b);
        assert((a + b).drop_first() =~= a.drop_first() + b);
    }
}

proof fn lemma_recent_within(turns: Seq<ChatTurn>, remaining: int)
    requires
        remaining >= 0,
    ensures
        messages_bytes(recent_messages(turns, remaining)) <= remaining,
    decreases turns.len(),
{
    if turns.len() > 0 {
        let allowance = remaining / (turns.len() as int);
        vstd::arithmetic::div_mod::lemma_div_is_ordered_by_denominator(remaining, 1, turns.len() as int);
        assert(remaining / 1 == remaining);
        let c = excerpt_spec(turns[0].content@, allowance);
        lemma_excerpt_within(turns[0].content@, allowance);
        lemma_recent_within(turns.drop_first(), remaining - utf8_len(c));
        let rest = recent_messages(turns.drop_first(), remaining - utf8_len(c));
        lemma_messages_bytes_concat(seq![(role_of(turns[0]), c)], rest);
        assert(seq![(role_of(turns[0]), c)].drop_first() =~= Seq::<(MessageRole, Seq<char>)>::empty());
        lemma_messages_bytes_one((role_of(turns[0]), c));
    }
}

proof fn lemma_total_is_messages_bytes(turns: Seq<ChatTurn>)
    ensures
        messages_bytes(verbatim_messages(turns)) == total_bytes(turns),
    decreases turns.len(),
{
    if turns.len() > 0 {
        lemma_total_is_messages_bytes(turns.drop_last());
        let front = verbatim_messages(turns.drop_last());
        let last = seq![(role_of(turns.last()), turns.last().content@)];
        assert(verbatim_messages(turns) =~= front + last);
        lemma_messages_bytes_concat(front, last);
        assert(last.drop_first() =~= Seq::<(MessageRole, Seq<char>)>::empty());
        lemma_messages_bytes_one((role_of(turns.last()), turns.last().content@));
    }
}

/// The fitted transcript never holds more bytes than its budget.
pub proof fn lemma_history_messages_within(history: Seq<ChatTurn>, bytes: nat)
    ensures
        messages_bytes(history_messages_spec(history, bytes)) <= bytes,
{
    if history.len() == 0 || bytes == 0 {
    } else if total_bytes(history) <= bytes {
        lemma_total_is_messages_bytes(history);
    } else {
        let split = recap_split(history.len());
        let recap_bytes: nat = if split > 0 {
            bytes / 4
        } else {
            0
        };
        let recap = if recap_bytes > 0 {
            seq![
                (MessageRole::System, excerpt_spec(
                    render_compaction_spec(history.take(split as int)),
                    recap_bytes as int,
                )),
            ]
        } else {
            seq![]
        };
        lemma_recent_within(history.skip(split as int), bytes - recap_bytes);
        lemma_messages_bytes_concat(recap, recent_messages(history.skip(split as int), bytes - recap_bytes));
        if recap_bytes > 0 {
            lemma_excerpt_within(render_compaction_spec(history.take(split as int)), recap_bytes as int);
            assert(recap.drop_first() =~= Seq::<(MessageRole, Seq<char>)>::empty());
            lemma_messages_bytes_one(recap[0]);
            assert(recap =~= seq![recap[0]]);
        } else {
            assert(messages_bytes(recap) == 0);
        }
    }
}

/// Whether the turns' contents hold more than `bytes` bytes in all.
fn total_exceeds(history: &[ChatTurn], bytes: usize) -> (r: bool)
    ensures
        r == (total_bytes(history@) > bytes),
{
    let mut acc: usize = 0;
    let mut i: usize = 0;
    while i < history.len()
        invariant
            i <= history.len(),
            acc == total_bytes(history@.take(i as int)),
            acc <= bytes,
        decreases history.len() - i,
    {
        proof {
            assert(history@.take(i + 1).drop_last() =~= history@.take(i as int));
            assert(history@.take(i + 1).last() == history@[i as int]);
            lemma_total_bytes_prefix(history@, i + 1);
        }
        let c = chars_of(history[i].content.as_str());
        match utf8_len_checked(&c) {
            None => {
                return true;
            },
            Some(l) => {
                if l > bytes - acc {
                    return true;
                }
                acc = acc + l;
            },
        }
        i += 1;
    }
    proof {
        assert(history@.take(i as int) =~= history@);
    }
    false
}

fn role_for(turn: &ChatTurn) -> (r: MessageRole)
    ensures
        r == role_of(*turn),
{
    if turn.is_user() {
        MessageRole::User
    } else {
        MessageRole::Assistant
    }
}

/// The transcript as model messages within `bytes` bytes of content (see
/// [`history_messages_spec`]).
pub fn history_messages(history: &[ChatTurn], bytes: usize) -> (r: Vec<ChatMessage>)
    ensures
        messages_view(r@) == history_messages_spec(history@, bytes as nat),
        messages_bytes(messages_view(r@)) <= bytes,
{
    proof {
        lemma_history_messages_within(history@, bytes as nat);
    }
    let mut messages: Vec<ChatMessage> = Vec::new();
    if history.len() == 0 || bytes == 0 {
        proof {
            assert(messages_view(messages@) =~= Seq::<(MessageRole, Seq<char>)>::empty());
        }
        return messages;
    }
    if !total_exceeds(history, bytes) {
        let mut i: usize = 0;
        while i < history.len()
            invariant
                i <= history.len(),
                messages_view(messages@) == verbatim_messages(history@.take(i as int)),
            decreases history.len() - i,
        {
            let turn = &history[i];
            let role = role_for(turn);
            let content = turn.content.clone();
            let ghost before = messages@;
            messages.push(ChatMessage { role, content });
            proof {
                assert(messages@ == before.push(ChatMessage { role, content }));
                assert(messages_view(messages@) =~= messages_view(before).push((role, turn.content@)));
                assert(history@.take(i + 1) =~= history@.take(i as int).push(*turn));
                assert(messages_view(messages@) =~= verbatim_messages(history@.take(i + 1)));
            }
            i += 1;
        }
        proof {
            assert(history@.take(i as int) =~= history@);
        }
        return messages;
    }
    let n = history.len();
    let split: usize = if n > MIN_VERBATIM_TURNS {
        n - MIN_VERBATIM_TURNS
    } else {
        0
    };
    let recap_bytes: usize = if split > 0 {
        bytes / 4
    } else {
        0
    };
    if recap_bytes > 0 {
        let recap = render_compaction(vstd::slice::slice_subrange(history, 0, split));
        let recap_chars = chars_of(recap.as_str());
        let content = excerpt(&recap_chars, recap_bytes);
        messages.push(ChatMessage { role: MessageRole::System, content: string_of(&content) });
    }
    let mut remaining: usize = bytes - recap_bytes;
    let mut i: usize = split;
    proof {
        assert(history@.subrange(0, split as int) =~= history@.take(split as int));
    }
    while i < n
        invariant
            split <= i <= n,
            n == history@.len(),
            messages_view(messages@) + recent_messages(history@.skip(i as int), remaining as int)
                == history_messages_spec(history@, bytes as nat),
        decreases n - i,
    {
        let turn = &history[i];
        let allowance = remaining / (n - i);
        let c = chars_of(turn.content.as_str());
        let content = excerpt(&c, allowance);
        let role = role_for(turn);
        let ghost before = messages_view(messages@);
        proof {
            assert(history@.skip(i as int)[0] == *turn);
            assert(history@.skip(i as int).drop_first() =~= history@.skip(i + 1));
            vstd::arithmetic::div_mod::lemma_div_is_ordered_by_denominator(remaining as int, 1, (n - i) as int);
        }
        let used = match utf8_len_checked(&content) {
            Some(l) => l,
            None => 0,
        };
        messages.push(ChatMessage { role, content: string_of(&content) });
        proof {
            assert(messages_view(messages@) =~= before.push((role, content@)));
            assert(before + (seq![(role, content@)] + recent_messages(history@.skip(i + 1), remaining - utf8_len(content@)))
                =~= before.push((role, content@)) + recent_messages(history@.skip(i + 1), remaining - utf8_len(content@)));
        }
        remaining = remaining - used;
        i += 1;
    }
    proof {
        assert(history@.skip(i as int) =~= Seq::<ChatTurn>::empty());
        assert(messages_view(messages@) + Seq::<(MessageRole, Seq<char>)>::empty() =~= messages_view(messages@));
    }
    messages
}

/// Replayed conversation is never given the authority of a system prompt.
pub open spec fn demote_system(ms: Seq<(MessageRole, Seq<char>)>) -> Seq<(MessageRole, Seq<char>)> {
    ms.map_values(|m: (MessageRole, Seq<char>)| (if m.0 == MessageRole::System {
        MessageRole::User
    } else {
        m.0
    }, m.1))
}

/// Four bytes per token, saturating at the largest `usize`.
pub open spec fn token_bytes(tokens: nat) -> nat {
    if tokens * 4 > usize::MAX {
        usize::MAX as nat
    } else {
        tokens * 4
    }
}

/// The conversation fitted for a research step: `budget_tokens` worth of
/// bytes (four per token), with the recap demoted from system to user.
pub fn research_history(history: &[ChatTurn], budget_tokens: usize) -> (r: Vec<ChatMessage>)
    ensures
        messages_view(r@) == demote_system(
            history_messages_spec(history@, token_bytes(budget_tokens as nat)),
        ),
{
    let bytes: usize = if budget_tokens > usize::MAX / 4 {
        usize::MAX
    } else {
        budget_tokens * 4
    };
    let messages = history_messages(history, bytes);
    let mut out: Vec<ChatMessage> = Vec::new();
    let mut i: usize = 0;
    while i < messages.len()
        invariant
            i <= messages.len(),
            messages_view(out@) == demote_system(messages_view(messages@.take(i as int))),
        decreases messages.len() - i,
    {
        let m = &messages[i];
        let role = if m.role == MessageRole::System {
            MessageRole::User
        } else {
            m.role
        };
        let content = m.content.clone();
        let ghost before = out@;
        out.push(ChatMessage { role, content });
        proof {
            assert(out@ == before.push(ChatMessage { role, content }));
            assert(messages_view(out@) =~= messages_view(before).push((role, m.content@)));
            assert(messages@.take(i + 1) =~= messages@.take(i as int).push(*m));
            assert(messages_view(out@) =~= demote_system(messages_view(messages@.take(i + 1))));
        }
        i += 1;
    }
    proof {
        assert(messages@.take(i as int) =~= messages@);
    }
    out
}


// ---------------------------------------------------------------------------
// Fitting an Ask request into the model's context.
// ---------------------------------------------------------------------------

/// Tokens kept free between the prompt and the answer.
pub const TOKEN_HEADROOM: usize = 16;

/// The prompt budget: the context less the answer and the headroom; `None`
/// when the context cannot hold them.
pub open spec fn prompt_limit_spec(context: nat, output_tokens: nat) -> Option<nat> {
    if output_tokens + 16 <= context {
        Some((context - output_tokens - 16) as nat)
    } else {
        None
    }
}

/// The tokens a prompt may take in a context of `context` tokens that must
/// also hold an answer of `output_tokens`; an error when it cannot.
pub fn prompt_limit(context: usize, output_tokens: usize) -> (r: Result<usize, String>)
    ensures
        match r {
            Ok(n) => prompt_limit_spec(context as nat, output_tokens as nat) == Some(n as nat),
            Err(m) => prompt_limit_spec(context as nat, output_tokens as nat) is None
                && m@ == "The model context is too small to reserve room for an Ask answer."@,
        },
{
    if output_tokens <= context && context - output_tokens >= TOKEN_HEADROOM {
        Ok(context - output_tokens - TOKEN_HEADROOM)
    } else {
        Err(crate::text::owned("The model context is too small to reserve room for an Ask answer."))
    }
}

/// The shape of an Ask request being fitted: the history budget in bytes,
/// the bytes of the history and of the source excerpts it holds, the number
/// of excerpts and the bytes of the last one.
#[derive(Debug, Clone, Copy, PartialEq, Eq, Structural)]
pub struct FitState {
    pub history_bytes: usize,
    pub thread_bytes: usize,
    pub source_bytes: usize,
    pub entry_count: usize,
    pub last_entry_bytes: usize,
}

/// What to do with a request that was charged some tokens.
#[derive(Debug, Clone, Copy, PartialEq, Eq, Structural)]
pub enum FitAction {
    /// The request fits: send it.
    Fits,
    /// Retry with this history budget.
    ShrinkHistory(usize),
    /// Retry without the last source excerpt.
    DropLastEntry,
    /// Retry with the last excerpt cut to about this many bytes (on a
    /// character boundary) and marked as shortened.
    ShortenLastEntry(usize),
    /// Nothing is left to shrink.
    Fail,
}

/// One step of fitting: a request within the limit fits; otherwise the
/// history is halved (to nothing at 128 bytes or less) while it outweighs
/// half the excerpts or only one excerpt is left, else the last of several
/// excerpts is dropped, else a single excerpt over 256 bytes is halved, else
/// fitting fails.
pub open spec fn fit_step_spec(st: FitState, charged_tokens: nat, prompt_limit: nat) -> FitAction {
    if charged_tokens <= prompt_limit {
        FitAction::Fits
    } else if st.thread_bytes > 0 && (st.thread_bytes > st.source_bytes / 2 || st.entry_count <= 1) {
        FitAction::ShrinkHistory(
            if st.history_bytes > 128 {
                (st.history_bytes / 2) as usize
            } else {
                0
            },
        )
    } else if st.entry_count > 1 {
        FitAction::DropLastEntry
    } else if st.entry_count == 1 && st.last_entry_bytes > 256 {
        FitAction::ShortenLastEntry((st.last_entry_bytes / 2) as usize)
    } else {
        FitAction::Fail
    }
}

pub fn fit_step(st: FitState, charged_tokens: usize, prompt_limit: usize) -> (r: FitAction)
    ensures
        r == fit_step_spec(st, charged_tokens as nat, prompt_limit as nat),
{
    if charged_tokens <= prompt_limit {
        FitAction::Fits
    } else if st.thread_bytes > 0 && (st.thread_bytes > st.source_bytes / 2 || st.entry_count <= 1) {
        FitAction::ShrinkHistory(
            if st.history_bytes > 128 {
                st.history_bytes / 2
            } else {
                0
            },
        )
    } else if st.entry_count > 1 {
        FitAction::DropLastEntry
    } else if st.entry_count == 1 && st.last_entry_bytes > 256 {
        FitAction::ShortenLastEntry(st.last_entry_bytes / 2)
    } else {
        FitAction::Fail
    }
}

/// The measure fitting shrinks: each step other than `Fits` and `Fail`
/// leaves a smaller history budget, fewer excerpts, or a shorter excerpt.
pub proof fn lemma_fit_step_shrinks(st: FitState, charged_tokens: nat, prompt_limit: nat)
    ensures
        match fit_step_spec(st, charged_tokens, prompt_limit) {
            FitAction::ShrinkHistory(b) => b < st.history_bytes || b == 0,
            FitAction::DropLastEntry => st.entry_count > 1,
            FitAction::ShortenLastEntry(n) => n < st.last_entry_bytes,
            _ => true,
        },
{
}

} // verus!
