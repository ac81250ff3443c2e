//! Answer assembly for Chat: the retrieved-context budget, the numbered and
//! dated context lines the model cites, the citations it actually used, and
//! the prompts and sections around an answer.
use vstd::prelude::*;
use crate::numbers::{decimal, decimal_exec, parse_unsigned, parse_unsigned_exec};
use crate::books::pdf_text::leading_digits;
use crate::text::{
    chars_of, contains, contains_str, push_all, push_str, slice, string_of, trim, trim_chars,
    trim_end, trim_end_chars, trim_start, is_ws,
};
use crate::unicode::{is_alphanumeric, spec_is_alphanumeric, str_lowercase, spec_str_lowercase};
use crate::text::{lemma_chars_deep, lemma_push_deep, starts_with, starts_with_exec, utf8_len, utf8_len_wide};

verus! {

/// Tokens reserved for the model's answer.
pub const ASK_RESERVED_OUTPUT_TOKENS: usize = 1024;

/// Larger output reservation for reasoning models, which think before
/// answering.
pub const ASK_THINKING_OUTPUT_TOKENS: usize = 2048;

/// Tokens reserved for the fixed prompt scaffolding around the context.
pub const ASK_PROMPT_OVERHEAD_TOKENS: usize = 1024;

/// Floor of the retrieved-context budget.
pub const ASK_MIN_CONTEXT_BUDGET_TOKENS: usize = 512;

/// Retrieved-context budget when the model cannot report its window.
pub const ASK_DEFAULT_CONTEXT_BUDGET_TOKENS: usize = 2048;

/// The retrieved-context budget: the window less the prompt overhead and the
/// reserved output (each subtraction stopping at zero), never below the
/// floor; the default when the window is unknown.
pub open spec fn ask_context_budget_spec(context_window: Option<usize>, reserved_output: usize) -> nat {
    match context_window {
        Some(n) => {
            let after_overhead: int = if n >= ASK_PROMPT_OVERHEAD_TOKENS {
                n - ASK_PROMPT_OVERHEAD_TOKENS
            } else {
                0
            };
            let after_output: int = if after_overhead >= reserved_output {
                after_overhead - reserved_output
            } else {
                0
            };
            if after_output >= ASK_MIN_CONTEXT_BUDGET_TOKENS {
                after_output as nat
            } else {
                ASK_MIN_CONTEXT_BUDGET_TOKENS as nat
            }
        },
        None => ASK_DEFAULT_CONTEXT_BUDGET_TOKENS as nat,
    }
}

/// Model-aware retrieved-context budget.
pub fn ask_context_budget_with(context_window: Option<usize>, reserved_output: usize) -> (r: usize)
    ensures
        r == ask_context_budget_spec(context_window, reserved_output),
{
    match context_window {
        Some(n_ctx) => {
            let after_overhead = if n_ctx >= ASK_PROMPT_OVERHEAD_TOKENS {
                n_ctx - ASK_PROMPT_OVERHEAD_TOKENS
            } else {
                0
            };
            let after_output = if after_overhead >= reserved_output {
                after_overhead - reserved_output
            } else {
                0
            };
            if after_output >= ASK_MIN_CONTEXT_BUDGET_TOKENS {
                after_output
            } else {
                ASK_MIN_CONTEXT_BUDGET_TOKENS
            }
        },
        None => ASK_DEFAULT_CONTEXT_BUDGET_TOKENS,
    }
}

/// The budget never falls below the floor, and whenever the window has room
/// for the floor, the overhead and the output, context + overhead + output
/// fits the window; a larger reservation never yields a larger budget.
pub proof fn lemma_ask_context_budget_fits(n_ctx: usize, reserved_output: usize, larger: usize)
    requires
        reserved_output <= larger,
    ensures
        ask_context_budget_spec(Some(n_ctx), reserved_output) >= ASK_MIN_CONTEXT_BUDGET_TOKENS,
        n_ctx >= ASK_MIN_CONTEXT_BUDGET_TOKENS + ASK_PROMPT_OVERHEAD_TOKENS + reserved_output
            ==> ask_context_budget_spec(Some(n_ctx), reserved_output) + ASK_PROMPT_OVERHEAD_TOKENS
            + reserved_output <= n_ctx,
        ask_context_budget_spec(Some(n_ctx), larger) <= ask_context_budget_spec(
            Some(n_ctx),
            reserved_output,
        ),
{
}

/// The citation numbers written as `[N]` in `s` from position `i` on, in
/// order: a `[`, one or more ASCII digits, a `]`, with a value that fits in
/// `usize`. After a well-formed marker the scan resumes behind its `]`.
/// (Markers are ASCII, so a scan over characters finds what a scan over
/// UTF-8 bytes finds.)
pub open spec fn cited_from(s: Seq<char>, i: int) -> Seq<nat>
    decreases s.len() - i,
{
    if i < 0 || i >= s.len() {
        seq![]
    } else if s[i] == '[' {
        let j = i + 1 + leading_digits(s.skip(i + 1));
        if j > i + 1 && j < s.len() && s[j] == ']' {
            (match parse_unsigned(s.subrange(i + 1, j), usize::MAX as nat) {
                Some(v) => seq![v],
                None => seq![],
            }) + cited_from(s, j + 1)
        } else {
            cited_from(s, i + 1)
        }
    } else {
        cited_from(s, i + 1)
    }
}

/// The values of `s`, each kept at its first occurrence.
pub open spec fn dedup(s: Seq<nat>) -> Seq<nat>
    decreases s.len(),
{
    if s.len() == 0 {
        seq![]
    } else if dedup(s.drop_last()).contains(s.last()) {
        dedup(s.drop_last())
    } else {
        dedup(s.drop_last()).push(s.last())
    }
}

/// An element of a pushed sequence is the pushed value or was already there.
pub proof fn lemma_push_contains<T>(s: Seq<T>, v: T, x: T)
    ensures
        s.push(v).contains(x) <==> (s.contains(x) || v == x),
{
    if s.push(v).contains(x) {
        let k = choose|k: int| 0 <= k < s.push(v).len() && s.push(v)[k] == x;
        if k < s.len() {
            assert(s[k] == x);
        }
    }
    if s.contains(x) {
        let k = choose|k: int| 0 <= k < s.len() && s[k] == x;
        assert(s.push(v)[k] == x);
    }
    if v == x {
        assert(s.push(v)[s.len() as int] == x);
    }
}

proof fn lemma_dedup_contains(s: Seq<nat>)
    ensures
        forall|x: nat| dedup(s).contains(x) <==> s.contains(x),
        dedup(s).no_duplicates(),
    decreases s.len(),
{
    if s.len() > 0 {
        lemma_dedup_contains(s.drop_last());
        let d = dedup(s.drop_last());
        assert(s.drop_last().push(s.last()) =~= s);
        assert forall|x: nat| dedup(s).contains(x) <==> s.contains(x) by {
            lemma_push_contains(s.drop_last(), s.last(), x);
            lemma_push_contains(d, s.last(), x);
        }
        if !d.contains(s.last()) {
            assert forall|i: int, j: int| 0 <= i < j < d.push(s.last()).len() implies d.push(
                s.last(),
            )[i] != d.push(s.last())[j] by {
                if j == d.len() {
                    assert(d.push(s.last())[i] == d[i]);
                } else {
                    assert(d.push(s.last())[i] == d[i]);
                    assert(d.push(s.last())[j] == d[j]);
                }
            }
        }
    }
}

/// Machine integers as natural numbers.
pub open spec fn as_nats(s: Seq<usize>) -> Seq<nat> {
    s.map_values(|x: usize| x as nat)
}

/// The distinct citation numbers used in an answer, in order of first use.
pub open spec fn cited_indices_spec(answer: Seq<char>) -> Seq<nat> {
    dedup(cited_from(answer, 0))
}

/// Positions `i..k` are ASCII digits and the count of leading digits from
/// `i` is what was counted so far plus those from `k`.
fn count_digits_from(v: &Vec<char>, i: usize) -> (k: usize)
    requires
        i <= v.len(),
    ensures
        i <= k <= v.len(),
        k == i + leading_digits(v@.skip(i as int)),
{
    let mut k = i;
    proof {
        assert(v@.skip(i as int).skip(0) =~= v@.skip(i as int));
    }
    while k < v.len() && '0' <= v[k] && v[k] <= '9'
        invariant
            i <= k <= v.len(),
            leading_digits(v@.skip(i as int)) == (k - i) + leading_digits(v@.skip(k as int)),
        decreases v.len() - k,
    {
        proof {
            assert(v@.skip(k as int).drop_first() =~= v@.skip(k + 1));
            assert(v@.skip(k as int)[0] == v@[k as int]);
        }
        k += 1;
    }
    proof {
        if k < v.len() {
            assert(v@.skip(k as int)[0] == v@[k as int]);
        }
    }
    k
}

/// The `[N]` citation markers an answer actually used, each number once, in
/// order of first use.
pub fn parse_cited_indices(answer: &str) -> (r: Vec<usize>)
    ensures
        as_nats(r@) == cited_indices_spec(answer@),
        forall|x: nat| #[trigger] as_nats(r@).contains(x) <==> cited_from(answer@, 0).contains(x),
{
    let v = chars_of(answer);
    let ghost s = v@;
    let mut out: Vec<usize> = Vec::new();
    let ghost mut found: Seq<nat> = seq![];
    let mut i: usize = 0;
    proof {
        assert(as_nats(out@) =~= dedup(found));
    }
    while i < v.len()
        invariant
            s == v@,
            i <= v.len(),
            found + cited_from(s, i as int) == cited_from(s, 0),
            as_nats(out@) == dedup(found),
        decreases v.len() - i,
    {
        if v[i] == '[' {
            let j = count_digits_from(&v, i + 1);
            if j > i + 1 && j < v.len() && v[j] == ']' {
                let digits = slice(&v, i + 1, j);
                proof {
                    assert((usize::MAX as u64) as nat == usize::MAX as nat);
                }
                let parsed = parse_unsigned_exec(&digits, usize::MAX as u64);
                let ghost piece: Seq<nat> = match parse_unsigned(s.subrange(i + 1, j as int), usize::MAX as nat) {
                    Some(x) => seq![x],
                    None => seq![],
                };
                if let Some(n) = parsed {
                    let n = n as usize;
                    let mut seen = false;
                    let mut k: usize = 0;
                    while k < out.len()
                        invariant
                            k <= out.len(),
                            seen == out@.take(k as int).contains(n),
                        decreases out.len() - k,
                    {
                        proof {
                            assert(out@.take(k + 1) =~= out@.take(k as int).push(out@[k as int]));
                            lemma_push_contains(out@.take(k as int), out@[k as int], n);
                        }
                        if out[k] == n {
                            seen = true;
                        }
                        k += 1;
                    }
                    proof {
                        assert(out@.take(k as int) =~= out@);
                        let m = as_nats(out@);
                        assert(m.contains(n as nat) <==> out@.contains(n)) by {
                            if out@.contains(n) {
                                let q = choose|q: int| 0 <= q < out@.len() && out@[q] == n;
                                assert(m[q] == n as nat);
                            }
                            if m.contains(n as nat) {
                                let q = choose|q: int| 0 <= q < m.len() && m[q] == n as nat;
                                assert(out@[q] == n);
                            }
                        }
                    }
                    if !seen {
                        out.push(n);
                    }
                    proof {
                        assert((found + piece).drop_last() =~= found);
                        assert(as_nats(out@) =~= dedup(found + piece));
                    }
                } else {
                    proof {
                        assert(found + piece =~= found);
                    }
                }
                proof {
                    assert(found + piece + cited_from(s, j + 1) =~= found + (piece + cited_from(s, j + 1)));
                    found = found + piece;
                }
                i = j + 1;
            } else {
                i += 1;
            }
        } else {
            i += 1;
        }
    }
    proof {
        assert(found + Seq::<nat>::empty() =~= found);
        lemma_dedup_contains(found);
    }
    out
}

/// The answering regime chosen outside the model.
#[derive(Debug, Clone, Copy, PartialEq, Eq, Structural)]
pub enum AnswerMode {
    /// No relevant notes: answer from general knowledge.
    General,
    /// Strong note evidence: answer from the notes and cite them.
    Notes,
    /// Weak or partial evidence: blend, kept clearly separated.
    Blend,
}

/// The opening sentence every answering prompt shares.
pub open spec fn prompt_base() -> Seq<char> {
    "You are Grafium's assistant. You help the user with BOTH questions about their \
personal knowledge graph (their notes) AND general questions using your own knowledge."@
}

/// The system prompt for one answering regime: the shared opening, the
/// regime's instructions and, for the regimes that use notes, the context
/// block.
pub open spec fn system_prompt_spec(context_block: Seq<char>, mode: AnswerMode) -> Seq<char> {
    match mode {
        AnswerMode::General => prompt_base() + "\n\n\
No relevant notes were retrieved from the user's graph for this question. Answer from your \
own general knowledge, and make clear this is general knowledge and not from their notes. If \
you don't know, say you don't know."@,
        AnswerMode::Notes => prompt_base() + "\n\n\
Answer using the retrieved notes below, which are the user's own writing and journal entries. \
Cite each claim with its [N] marker.\n\
- For \"when\" / temporal questions, state the explicit date(s) from the cited notes. Journal \
entries are dated — use those dates. A line that says \"note saved …; event date unknown\" \
means you only know when the note was saved, NOT when the event happened: say you found the \
note but can't establish when it happened. Never present a \"note saved\" date as the event date.\n\
- Never invent citations or dates.\n\
- If these notes don't actually answer the question, say so in one short sentence, then answer \
from your own general knowledge and label that part clearly as general knowledge rather than \
something from their notes. Never refuse a question just because the notes don't cover it, and \
never claim you have no knowledge outside their notes — you do.\n\n\
Retrieved notes (each prefixed with its [N] citation marker and date):\n\n"@ + context_block,
        AnswerMode::Blend => prompt_base() + "\n\n\
Some possibly-related notes were retrieved, but they may only partially answer the question. \
Use them where genuinely relevant and cite those parts with their [N] marker; answer the rest \
from your general knowledge and clearly label which parts are general knowledge versus from \
their notes. Keep the two separate.\n\
- For \"when\" / temporal questions, only use explicit dates from the cited notes. A line that \
says \"note saved …; event date unknown\" is not an event date — don't treat it as one.\n\
- Never invent citations or dates, and never present general knowledge as if it came from their \
notes. If you don't know, say you don't know.\n\n\
Retrieved notes (each prefixed with its [N] citation marker and date):\n\n"@ + context_block,
    }
}

/// Build the system prompt for a chosen [`AnswerMode`].
pub fn build_system_prompt(context_block: &str, mode: AnswerMode) -> (r: String)
    ensures
        r@ == system_prompt_spec(context_block@, mode),
{
    let mut out: Vec<char> = Vec::new();
    push_str(&mut out, "You are Grafium's assistant. You help the user with BOTH questions about their \
personal knowledge graph (their notes) AND general questions using your own knowledge.");
    match mode {
        AnswerMode::General => {
            push_str(&mut out, "\n\n\
No relevant notes were retrieved from the user's graph for this question. Answer from your \
own general knowledge, and make clear this is general knowledge and not from their notes. If \
you don't know, say you don't know.");
        },
        AnswerMode::Notes => {
            push_str(&mut out, "\n\n\
Answer using the retrieved notes below, which are the user's own writing and journal entries. \
Cite each claim with its [N] marker.\n\
- For \"when\" / temporal questions, state the explicit date(s) from the cited notes. Journal \
entries are dated — use those dates. A line that says \"note saved …; event date unknown\" \
means you only know when the note was saved, NOT when the event happened: say you found the \
note but can't establish when it happened. Never present a \"note saved\" date as the event date.\n\
- Never invent citations or dates.\n\
- If these notes don't actually answer the question, say so in one short sentence, then answer \
from your own general knowledge and label that part clearly as general knowledge rather than \
something from their notes. Never refuse a question just because the notes don't cover it, and \
never claim you have no knowledge outside their notes — you do.\n\n\
Retrieved notes (each prefixed with its [N] citation marker and date):\n\n");
            push_str(&mut out, context_block);
        },
        AnswerMode::Blend => {
            push_str(&mut out, "\n\n\
Some possibly-related notes were retrieved, but they may only partially answer the question. \
Use them where genuinely relevant and cite those parts with their [N] marker; answer the rest \
from your general knowledge and clearly label which parts are general knowledge versus from \
their notes. Keep the two separate.\n\
- For \"when\" / temporal questions, only use explicit dates from the cited notes. A line that \
says \"note saved …; event date unknown\" is not an event date — don't treat it as one.\n\
- Never invent citations or dates, and never present general knowledge as if it came from their \
notes. If you don't know, say you don't know.\n\n\
Retrieved notes (each prefixed with its [N] citation marker and date):\n\n");
            push_str(&mut out, context_block);
        },
    }
    proof {
        assert(Seq::<char>::empty() + prompt_base() =~= prompt_base());
    }
    string_of(&out)
}

/// The system prompt of the notes-only arm of the two-part research flow:
/// its instructions followed by the context block.
pub open spec fn notes_only_prompt_spec(context_block: Seq<char>) -> Seq<char> {
    "You are Grafium's assistant answering STRICTLY from the user's own notes below — their \
personal writing and journal entries. Use ONLY these notes; do NOT add anything from your general \
knowledge in this section (a separate web-research section handles outside information). Cite each \
claim with its [N] marker.\n\
- For \"when\" / temporal questions, use only explicit dates from the cited notes. A line that \
says \"note saved …; event date unknown\" is not an event date — don't treat it as one.\n\
- Never invent citations or dates. If these notes don't contain the answer, say so plainly in one \
sentence and stop — do not guess.\n\n\
The user's notes (each prefixed with its [N] citation marker and date):\n\n"@ + context_block
}

/// Build the notes-only system prompt.
pub fn build_notes_only_system_prompt(context_block: &str) -> (r: String)
    ensures
        r@ == notes_only_prompt_spec(context_block@),
{
    let mut out: Vec<char> = Vec::new();
    push_str(&mut out, "You are Grafium's assistant answering STRICTLY from the user's own notes below — their \
personal writing and journal entries. Use ONLY these notes; do NOT add anything from your general \
knowledge in this section (a separate web-research section handles outside information). Cite each \
claim with its [N] marker.\n\
- For \"when\" / temporal questions, use only explicit dates from the cited notes. A line that \
says \"note saved …; event date unknown\" is not an event date — don't treat it as one.\n\
- Never invent citations or dates. If these notes don't contain the answer, say so plainly in one \
sentence and stop — do not guess.\n\n\
The user's notes (each prefixed with its [N] citation marker and date):\n\n");
    push_str(&mut out, context_block);
    proof {
        assert(Seq::<char>::empty() + "You are Grafium's assistant answering STRICTLY from the user's own notes below — their \
personal writing and journal entries. Use ONLY these notes; do NOT add anything from your general \
knowledge in this section (a separate web-research section handles outside information). Cite each \
claim with its [N] marker.\n\
- For \"when\" / temporal questions, use only explicit dates from the cited notes. A line that \
says \"note saved …; event date unknown\" is not an event date — don't treat it as one.\n\
- Never invent citations or dates. If these notes don't contain the answer, say so plainly in one \
sentence and stop — do not guess.\n\n\
The user's notes (each prefixed with its [N] citation marker and date):\n\n"@ =~= "You are Grafium's assistant answering STRICTLY from the user's own notes below — their \
personal writing and journal entries. Use ONLY these notes; do NOT add anything from your general \
knowledge in this section (a separate web-research section handles outside information). Cite each \
claim with its [N] marker.\n\
- For \"when\" / temporal questions, use only explicit dates from the cited notes. A line that \
says \"note saved …; event date unknown\" is not an event date — don't treat it as one.\n\
- Never invent citations or dates. If these notes don't contain the answer, say so plainly in one \
sentence and stop — do not guess.\n\n\
The user's notes (each prefixed with its [N] citation marker and date):\n\n"@);
    }
    string_of(&out)
}

/// The proleptic Gregorian (year, month, day) of a day counted from
/// 1970-01-01, which is day 0.
pub open spec fn civil_from_days(days: int) -> (int, int, int) {
    let z = days + 719468;
    let era = z / 146097;
    let doe = z % 146097;
    let yoe = (doe - doe / 1460 + doe / 36524 - doe / 146096) / 365;
    let doy = doe - (365 * yoe + yoe / 4 - yoe / 100);
    let mp = (5 * doy + 2) / 153;
    let d = doy - (153 * mp + 2) / 5 + 1;
    let m = if mp < 10 { mp + 3 } else { mp - 9 };
    (if m <= 2 { yoe + era * 400 + 1 } else { yoe + era * 400 }, m, d)
}

/// The last `width` decimal digits of `n`, zero-padded.
pub open spec fn padded_digits(n: nat, width: nat) -> Seq<char>
    decreases width,
{
    if width == 0 {
        seq![]
    } else {
        padded_digits(n / 10, (width - 1) as nat).push(((n % 10) + 48) as char)
    }
}

/// A year as chrono writes it: four digits within 0..=9999, otherwise an
/// explicit sign and at least four digits (`{year:+05}`).
pub open spec fn year_text(y: int) -> Seq<char> {
    if 0 <= y <= 9999 {
        padded_digits(y as nat, 4)
    } else {
        let a: int = if y < 0 { -y } else { y };
        seq![if y < 0 { '-' } else { '+' }] + if a < 10000 {
            padded_digits(a as nat, 4)
        } else {
            decimal(a as nat)
        }
    }
}

/// The UTC calendar date of a timestamp in milliseconds as chrono renders
/// it: the day is the floor of the timestamp over a day's milliseconds,
/// written `YYYY-MM-DD` (see `year_text`); empty outside the years chrono
/// represents, -262143..=262142.
pub open spec fn format_date_spec(ms: i64) -> Seq<char> {
    let (y, m, d) = civil_from_days(ms as int / 86400000);
    if -262143 <= y <= 262142 {
        year_text(y) + seq!['-'] + padded_digits(m as nat, 2) + seq!['-'] + padded_digits(d as nat, 2)
    } else {
        seq![]
    }
}

/// `DateTime::from_timestamp_millis`, then `date_naive` and `NaiveDate`'s
/// `Display`, empty when chrono cannot represent the instant: the UTC
/// calendar date (`format_date_spec`). Chrono's source
/// (`naive/date/mod.rs`: `MIN_YEAR`, `MAX_YEAR`, `Debug for NaiveDate`)
/// gives the year range and the format.
#[verifier::external_body]
pub fn format_date_ms(ms: i64) -> (r: String)
    ensures
        r@ == format_date_spec(ms),
{
    chrono::DateTime::<chrono::Utc>::from_timestamp_millis(ms)
        .map(|d| d.date_naive().to_string())
        .unwrap_or_default()
}

/// One retrieved note line offered to the model, with its citation number.
#[derive(Debug, Clone)]
pub struct ContextEntry {
    /// The `[N]` citation marker.
    pub index: usize,
    pub block_id: String,
    pub page_id: String,
    pub page_title: String,
    /// A defensible event date: a journal date or a date written in the note.
    pub date_ms: Option<i64>,
    /// When the note was saved, which is not an event date.
    pub note_created_ms: Option<i64>,
    pub is_journal: bool,
    pub text: String,
}

/// How an entry is dated: a journal date, a date written in the note, only
/// a saved timestamp (explicitly not an event date), or nothing.
pub open spec fn date_label(e: ContextEntry) -> Seq<char> {
    match e.date_ms {
        Some(ms) => if e.is_journal {
            format_date_spec(ms) + " (journal)"@
        } else {
            format_date_spec(ms) + " (dated in note)"@
        },
        None => match e.note_created_ms {
            Some(created) => "note saved "@ + format_date_spec(created) + "; event date unknown"@,
            None => "undated"@,
        },
    }
}

/// `[N] <date label> — from "<title>":`, the text, and a blank line.
pub open spec fn context_line(e: ContextEntry) -> Seq<char> {
    "["@ + decimal(e.index as nat) + "] "@ + date_label(e) + " — from \""@ + e.page_title@ + "\":\n"@
        + e.text@ + "\n\n"@
}

pub open spec fn context_lines(es: Seq<ContextEntry>) -> Seq<char>
    decreases es.len(),
{
    if es.len() == 0 {
        seq![]
    } else {
        context_lines(es.drop_last()) + context_line(es.last())
    }
}

fn push_date_label(out: &mut Vec<char>, e: &ContextEntry)
    ensures
        final(out)@ == old(out)@ + date_label(*e),
{
    match e.date_ms {
        Some(ms) => {
            let d = format_date_ms(ms);
            push_str(out, d.as_str());
            if e.is_journal {
                push_str(out, " (journal)");
            } else {
                push_str(out, " (dated in note)");
            }
        },
        None => match e.note_created_ms {
            Some(created) => {
                push_str(out, "note saved ");
                let d = format_date_ms(created);
                push_str(out, d.as_str());
                push_str(out, "; event date unknown");
            },
            None => {
                push_str(out, "undated");
            },
        },
    }
    proof {
        assert(final(out)@ =~= old(out)@ + date_label(*e));
    }
}

/// Render the entries as numbered, dated prompt lines, trailing white space
/// removed; empty without entries.
pub fn build_context_block(entries: &[ContextEntry]) -> (r: String)
    ensures
        r@ == trim_end(context_lines(entries@)),
{
    let mut out: Vec<char> = Vec::new();
    let mut i: usize = 0;
    while i < entries.len()
        invariant
            i <= entries.len(),
            out@ == context_lines(entries@.take(i as int)),
        decreases entries.len() - i,
    {
        let e = &entries[i];
        let ghost before = out@;
        push_str(&mut out, "[");
        let n = decimal_exec(e.index as u64);
        push_all(&mut out, &n);
        push_str(&mut out, "] ");
        push_date_label(&mut out, e);
        push_str(&mut out, " — from \"");
        push_str(&mut out, e.page_title.as_str());
        push_str(&mut out, "\":\n");
        push_str(&mut out, e.text.as_str());
        push_str(&mut out, "\n\n");
        proof {
            assert(out@ =~= before + context_line(*e));
            assert(entries@.take(i + 1).drop_last() =~= entries@.take(i as int));
            assert(entries@.take(i + 1).last() == *e);
        }
        i += 1;
    }
    proof {
        assert(entries@.take(i as int) =~= entries@);
    }
    let t = trim_end_chars(&out);
    string_of(&t)
}

/// A structured citation returned alongside an answer.
#[derive(Debug, Clone)]
pub struct Source {
    /// The `[N]` citation marker used in the context and answer.
    pub index: usize,
    pub page_id: String,
    pub page_title: String,
    pub block_id: String,
    /// The event date, when one is known.
    pub date: Option<String>,
}

/// A source as plain values.
pub open spec fn source_view(s: Source) -> (nat, Seq<char>, Seq<char>, Seq<char>, Option<Seq<char>>) {
    (s.index as nat, s.page_id@, s.page_title@, s.block_id@, match s.date {
        Some(d) => Some(d@),
        None => None,
    })
}

/// The source an entry becomes: its ids and title, and its event date (never
/// the saved timestamp).
pub open spec fn entry_source(e: ContextEntry) -> (nat, Seq<char>, Seq<char>, Seq<char>, Option<Seq<char>>) {
    (e.index as nat, e.page_id@, e.page_title@, e.block_id@, match e.date_ms {
        Some(ms) => Some(format_date_spec(ms)),
        None => None,
    })
}

/// The entries whose marker the answer cited, in entry order.
pub open spec fn sources_spec(es: Seq<ContextEntry>, cited: Seq<nat>) -> Seq<(nat, Seq<char>, Seq<char>, Seq<char>, Option<Seq<char>>)>
    decreases es.len(),
{
    if es.len() == 0 {
        seq![]
    } else if cited.contains(es.last().index as nat) {
        sources_spec(es.drop_last(), cited).push(entry_source(es.last()))
    } else {
        sources_spec(es.drop_last(), cited)
    }
}

/// The cited-sources list of an answer: only entries whose `[N]` marker the
/// answer referenced.
pub fn build_sources(entries: &[ContextEntry], answer: &str) -> (r: Vec<Source>)
    ensures
        r@.map_values(|s: Source| source_view(s)) == sources_spec(entries@, cited_from(answer@, 0)),
{
    let cited = parse_cited_indices(answer);
    let mut out: Vec<Source> = Vec::new();
    let mut i: usize = 0;
    while i < entries.len()
        invariant
            i <= entries.len(),
            forall|x: nat| #[trigger] as_nats(cited@).contains(x) <==> cited_from(answer@, 0).contains(x),
            out@.map_values(|s: Source| source_view(s)) == sources_spec(entries@.take(i as int), cited_from(answer@, 0)),
        decreases entries.len() - i,
    {
        let e = &entries[i];
        let mut found = false;
        let mut k: usize = 0;
        while k < cited.len()
            invariant
                k <= cited.len(),
                found == as_nats(cited@.take(k as int)).contains(e.index as nat),
            decreases cited.len() - k,
        {
            proof {
                assert(as_nats(cited@.take(k + 1)) =~= as_nats(cited@.take(k as int)).push(cited@[k as int] as nat));
                lemma_push_contains(as_nats(cited@.take(k as int)), cited@[k as int] as nat, e.index as nat);
            }
            if cited[k] == e.index {
                found = true;
            }
            k += 1;
        }
        proof {
            assert(cited@.take(k as int) =~= cited@);
            assert(entries@.take(i + 1).drop_last() =~= entries@.take(i as int));
            assert(entries@.take(i + 1).last() == *e);
        }
        if found {
            let date = match e.date_ms {
                Some(ms) => Some(format_date_ms(ms)),
                None => None,
            };
            let s = Source {
                index: e.index,
                page_id: e.page_id.clone(),
                page_title: e.page_title.clone(),
                block_id: e.block_id.clone(),
                date,
            };
            let ghost before = out@;
            out.push(s);
            proof {
                assert(out@ == before.push(s));
                assert(source_view(s) == entry_source(*e));
                assert(out@.map_values(|s: Source| source_view(s)) =~= before.map_values(|s: Source| source_view(s)).push(source_view(s)));
            }
        }
        i += 1;
    }
    proof {
        assert(entries@.take(i as int) =~= entries@);
    }
    out
}

/// Whether a web-research failure reads as rate limiting: it mentions `429`,
/// or `too many requests` in any letter case.
pub open spec fn is_rate_limited(error: Seq<char>) -> bool {
    contains(error, "429"@) || contains(spec_str_lowercase(error), "too many requests"@)
}

/// A web-research failure as the user reads it: a calm "wait a moment" for
/// rate limiting, otherwise the error in brackets with a note that the notes
/// answer is unaffected.
pub open spec fn web_failure_spec(error: Seq<char>) -> Seq<char> {
    if is_rate_limited(error) {
        "I couldn't search the web just now — the search engine is rate-limiting requests \
         (too many searches in a short time). This usually clears within a minute or two; \
         your notes answer above is unaffected."@
    } else {
        "I couldn't complete the web research just now ("@ + error + "). Your notes answer above is \
             unaffected — you can try again."@
    }
}

/// Turn a web-research failure into something the user can act on.
pub fn describe_web_failure(error: &str) -> (r: String)
    ensures
        r@ == web_failure_spec(error@),
{
    let e = chars_of(error);
    let lower = str_lowercase(error);
    let lower_chars = chars_of(lower.as_str());
    if contains_str(&e, "429") || contains_str(&lower_chars, "too many requests") {
        return crate::text::owned("I couldn't search the web just now — the search engine is rate-limiting requests \
         (too many searches in a short time). This usually clears within a minute or two; \
         your notes answer above is unaffected.");
    }
    let mut out = chars_of("I couldn't complete the web research just now (");
    push_all(&mut out, &e);
    push_str(&mut out, "). Your notes answer above is \
             unaffected — you can try again.");
    string_of(&out)
}

/// One cited web source.
#[derive(Debug, Clone)]
pub struct Citation {
    pub number: usize,
    pub title: String,
    pub url: String,
}

/// One summarised topic of a web-research run.
#[derive(Debug, Clone)]
pub struct ResearchTopic {
    pub topic: String,
    pub summary: String,
    pub tags: Vec<String>,
}

/// What a web-research run produced.
#[derive(Debug, Clone)]
pub struct WebResearchResult {
    pub title_answer: Option<String>,
    pub topics: Vec<ResearchTopic>,
    pub citations: Vec<Citation>,
}

/// The direct answer, trimmed, with a blank line after it, when there is one.
pub open spec fn answer_part(answer: Option<String>) -> Seq<char> {
    match answer {
        Some(a) => if trim(a@).len() > 0 {
            trim(a@) + "\n\n"@
        } else {
            seq![]
        },
        None => seq![],
    }
}

/// A topic with a non-blank summary: its heading in bold (when it has one)
/// and its summary, each followed by a blank line.
pub open spec fn topic_part(t: ResearchTopic) -> Seq<char> {
    let s = trim(t.summary@);
    let h = trim(t.topic@);
    if s.len() == 0 {
        seq![]
    } else {
        (if h.len() > 0 {
            "**"@ + h + "**\n\n"@
        } else {
            seq![]
        }) + s + "\n\n"@
    }
}

pub open spec fn topics_part(ts: Seq<ResearchTopic>) -> Seq<char>
    decreases ts.len(),
{
    if ts.len() == 0 {
        seq![]
    } else {
        topics_part(ts.drop_last()) + topic_part(ts.last())
    }
}

/// The "From the web" section: the direct answer and the topics, trailing
/// white space removed, or an honest one-line note when that is empty.
pub open spec fn web_section_spec(result: WebResearchResult) -> Seq<char> {
    let body = trim_end(answer_part(result.title_answer) + topics_part(result.topics@));
    if body.len() == 0 {
        "I searched the web but couldn't extract a useful summary from the sources."@
    } else {
        body
    }
}

/// A text whose last character is not white space keeps it when trimmed.
proof fn lemma_trim_keeps_last(s: Seq<char>)
    requires
        s.len() > 0,
        !is_ws(s.last()),
    ensures
        trim(s).len() > 0,
    decreases s.len(),
{
    lemma_trim_start_keeps_last(s);
}

proof fn lemma_trim_start_keeps_last(s: Seq<char>)
    requires
        s.len() > 0,
        !is_ws(s.last()),
    ensures
        trim_start(s).len() > 0,
        trim_start(s).last() == s.last(),
    decreases s.len(),
{
    if is_ws(s[0]) {
        assert(s.len() > 1);
        assert(s.drop_first().last() == s.last());
        lemma_trim_start_keeps_last(s.drop_first());
    }
}

proof fn lemma_trim_end_last(s: Seq<char>)
    ensures
        trim_end(s).len() > 0 ==> !is_ws(trim_end(s).last()),
    decreases s.len(),
{
    if s.len() > 0 && is_ws(s.last()) {
        lemma_trim_end_last(s.drop_last());
    }
}

/// Render a web-research result as the Markdown body of the "From the web"
/// section; never blank.
pub fn render_web_section(result: &WebResearchResult) -> (r: String)
    ensures
        r@ == web_section_spec(*result),
        trim(r@).len() > 0,
{
    let mut out: Vec<char> = Vec::new();
    match &result.title_answer {
        Some(a) => {
            let ac = chars_of(a.as_str());
            let t = trim_chars(&ac);
            if t.len() > 0 {
                push_all(&mut out, &t);
                push_str(&mut out, "\n\n");
            }
        },
        None => {},
    }
    proof {
        assert(out@ =~= answer_part(result.title_answer) + topics_part(result.topics@.take(0)));
    }
    let mut i: usize = 0;
    while i < result.topics.len()
        invariant
            i <= result.topics.len(),
            out@ == answer_part(result.title_answer) + topics_part(result.topics@.take(i as int)),
        decreases result.topics.len() - i,
    {
        let topic = &result.topics[i];
        let ghost before = out@;
        let sc = chars_of(topic.summary.as_str());
        let s = trim_chars(&sc);
        if s.len() > 0 {
            let hc = chars_of(topic.topic.as_str());
            let h = trim_chars(&hc);
            if h.len() > 0 {
                push_str(&mut out, "**");
                push_all(&mut out, &h);
                push_str(&mut out, "**\n\n");
            }
            push_all(&mut out, &s);
            push_str(&mut out, "\n\n");
        }
        proof {
            assert(out@ =~= before + topic_part(*topic));
            assert(result.topics@.take(i + 1).drop_last() =~= result.topics@.take(i as int));
            assert(result.topics@.take(i + 1).last() == *topic);
        }
        i += 1;
    }
    proof {
        assert(result.topics@.take(i as int) =~= result.topics@);
    }
    let body = trim_end_chars(&out);
    proof {
        lemma_trim_end_last(out@);
        reveal_strlit("I searched the web but couldn't extract a useful summary from the sources.");
        if body@.len() > 0 {
            lemma_trim_keeps_last(body@);
        } else {
            lemma_trim_keeps_last("I searched the web but couldn't extract a useful summary from the sources."@);
        }
    }
    if body.len() == 0 {
        crate::text::owned("I searched the web but couldn't extract a useful summary from the sources.")
    } else {
        string_of(&body)
    }
}

/// A coarse phase of answering a question, driven by real transitions.
#[derive(Debug, Clone, Copy, PartialEq, Eq, Structural)]
pub enum AskPhase {
    Retrieving,
    ProcessingPrompt,
    Thinking,
    Generating,
    SearchingWeb,
    ReadingSources,
    Planning,
    Assessing,
    Refining,
    Synthesizing,
}

impl AskPhase {
    /// The stable lower-case identifier of a phase on the wire.
    pub open spec fn name_spec(self) -> Seq<char> {
        match self {
            AskPhase::Retrieving => "retrieving"@,
            AskPhase::ProcessingPrompt => "processing_prompt"@,
            AskPhase::Thinking => "thinking"@,
            AskPhase::Generating => "generating"@,
            AskPhase::SearchingWeb => "searching_web"@,
            AskPhase::ReadingSources => "reading_sources"@,
            AskPhase::Planning => "planning"@,
            AskPhase::Assessing => "assessing"@,
            AskPhase::Refining => "refining"@,
            AskPhase::Synthesizing => "synthesizing"@,
        }
    }

    /// Stable lower-case identifier for the UI and event wire format.
    pub fn as_str(self) -> (r: &'static str)
        ensures
            r@ == self.name_spec(),
    {
        match self {
            AskPhase::Retrieving => "retrieving",
            AskPhase::ProcessingPrompt => "processing_prompt",
            AskPhase::Thinking => "thinking",
            AskPhase::Generating => "generating",
            AskPhase::SearchingWeb => "searching_web",
            AskPhase::ReadingSources => "reading_sources",
            AskPhase::Planning => "planning",
            AskPhase::Assessing => "assessing",
            AskPhase::Refining => "refining",
            AskPhase::Synthesizing => "synthesizing",
        }
    }
}

/// A blended answer plus the structured sources that informed it.
#[derive(Debug, Clone)]
pub struct AskResponse {
    pub answer: String,
    pub sources: Vec<Source>,
}

/// An event emitted while streaming an answer.
pub enum AskStreamEvent<'a> {
    /// The answering phase changed.
    Phase(AskPhase),
    /// A chunk of answer text to append.
    Delta(&'a str),
    /// A transient progress note for the current phase.
    Note(&'a str),
}

/// Result of a streamed answer once generation finishes.
pub struct AskStreamOutcome {
    /// Sources the model actually cited.
    pub sources: Vec<Source>,
    /// Shown in place of an answer when the model only reasoned.
    pub trailing_message: Option<String>,
    /// Web sources cited by the "From the web" section.
    pub web_citations: Vec<Citation>,
}


// ---------------------------------------------------------------------------
// Lexical relevance.
// ---------------------------------------------------------------------------

/// Scan state of splitting at non-alphanumeric characters: finished tokens
/// and the token in progress.
pub open spec fn tokens_scan(s: Seq<char>) -> (Seq<Seq<char>>, Seq<char>)
    decreases s.len(),
{
    if s.len() == 0 {
        (seq![], seq![])
    } else {
        let (done, cur) = tokens_scan(s.drop_last());
        let c = s.last();
        if !spec_is_alphanumeric(c) {
            if cur.len() > 0 {
                (done.push(cur), seq![])
            } else {
                (done, seq![])
            }
        } else {
            (done, cur.push(c))
        }
    }
}

/// The maximal runs of alphanumeric characters.
pub open spec fn alnum_tokens(s: Seq<char>) -> Seq<Seq<char>> {
    let (done, cur) = tokens_scan(s);
    if cur.len() > 0 {
        done.push(cur)
    } else {
        done
    }
}

pub fn alnum_tokens_exec(s: &Vec<char>) -> (r: Vec<Vec<char>>)
    ensures
        r.deep_view() == alnum_tokens(s@),
{
    let mut done: Vec<Vec<char>> = Vec::new();
    let mut cur: Vec<char> = Vec::new();
    let mut i: usize = 0;
    proof {
        assert(done.deep_view() =~= Seq::<Seq<char>>::empty());
        assert(cur@ =~= Seq::<char>::empty());
    }
    while i < s.len()
        invariant
            i <= s.len(),
            (done.deep_view(), cur@) == tokens_scan(s@.take(i as int)),
        decreases s.len() - i,
    {
        let c = s[i];
        proof {
            assert(s@.take(i + 1).drop_last() =~= s@.take(i as int));
            assert(s@.take(i + 1).last() == c);
        }
        let ghost before = done.deep_view();
        if !is_alphanumeric(c) {
            if cur.len() > 0 {
                let ghost cv = cur@;
                let w = cur;
                done.push(w);
                proof {
                    lemma_push_deep(before, &done, cv);
                }
            }
            cur = Vec::new();
            proof {
                assert(cur@ =~= Seq::<char>::empty());
            }
        } else {
            cur.push(c);
        }
        i += 1;
    }
    proof {
        assert(s@.take(i as int) =~= s@);
    }
    if cur.len() > 0 {
        let ghost before = done.deep_view();
        let ghost cv = cur@;
        done.push(cur);
        proof {
            lemma_push_deep(before, &done, cv);
        }
    }
    done
}

/// A token matches a salient term by prefix in either direction; the term
/// may extend the token only when the token has at least three bytes.
pub open spec fn token_matches_term(tok: Seq<char>, term: Seq<char>) -> bool {
    starts_with(tok, term) || (starts_with(term, tok) && utf8_len(tok) >= 3)
}

/// Whether some token of the lower-cased content matches some salient
/// term; never with no salient terms.
pub open spec fn matches_salient_spec(content: Seq<char>, terms: Seq<Seq<char>>) -> bool {
    let toks = alnum_tokens(spec_str_lowercase(content));
    terms.len() > 0 && exists|i: int, j: int|
        0 <= i < toks.len() && 0 <= j < terms.len() && token_matches_term(#[trigger] toks[i], #[trigger] terms[j])
}

/// Whether `content` mentions one of the question's salient terms, matched
/// by prefix so that light inflections still count.
pub fn content_matches_salient_term(content: &str, salient_terms: &[String]) -> (r: bool)
    ensures
        r == matches_salient_spec(content@, salient_terms@.map_values(|t: String| t@)),
{
    let ghost terms = salient_terms@.map_values(|t: String| t@);
    if salient_terms.len() == 0 {
        return false;
    }
    let lower = chars_of(str_lowercase(content).as_str());
    let toks = alnum_tokens_exec(&lower);
    let ghost tv = toks.deep_view();
    let mut i: usize = 0;
    while i < toks.len()
        invariant
            i <= toks.len(),
            tv == toks.deep_view(),
            tv == alnum_tokens(spec_str_lowercase(content@)),
            terms == salient_terms@.map_values(|t: String| t@),
            forall|a: int, b: int|
                0 <= a < i && 0 <= b < terms.len() ==> !token_matches_term(#[trigger] tv[a], #[trigger] terms[b]),
        decreases toks.len() - i,
    {
        let tok = &toks[i];
        proof {
            lemma_chars_deep(tok);
        }
        let mut j: usize = 0;
        while j < salient_terms.len()
            invariant
                i < toks.len(),
                j <= salient_terms.len(),
                tv == toks.deep_view(),
                tv == alnum_tokens(spec_str_lowercase(content@)),
                tok@ == tv[i as int],
                terms == salient_terms@.map_values(|t: String| t@),
                forall|b: int| 0 <= b < j ==> !token_matches_term(tv[i as int], #[trigger] terms[b]),
            decreases salient_terms.len() - j,
        {
            let term = chars_of(salient_terms[j].as_str());
            proof {
                assert(terms[j as int] == term@);
            }
            if starts_with_exec(tok, &term) || (starts_with_exec(&term, tok) && utf8_len_wide(tok) >= 3) {
                proof {
                    assert(token_matches_term(tv[i as int], terms[j as int]));
                }
                return true;
            }
            j += 1;
        }
        i += 1;
    }
    false
}

} // verus!
