//! Regular-expression matching from the `regex` crate.
//!
//! Each operation is named by what it returns for a pattern and a text; the
//! crate's matching engine is not restated here.
use vstd::prelude::*;
use crate::text::{char_index_of_byte, char_index_of_byte_exec, lemma_char_index_mono, lemma_char_index_of_byte, push_all, slice};

verus! {

/// What `Regex::new(pattern)` followed by `replace_all(text, replacement)`
/// returns (or `text` itself when the pattern does not compile).
pub uninterp spec fn spec_replace_all(pattern: Seq<char>, text: Seq<char>, replacement: Seq<char>) -> Seq<char>;

/// What `Regex::new(pattern)` followed by `is_match(text)` returns (`false`
/// when the pattern does not compile).
pub uninterp spec fn spec_is_match(pattern: Seq<char>, text: Seq<char>) -> bool;

/// The pieces `Regex::new(pattern)` followed by `split(text)` yields (the
/// whole text when the pattern does not compile).
pub uninterp spec fn spec_split(pattern: Seq<char>, text: Seq<char>) -> Seq<Seq<char>>;

/// For each match of `Regex::new(pattern)` in `text` (`captures_iter`), in
/// order: the byte offset where the match starts, the byte offset where it
/// ends, and each capture group (`None` when the group did not take part).
pub uninterp spec fn spec_captures(pattern: Seq<char>, text: Seq<char>) -> Seq<(int, int, Seq<Option<Seq<char>>>)>;

/// `Regex::replace_all`: every match of `pattern` in `text` replaced by
/// `replacement` (with `$n` group references expanded). The result is named.
#[verifier::external_body]
pub fn replace_all(pattern: &str, text: &str, replacement: &str) -> (r: String)
    ensures
        r@ == spec_replace_all(pattern@, text@, replacement@),
{
    match regex::Regex::new(pattern) {
        Ok(re) => re.replace_all(text, replacement).into_owned(),
        Err(_) => text.to_string(),
    }
}

/// `Regex::is_match`. The result is named.
#[verifier::external_body]
pub fn is_match(pattern: &str, text: &str) -> (r: bool)
    ensures
        r == spec_is_match(pattern@, text@),
{
    match regex::Regex::new(pattern) {
        Ok(re) => re.is_match(text),
        Err(_) => false,
    }
}

/// `Regex::split`, collected. The result is named.
#[verifier::external_body]
pub fn split(pattern: &str, text: &str) -> (r: Vec<String>)
    ensures
        r.deep_view() == spec_split(pattern@, text@),
{
    match regex::Regex::new(pattern) {
        Ok(re) => re.split(text).map(|piece| piece.to_string()).collect(),
        Err(_) => vec![text.to_string()],
    }
}

/// One match of a pattern: where it starts and ends (byte offsets into the
/// text) and its capture groups.
pub struct CaptureMatch {
    pub start: usize,
    pub end: usize,
    pub groups: Vec<Option<String>>,
}

/// The view of one match.
pub open spec fn capture_view(m: CaptureMatch) -> (int, int, Seq<Option<Seq<char>>>) {
    (m.start as int, m.end as int, m.groups@.map_values(|g: Option<String>| match g {
        Some(s) => Some(s@),
        None => None,
    }))
}

/// A match lies on character boundaries of the text, its start first.
pub open spec fn match_placed(text: Seq<char>, m: (int, int, Seq<Option<Seq<char>>>)) -> bool {
    match (char_index_of_byte(text, m.0), char_index_of_byte(text, m.1)) {
        (Some(a), Some(b)) => a <= b,
        _ => false,
    }
}

/// Matches lie on character boundaries, and each one ends before the next
/// one starts.
pub open spec fn matches_ok(text: Seq<char>, ms: Seq<(int, int, Seq<Option<Seq<char>>>)>) -> bool {
    &&& forall|i: int| 0 <= i < ms.len() ==> match_placed(text, #[trigger] ms[i])
    &&& forall|i: int| 0 <= i < ms.len() - 1 ==> #[trigger] ms[i].1 <= ms[i + 1].0
}

/// `Regex::captures_iter`, collected. The matches are named; of them the
/// contract states what the documentation of `captures_iter` and `Match`
/// gives: successive non-overlapping matches, each with start and end on
/// character boundaries, the start first.
#[verifier::external_body]
pub fn captures(pattern: &str, text: &str) -> (r: Vec<CaptureMatch>)
    ensures
        r@.map_values(|m: CaptureMatch| capture_view(m)) == spec_captures(pattern@, text@),
        matches_ok(text@, r@.map_values(|m: CaptureMatch| capture_view(m))),
{
    let Ok(re) = regex::Regex::new(pattern) else { return Vec::new() };
    re.captures_iter(text).map(|caps| {
        let (start, end) = caps.get(0).map_or((0, 0), |m| (m.start(), m.end()));
        let groups = caps.iter().skip(1).map(|g| g.map(|m| m.as_str().to_string())).collect();
        CaptureMatch { start, end, groups }
    }).collect()
}

/// For each match of `Regex::new(pattern)` in `text` (`find_iter`), in
/// order: the byte offsets where the match starts and ends, and the matched
/// text (nothing when the pattern does not compile).
pub uninterp spec fn spec_find_iter(pattern: Seq<char>, text: Seq<char>) -> Seq<(int, int, Seq<char>)>;

/// One match of a pattern: its byte offsets in the text and what it matched.
pub struct FoundMatch {
    pub start: usize,
    pub end: usize,
    pub text: String,
}

/// The view of one match.
pub open spec fn found_view(m: FoundMatch) -> (int, int, Seq<char>) {
    (m.start as int, m.end as int, m.text@)
}

/// A match as the `regex` documentation describes every match: both offsets
/// fall on character boundaries of the text, the start comes first, and the
/// matched text is what lies between them.
pub open spec fn well_placed(text: Seq<char>, m: (int, int, Seq<char>)) -> bool {
    match (char_index_of_byte(text, m.0), char_index_of_byte(text, m.1)) {
        (Some(a), Some(b)) => a <= b && m.2 == text.subrange(a, b),
        _ => false,
    }
}

/// `Regex::find_iter`, collected. The matches are named; of each one the
/// contract states what `Match::start`, `Match::end` and `Match::as_str`
/// document: boundary offsets in order, and the text between them.
#[verifier::external_body]
pub fn find_iter(pattern: &str, text: &str) -> (r: Vec<FoundMatch>)
    ensures
        r@.map_values(|m: FoundMatch| found_view(m)) == spec_find_iter(pattern@, text@),
        forall|i: int| 0 <= i < r@.len() ==> well_placed(text@, #[trigger] found_view(r@[i])),
{
    let Ok(re) = regex::Regex::new(pattern) else { return Vec::new() };
    re.find_iter(text).map(|m| FoundMatch {
        start: m.start(),
        end: m.end(),
        text: m.as_str().to_string(),
    }).collect()
}

/// Character index of a match's start.
pub open spec fn start_index(text: Seq<char>, m: (int, int, Seq<Option<Seq<char>>>)) -> int {
    char_index_of_byte(text, m.0)->0
}

/// Character index of a match's end.
pub open spec fn end_index(text: Seq<char>, m: (int, int, Seq<Option<Seq<char>>>)) -> int {
    char_index_of_byte(text, m.1)->0
}

/// The text from character `last` on, with the matches from the `i`-th on
/// replaced by their replacements.
pub open spec fn splice_from(
    text: Seq<char>,
    ms: Seq<(int, int, Seq<Option<Seq<char>>>)>,
    reps: Seq<Seq<char>>,
    i: int,
    last: int,
) -> Seq<char>
    decreases ms.len() - i,
{
    if i < 0 || i >= ms.len() {
        text.subrange(last, text.len() as int)
    } else {
        text.subrange(last, start_index(text, ms[i])) + reps[i] + splice_from(
            text,
            ms,
            reps,
            i + 1,
            end_index(text, ms[i]),
        )
    }
}

/// The text with each match replaced by its replacement, what lies between
/// the matches kept (`Regex::replace_all` with a replacer).
pub open spec fn splice_matches(text: Seq<char>, ms: Seq<(int, int, Seq<Option<Seq<char>>>)>, reps: Seq<Seq<char>>) -> Seq<char> {
    splice_from(text, ms, reps, 0, 0)
}

/// The text of capture group `k` (counted from 1), empty when it did not
/// take part.
pub open spec fn group_text(m: (int, int, Seq<Option<Seq<char>>>), k: int) -> Seq<char> {
    if 1 <= k <= m.2.len() {
        match m.2[k - 1] {
            Some(g) => g,
            None => Seq::empty(),
        }
    } else {
        Seq::empty()
    }
}

/// The text of capture group `k` (counted from 1) of a match, empty when it
/// did not take part.
pub fn group_text_exec(m: &CaptureMatch, k: usize) -> (r: Vec<char>)
    ensures
        r@ == group_text(capture_view(*m), k as int),
{
    if 1 <= k && k <= m.groups.len() {
        match &m.groups[k - 1] {
            Some(g) => crate::text::chars_of(g.as_str()),
            None => Vec::new(),
        }
    } else {
        Vec::new()
    }
}

/// The text with each match replaced by the replacement at the same
/// position; the matches lie on character boundaries, in order.
pub fn splice_matches_exec(text: &Vec<char>, ms: &Vec<CaptureMatch>, reps: &Vec<Vec<char>>) -> (r: Vec<char>)
    requires
        matches_ok(text@, ms@.map_values(|m: CaptureMatch| capture_view(m))),
        reps@.len() == ms@.len(),
    ensures
        r@ == splice_matches(text@, ms@.map_values(|m: CaptureMatch| capture_view(m)), reps.deep_view()),
{
    let ghost mv = ms@.map_values(|m: CaptureMatch| capture_view(m));
    let ghost rv = reps.deep_view();
    let mut out: Vec<char> = Vec::new();
    let mut last: usize = 0;
    let mut i: usize = 0;
    proof {
        assert(out@ + splice_from(text@, mv, rv, 0, 0) =~= splice_matches(text@, mv, rv));
    }
    while i < ms.len()
        invariant
            i <= ms@.len(),
            reps@.len() == ms@.len(),
            mv == ms@.map_values(|m: CaptureMatch| capture_view(m)),
            rv == reps.deep_view(),
            matches_ok(text@, mv),
            last <= text@.len(),
            i > 0 ==> last == end_index(text@, mv[i - 1]),
            i == 0 ==> last == 0,
            out@ + splice_from(text@, mv, rv, i as int, last as int) == splice_matches(text@, mv, rv),
        decreases ms@.len() - i,
    {
        let m = &ms[i];
        proof {
            assert(mv[i as int] == capture_view(ms@[i as int]));
            assert(match_placed(text@, mv[i as int]));
            lemma_char_index_of_byte(text@, mv[i as int].0);
            lemma_char_index_of_byte(text@, mv[i as int].1);
            if i > 0 {
                assert(mv[i - 1].1 <= mv[i as int].0);
                assert(match_placed(text@, mv[i - 1]));
                lemma_char_index_mono(text@, mv[i - 1].1, mv[i as int].0);
            }
        }
        let s = char_index_of_byte_exec(text, m.start).unwrap();
        let e = char_index_of_byte_exec(text, m.end).unwrap();
        let between = slice(text, last, s);
        let ghost before = out@;
        push_all(&mut out, &between);
        push_all(&mut out, &reps[i]);
        proof {
            assert(rv[i as int] == reps@[i as int]@);
            assert(out@ + splice_from(text@, mv, rv, i + 1, e as int) =~= before + splice_from(
                text@,
                mv,
                rv,
                i as int,
                last as int,
            ));
        }
        last = e;
        i += 1;
    }
    let tail = slice(text, last, text.len());
    let ghost before = out@;
    push_all(&mut out, &tail);
    proof {
        assert(out@ =~= before + splice_from(text@, mv, rv, i as int, last as int));
    }
    out
}

} // verus!
