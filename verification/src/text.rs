//! Character-level text primitives shared by every parser and formatter of
//! the crate, each specified over `Seq<char>`.
use vstd::prelude::*;

verus! {

// ---------------------------------------------------------------------------
// Conversions between `str`/`String` and character vectors.
// ---------------------------------------------------------------------------

/// The characters of a string slice, in order.
pub fn chars_of(s: &str) -> (r: Vec<char>)
    ensures
        r@ == s@,
{
    broadcast use vstd::string::axiom_spec_iter, vstd::string::next_postcondition;
    let mut v: Vec<char> = Vec::new();
    let mut it = s.chars();
    loop
        invariant
            v@ + vstd::std_specs::iter::IteratorSpec::remaining(&it) == s@,
        decreases s@.len() - v@.len(),
    {
        let ghost before = vstd::std_specs::iter::IteratorSpec::remaining(&it);
        match it.next() {
            Some(c) => {
                v.push(c);
                proof {
                    assert(before == seq![c] + vstd::std_specs::iter::IteratorSpec::remaining(&it));
                }
            },
            None => {
                return v;
            },
        }
    }
}

/// A `String` holding exactly the given characters (`FromIterator<char>`).
#[verifier::external_body]
pub fn string_of(v: &[char]) -> (r: String)
    ensures
        r@ == v@,
{
    v.iter().collect()
}

/// A `String` with the same characters as a string slice.
pub fn owned(s: &str) -> (r: String)
    ensures
        r@ == s@,
{
    let v = chars_of(s);
    string_of(&v)
}

// ---------------------------------------------------------------------------
// Character classes.
// ---------------------------------------------------------------------------

/// The Unicode `White_Space` property, which `char::is_whitespace` tests.
pub open spec fn is_ws(c: char) -> bool {
    let u = c as u32;
    ||| 0x09 <= u <= 0x0D
    ||| u == 0x20
    ||| u == 0x85
    ||| u == 0xA0
    ||| u == 0x1680
    ||| 0x2000 <= u <= 0x200A
    ||| u == 0x2028
    ||| u == 0x2029
    ||| u == 0x202F
    ||| u == 0x205F
    ||| u == 0x3000
}

/// Whether `c` is Unicode white space.
pub fn is_whitespace(c: char) -> (r: bool)
    ensures
        r == is_ws(c),
{
    let u = c as u32;
    (0x09 <= u && u <= 0x0D) || u == 0x20 || u == 0x85 || u == 0xA0 || u == 0x1680 || (0x2000 <= u
        && u <= 0x200A) || u == 0x2028 || u == 0x2029 || u == 0x202F || u == 0x205F || u == 0x3000
}

/// ASCII decimal digit.
pub open spec fn is_digit(c: char) -> bool {
    '0' <= c && c <= '9'
}

/// ASCII letter.
pub open spec fn is_ascii_alpha(c: char) -> bool {
    ('a' <= c && c <= 'z') || ('A' <= c && c <= 'Z')
}

/// ASCII letter or digit.
pub open spec fn is_ascii_alnum(c: char) -> bool {
    is_ascii_alpha(c) || is_digit(c)
}

/// The general category `Cc`, which `char::is_control` tests.
pub open spec fn is_control(c: char) -> bool {
    let u = c as u32;
    u <= 0x1F || (0x7F <= u && u <= 0x9F)
}

pub fn is_control_char(c: char) -> (r: bool)
    ensures
        r == is_control(c),
{
    let u = c as u32;
    u <= 0x1F || (0x7F <= u && u <= 0x9F)
}

/// ASCII lower-casing of one character (`char::to_ascii_lowercase`).
pub open spec fn ascii_lower(c: char) -> char {
    if 'A' <= c && c <= 'Z' {
        ((c as u32) + 32) as char
    } else {
        c
    }
}

pub fn ascii_lower_char(c: char) -> (r: char)
    ensures
        r == ascii_lower(c),
{
    if 'A' <= c && c <= 'Z' {
        let u = (c as u32) + 32;
        char_from_u32(u)
    } else {
        c
    }
}

/// `char::from_u32` for a Unicode scalar value (not a surrogate, at most
/// `0x10FFFF`): the character with that code.
#[verifier::external_body]
pub fn char_from_u32(u: u32) -> (r: char)
    requires
        u < 0xD800 || (0xE000 <= u && u <= 0x10FFFF),
    ensures
        r == u as char,
{
    char::from_u32(u).unwrap_or('\0')
}

/// ASCII lower-casing of a whole sequence (`str::to_ascii_lowercase`).
pub open spec fn ascii_lower_seq(s: Seq<char>) -> Seq<char> {
    s.map_values(|c: char| ascii_lower(c))
}

pub fn ascii_lowercase(s: &Vec<char>) -> (r: Vec<char>)
    ensures
        r@ == ascii_lower_seq(s@),
{
    let mut out: Vec<char> = Vec::new();
    let mut i: usize = 0;
    while i < s.len()
        invariant
            i <= s.len(),
            out@ == ascii_lower_seq(s@.take(i as int)),
        decreases s.len() - i,
    {
        out.push(ascii_lower_char(s[i]));
        i += 1;
        proof {
            assert(ascii_lower_seq(s@.take(i as int)) =~= ascii_lower_seq(s@.take(i - 1)).push(
                ascii_lower(s@[i - 1]),
            ));
        }
    }
    proof {
        assert(s@.take(i as int) =~= s@);
    }
    out
}

/// ASCII case-insensitive equality (`eq_ignore_ascii_case`).
pub open spec fn eq_ignore_case(a: Seq<char>, b: Seq<char>) -> bool {
    ascii_lower_seq(a) == ascii_lower_seq(b)
}

pub fn eq_ignore_ascii_case(a: &Vec<char>, b: &Vec<char>) -> (r: bool)
    ensures
        r == eq_ignore_case(a@, b@),
{
    let la = ascii_lowercase(a);
    let lb = ascii_lowercase(b);
    seq_eq(&la, &lb)
}

// ---------------------------------------------------------------------------
// Building character vectors.
// ---------------------------------------------------------------------------

/// Equality of two character vectors.
pub fn seq_eq(a: &Vec<char>, b: &Vec<char>) -> (r: bool)
    ensures
        r == (a@ == b@),
{
    if a.len() != b.len() {
        return false;
    }
    let mut i: usize = 0;
    while i < a.len()
        invariant
            i <= a.len(),
            a.len() == b.len(),
            forall|k: int| 0 <= k < i ==> a@[k] == b@[k],
        decreases a.len() - i,
    {
        if a[i] != b[i] {
            return false;
        }
        i += 1;
    }
    proof {
        assert(a@ =~= b@);
    }
    true
}

/// Appends all of `tail` to `out`.
pub fn push_all(out: &mut Vec<char>, tail: &Vec<char>)
    ensures
        final(out)@ == old(out)@ + tail@,
{
    let mut i: usize = 0;
    while i < tail.len()
        invariant
            i <= tail.len(),
            out@ == old(out)@ + tail@.take(i as int),
        decreases tail.len() - i,
    {
        out.push(tail[i]);
        i += 1;
        proof {
            assert(tail@.take(i as int) =~= tail@.take(i - 1).push(tail@[i - 1]));
        }
    }
    proof {
        assert(tail@.take(i as int) =~= tail@);
    }
}

/// Appends the characters of a string slice to `out`.
pub fn push_str(out: &mut Vec<char>, tail: &str)
    ensures
        final(out)@ == old(out)@ + tail@,
{
    let t = chars_of(tail);
    push_all(out, &t);
}

/// The characters `s[from..to]`.
pub fn slice(s: &Vec<char>, from: usize, to: usize) -> (r: Vec<char>)
    requires
        from <= to <= s.len(),
    ensures
        r@ == s@.subrange(from as int, to as int),
{
    let mut out: Vec<char> = Vec::new();
    let mut i: usize = from;
    while i < to
        invariant
            from <= i <= to <= s.len(),
            out@ == s@.subrange(from as int, i as int),
        decreases to - i,
    {
        out.push(s[i]);
        i += 1;
        proof {
            assert(s@.subrange(from as int, i as int) =~= s@.subrange(from as int, i - 1).push(
                s@[i - 1],
            ));
        }
    }
    out
}

// ---------------------------------------------------------------------------
// Trimming.
// ---------------------------------------------------------------------------

/// `str::trim_start`: drop leading white space.
pub open spec fn trim_start(s: Seq<char>) -> Seq<char>
    decreases s.len(),
{
    if s.len() > 0 && is_ws(s[0]) {
        trim_start(s.drop_first())
    } else {
        s
    }
}

/// `str::trim_end`: drop trailing white space.
pub open spec fn trim_end(s: Seq<char>) -> Seq<char>
    decreases s.len(),
{
    if s.len() > 0 && is_ws(s.last()) {
        trim_end(s.drop_last())
    } else {
        s
    }
}

/// `str::trim`.
pub open spec fn trim(s: Seq<char>) -> Seq<char> {
    trim_end(trim_start(s))
}

/// Trimming never lengthens a text.
pub proof fn lemma_trim_shorter(s: Seq<char>)
    ensures
        trim_start(s).len() <= s.len(),
        trim_end(s).len() <= s.len(),
        trim(s).len() <= s.len(),
{
    lemma_trim_start_shorter(s);
    lemma_trim_end_shorter(s);
    lemma_trim_end_shorter(trim_start(s));
}

proof fn lemma_trim_start_shorter(s: Seq<char>)
    ensures
        trim_start(s).len() <= s.len(),
    decreases s.len(),
{
    if s.len() > 0 && is_ws(s[0]) {
        lemma_trim_start_shorter(s.drop_first());
    }
}

proof fn lemma_trim_end_shorter(s: Seq<char>)
    ensures
        trim_end(s).len() <= s.len(),
    decreases s.len(),
{
    if s.len() > 0 && is_ws(s.last()) {
        lemma_trim_end_shorter(s.drop_last());
    }
}

/// Index of the first non-white-space character (or the length).
fn trim_start_index(s: &Vec<char>) -> (i: usize)
    ensures
        i <= s.len(),
        trim_start(s@) == s@.skip(i as int),
{
    let mut i: usize = 0;
    proof {
        assert(s@.skip(0) =~= s@);
    }
    while i < s.len() && is_whitespace(s[i])
        invariant
            i <= s.len(),
            trim_start(s@) == trim_start(s@.skip(i as int)),
        decreases s.len() - i,
    {
        proof {
            assert(s@.skip(i as int).drop_first() =~= s@.skip(i + 1));
        }
        i += 1;
    }
    proof {
        assert(s@.skip(i as int).len() == 0 || !is_ws(s@.skip(i as int)[0]));
    }
    i
}

/// End index after dropping trailing white space of `s[from..to]`.
fn trim_end_index(s: &Vec<char>, from: usize, to: usize) -> (j: usize)
    requires
        from <= to <= s.len(),
    ensures
        from <= j <= to,
        trim_end(s@.subrange(from as int, to as int)) == s@.subrange(from as int, j as int),
{
    let mut j: usize = to;
    while j > from && is_whitespace(s[j - 1])
        invariant
            from <= j <= to <= s.len(),
            trim_end(s@.subrange(from as int, to as int)) == trim_end(
                s@.subrange(from as int, j as int),
            ),
        decreases j,
    {
        proof {
            assert(s@.subrange(from as int, j as int).drop_last() =~= s@.subrange(
                from as int,
                j - 1,
            ));
        }
        j -= 1;
    }
    j
}

pub fn trim_start_chars(s: &Vec<char>) -> (r: Vec<char>)
    ensures
        r@ == trim_start(s@),
{
    let i = trim_start_index(s);
    proof {
        assert(s@.skip(i as int) =~= s@.subrange(i as int, s@.len() as int));
    }
    slice(s, i, s.len())
}

pub fn trim_end_chars(s: &Vec<char>) -> (r: Vec<char>)
    ensures
        r@ == trim_end(s@),
{
    let j = trim_end_index(s, 0, s.len());
    proof {
        assert(s@.subrange(0, s@.len() as int) =~= s@);
    }
    slice(s, 0, j)
}

pub fn trim_chars(s: &Vec<char>) -> (r: Vec<char>)
    ensures
        r@ == trim(s@),
{
    let i = trim_start_index(s);
    proof {
        assert(s@.skip(i as int) =~= s@.subrange(i as int, s@.len() as int));
    }
    let j = trim_end_index(s, i, s.len());
    slice(s, i, j)
}

/// Drop leading characters that belong to `set` (`trim_start_matches` with a
/// character set).
pub open spec fn trim_start_set(s: Seq<char>, set: Seq<char>) -> Seq<char>
    decreases s.len(),
{
    if s.len() > 0 && set.contains(s[0]) {
        trim_start_set(s.drop_first(), set)
    } else {
        s
    }
}

/// Drop trailing characters that belong to `set`.
pub open spec fn trim_end_set(s: Seq<char>, set: Seq<char>) -> Seq<char>
    decreases s.len(),
{
    if s.len() > 0 && set.contains(s.last()) {
        trim_end_set(s.drop_last(), set)
    } else {
        s
    }
}

/// `trim_matches` with a character set.
pub open spec fn trim_set(s: Seq<char>, set: Seq<char>) -> Seq<char> {
    trim_end_set(trim_start_set(s, set), set)
}

/// Membership of a character in a small set.
pub fn contains_char(set: &Vec<char>, c: char) -> (r: bool)
    ensures
        r == set@.contains(c),
{
    let mut i: usize = 0;
    while i < set.len()
        invariant
            i <= set.len(),
            forall|k: int| 0 <= k < i ==> set@[k] != c,
        decreases set.len() - i,
    {
        if set[i] == c {
            return true;
        }
        i += 1;
    }
    false
}

pub fn trim_start_set_chars(s: &Vec<char>, set: &Vec<char>) -> (r: Vec<char>)
    ensures
        r@ == trim_start_set(s@, set@),
{
    let mut i: usize = 0;
    proof {
        assert(s@.skip(0) =~= s@);
    }
    while i < s.len() && contains_char(set, s[i])
        invariant
            i <= s.len(),
            trim_start_set(s@, set@) == trim_start_set(s@.skip(i as int), set@),
        decreases s.len() - i,
    {
        proof {
            assert(s@.skip(i as int).drop_first() =~= s@.skip(i + 1));
        }
        i += 1;
    }
    proof {
        assert(s@.skip(i as int) =~= s@.subrange(i as int, s@.len() as int));
    }
    slice(s, i, s.len())
}

pub fn trim_end_set_chars(s: &Vec<char>, set: &Vec<char>) -> (r: Vec<char>)
    ensures
        r@ == trim_end_set(s@, set@),
{
    let mut j: usize = s.len();
    proof {
        assert(s@.subrange(0, j as int) =~= s@);
    }
    while j > 0 && contains_char(set, s[j - 1])
        invariant
            j <= s.len(),
            trim_end_set(s@, set@) == trim_end_set(s@.subrange(0, j as int), set@),
        decreases j,
    {
        proof {
            assert(s@.subrange(0, j as int).drop_last() =~= s@.subrange(0, j - 1));
        }
        j -= 1;
    }
    slice(s, 0, j)
}

pub fn trim_set_chars(s: &Vec<char>, set: &Vec<char>) -> (r: Vec<char>)
    ensures
        r@ == trim_set(s@, set@),
{
    let a = trim_start_set_chars(s, set);
    trim_end_set_chars(&a, set)
}

// ---------------------------------------------------------------------------
// Searching.
// ---------------------------------------------------------------------------

/// `p` occurs in `s` starting at `i`.
pub open spec fn matches_at(s: Seq<char>, p: Seq<char>, i: int) -> bool {
    0 <= i && i + p.len() <= s.len() && s.subrange(i, i + p.len()) == p
}

/// The first occurrence of `p` in `s` at or after `i`.
pub open spec fn find_from(s: Seq<char>, p: Seq<char>, i: int) -> Option<int>
    decreases s.len() + 1 - i,
{
    if i < 0 || i + p.len() > s.len() {
        None
    } else if matches_at(s, p, i) {
        Some(i)
    } else {
        find_from(s, p, i + 1)
    }
}

/// `str::find` (in characters).
pub open spec fn find(s: Seq<char>, p: Seq<char>) -> Option<int> {
    find_from(s, p, 0)
}

/// `str::contains`.
pub open spec fn contains(s: Seq<char>, p: Seq<char>) -> bool {
    find(s, p) is Some
}

/// `str::starts_with`.
pub open spec fn starts_with(s: Seq<char>, p: Seq<char>) -> bool {
    p.len() <= s.len() && s.take(p.len() as int) == p
}

/// `str::ends_with`.
pub open spec fn ends_with(s: Seq<char>, p: Seq<char>) -> bool {
    p.len() <= s.len() && s.skip(s.len() - p.len()) == p
}

/// Whether `p` occurs in `s` at `i`.
pub fn matches_at_exec(s: &Vec<char>, p: &Vec<char>, i: usize) -> (r: bool)
    ensures
        r == matches_at(s@, p@, i as int),
{
    if i > s.len() || p.len() > s.len() - i {
        return false;
    }
    let mut k: usize = 0;
    while k < p.len()
        invariant
            i + p.len() <= s.len(),
            k <= p.len(),
            forall|m: int| 0 <= m < k ==> s@[i + m] == p@[m],
        decreases p.len() - k,
    {
        if s[i + k] != p[k] {
            proof {
                assert(s@.subrange(i as int, i + p.len())[k as int] != p@[k as int]);
            }
            return false;
        }
        k += 1;
    }
    proof {
        assert(s@.subrange(i as int, i + p.len()) =~= p@);
    }
    true
}

/// First occurrence of `p` at or after `from`.
pub fn find_from_exec(s: &Vec<char>, p: &Vec<char>, from: usize) -> (r: Option<usize>)
    ensures
        match r {
            Some(k) => find_from(s@, p@, from as int) == Some(k as int),
            None => find_from(s@, p@, from as int) is None,
        },
{
    let mut i: usize = from;
    while i <= s.len() && p.len() <= s.len() - i
        invariant
            from <= i,
            find_from(s@, p@, from as int) == find_from(s@, p@, i as int),
        decreases s.len() + 1 - i,
    {
        if matches_at_exec(s, p, i) {
            return Some(i);
        }
        if i == s.len() {
            proof {
                assert(find_from(s@, p@, i + 1) is None);
            }
            return None;
        }
        i += 1;
    }
    None
}

pub fn find_exec(s: &Vec<char>, p: &Vec<char>) -> (r: Option<usize>)
    ensures
        match r {
            Some(k) => find(s@, p@) == Some(k as int),
            None => find(s@, p@) is None,
        },
{
    find_from_exec(s, p, 0)
}

pub fn contains_exec(s: &Vec<char>, p: &Vec<char>) -> (r: bool)
    ensures
        r == contains(s@, p@),
{
    find_exec(s, p).is_some()
}

pub fn starts_with_exec(s: &Vec<char>, p: &Vec<char>) -> (r: bool)
    ensures
        r == starts_with(s@, p@),
{
    let r = matches_at_exec(s, p, 0);
    proof {
        if p@.len() <= s@.len() {
            assert(s@.subrange(0, p@.len() as int) =~= s@.take(p@.len() as int));
        }
    }
    r
}

pub fn ends_with_exec(s: &Vec<char>, p: &Vec<char>) -> (r: bool)
    ensures
        r == ends_with(s@, p@),
{
    if p.len() > s.len() {
        return false;
    }
    let r = matches_at_exec(s, p, s.len() - p.len());
    proof {
        assert(s@.subrange(s@.len() - p@.len(), s@.len() as int) =~= s@.skip(
            s@.len() - p@.len(),
        ));
    }
    r
}

/// Properties of a found occurrence.
pub proof fn lemma_find_from(s: Seq<char>, p: Seq<char>, i: int)
    requires
        0 <= i,
    ensures
        find_from(s, p, i) matches Some(k) ==> i <= k && matches_at(s, p, k) && forall|m: int|
            i <= m < k ==> !matches_at(s, p, m),
        find_from(s, p, i) is None ==> forall|m: int| i <= m ==> !matches_at(s, p, m),
    decreases s.len() + 1 - i,
{
    if i + p.len() > s.len() {
    } else if matches_at(s, p, i) {
    } else {
        lemma_find_from(s, p, i + 1);
    }
}

/// Last occurrence of `p` in `s` starting at or before `j`.
pub open spec fn rfind_to(s: Seq<char>, p: Seq<char>, j: int) -> Option<int>
    decreases j + 1,
{
    if j < 0 {
        None
    } else if matches_at(s, p, j) {
        Some(j)
    } else {
        rfind_to(s, p, j - 1)
    }
}

/// `str::rfind` (in characters).
pub open spec fn rfind(s: Seq<char>, p: Seq<char>) -> Option<int> {
    rfind_to(s, p, s.len() - p.len())
}

pub fn rfind_exec(s: &Vec<char>, p: &Vec<char>) -> (r: Option<usize>)
    ensures
        match r {
            Some(k) => rfind(s@, p@) == Some(k as int),
            None => rfind(s@, p@) is None,
        },
{
    if p.len() > s.len() {
        return None;
    }
    let mut j: usize = s.len() - p.len();
    loop
        invariant
            j <= s.len() - p.len(),
            rfind(s@, p@) == rfind_to(s@, p@, j as int),
        decreases j,
    {
        if matches_at_exec(s, p, j) {
            return Some(j);
        }
        if j == 0 {
            proof {
                assert(rfind_to(s@, p@, -1) is None);
            }
            return None;
        }
        j -= 1;
    }
}

/// Properties of a last occurrence.
pub proof fn lemma_rfind_to(s: Seq<char>, p: Seq<char>, j: int)
    ensures
        rfind_to(s, p, j) matches Some(k) ==> 0 <= k <= j && matches_at(s, p, k) && forall|m: int|
            k < m <= j ==> !matches_at(s, p, m),
        rfind_to(s, p, j) is None ==> forall|m: int| 0 <= m <= j ==> !matches_at(s, p, m),
    decreases j + 1,
{
    if j >= 0 && !matches_at(s, p, j) {
        lemma_rfind_to(s, p, j - 1);
    }
}

// ---------------------------------------------------------------------------
// Replacing, splitting, joining.
// ---------------------------------------------------------------------------

/// `str::replace` with a non-empty pattern.
pub open spec fn replace(s: Seq<char>, from: Seq<char>, to: Seq<char>) -> Seq<char>
    decreases s.len(),
{
    if from.len() == 0 {
        s
    } else {
        match find(s, from) {
            None => s,
            Some(i) => if 0 <= i && i + from.len() <= s.len() {
                s.take(i) + to + replace(s.skip(i + from.len()), from, to)
            } else {
                s
            },
        }
    }
}

pub proof fn lemma_find_shift(s: Seq<char>, p: Seq<char>, i: int)
    requires
        0 <= i <= s.len(),
    ensures
        find_from(s, p, i) == (match find(s.skip(i), p) {
            Some(k) => Some(k + i),
            None => None,
        }),
{
    lemma_find_shift_at(s, p, i, i);
}

proof fn lemma_find_shift_at(s: Seq<char>, p: Seq<char>, i: int, j: int)
    requires
        0 <= i <= j,
        i <= s.len(),
    ensures
        find_from(s, p, j) == (match find_from(s.skip(i), p, j - i) {
            Some(k) => Some(k + i),
            None => None,
        }),
    decreases s.len() + 1 - j,
{
    if j + p.len() > s.len() {
    } else {
        assert(s.subrange(j, j + p.len()) =~= s.skip(i).subrange(j - i, j - i + p.len()));
        if !matches_at(s, p, j) {
            lemma_find_shift_at(s, p, i, j + 1);
        }
    }
}

pub fn replace_exec(s: &Vec<char>, from: &Vec<char>, to: &Vec<char>) -> (r: Vec<char>)
    requires
        from.len() > 0,
    ensures
        r@ == replace(s@, from@, to@),
{
    let mut out: Vec<char> = Vec::new();
    let mut i: usize = 0;
    proof {
        assert(s@.skip(0) =~= s@);
    }
    while i <= s.len()
        invariant
            i <= s.len(),
            from@.len() > 0,
            out@ + replace(s@.skip(i as int), from@, to@) == replace(s@, from@, to@),
        decreases s.len() + 1 - i,
    {
        let next = find_from_exec(s, from, i);
        proof {
            lemma_find_shift(s@, from@, i as int);
            lemma_find_from(s@, from@, i as int);
        }
        match next {
            None => {
                let rest = slice(s, i, s.len());
                proof {
                    assert(s@.skip(i as int) =~= s@.subrange(i as int, s@.len() as int));
                }
                push_all(&mut out, &rest);
                return out;
            },
            Some(k) => {
                let head = slice(s, i, k);
                push_all(&mut out, &head);
                push_all(&mut out, to);
                proof {
                    let t = s@.skip(i as int);
                    assert(t.take(k - i) =~= s@.subrange(i as int, k as int));
                    assert(t.skip(k - i + from@.len()) =~= s@.skip(k + from@.len()));
                }
                i = k + from.len();
            },
        }
    }
    out
}

/// A vector of characters is its own deep view.
pub proof fn lemma_chars_deep(v: &Vec<char>)
    ensures
        v.deep_view() == v@,
{
    assert(v.deep_view() =~= v@);
}

/// Pushing onto a vector of character vectors pushes the new item's view.
pub proof fn lemma_push_deep(before: Seq<Seq<char>>, after: &Vec<Vec<char>>, x: Seq<char>)
    requires
        after@.len() == before.len() + 1,
        forall|i: int| 0 <= i < before.len() ==> #[trigger] after@[i].deep_view() == before[i],
        after@.last()@ == x,
    ensures
        after.deep_view() == before.push(x),
{
    lemma_chars_deep(&after@.last());
    assert(after.deep_view() =~= before.push(x));
}

/// Pieces of `s` between occurrences of the character `c` (`str::split`).
pub open spec fn split_char(s: Seq<char>, c: char) -> Seq<Seq<char>>
    decreases s.len(),
{
    match find(s, seq![c]) {
        Some(i) => if 0 <= i < s.len() {
            seq![s.take(i)] + split_char(s.skip(i + 1), c)
        } else {
            seq![s]
        },
        None => seq![s],
    }
}

pub fn split_char_exec(s: &Vec<char>, c: char) -> (r: Vec<Vec<char>>)
    ensures
        r.deep_view() == split_char(s@, c),
{
    let mut out: Vec<Vec<char>> = Vec::new();
    let mut pat: Vec<char> = Vec::new();
    pat.push(c);
    let mut i: usize = 0;
    proof {
        assert(s@.skip(0) =~= s@);
        assert(out.deep_view() =~= Seq::<Seq<char>>::empty());
    }
    while i <= s.len()
        invariant
            i <= s.len(),
            pat@ == seq![c],
            out.deep_view() + split_char(s@.skip(i as int), c) == split_char(s@, c),
        decreases s.len() + 1 - i,
    {
        let next = find_from_exec(s, &pat, i);
        proof {
            lemma_find_shift(s@, pat@, i as int);
            lemma_find_from(s@, pat@, i as int);
        }
        let ghost before = out.deep_view();
        match next {
            None => {
                let rest = slice(s, i, s.len());
                proof {
                    assert(s@.skip(i as int) =~= s@.subrange(i as int, s@.len() as int));
                }
                let ghost rv = rest@;
                out.push(rest);
                proof {
                    lemma_push_deep(before, &out, rv);
                    assert(out.deep_view() =~= before.push(s@.skip(i as int)));
                    assert(out.deep_view() =~= before + seq![s@.skip(i as int)]);
                }
                return out;
            },
            Some(k) => {
                let head = slice(s, i, k);
                let ghost hv = head@;
                out.push(head);
                proof {
                    lemma_push_deep(before, &out, hv);
                    let t = s@.skip(i as int);
                    assert(t.take(k - i) =~= s@.subrange(i as int, k as int));
                    assert(t.skip(k - i + 1) =~= s@.skip(k + 1));
                    assert(out.deep_view() =~= before.push(t.take(k - i)));
                    assert(out.deep_view() + split_char(s@.skip(k + 1), c) =~= before + (seq![
                        t.take(k - i),
                    ] + split_char(t.skip(k - i + 1), c)));
                }
                i = k + 1;
            },
        }
    }
    out
}

/// Drop one trailing `'\r'`.
pub open spec fn strip_cr(s: Seq<char>) -> Seq<char> {
    if s.len() > 0 && s.last() == '\r' {
        s.drop_last()
    } else {
        s
    }
}

/// `str::lines`: pieces between `'\n'`, without a final empty piece, each
/// without a trailing `'\r'`.
pub open spec fn lines(s: Seq<char>) -> Seq<Seq<char>> {
    let parts = split_char(s, '\n');
    let parts = if parts.len() > 0 && parts.last().len() == 0 {
        parts.drop_last()
    } else {
        parts
    };
    parts.map_values(|p: Seq<char>| strip_cr(p))
}

pub fn lines_exec(s: &Vec<char>) -> (r: Vec<Vec<char>>)
    ensures
        r.deep_view() == lines(s@),
{
    let parts = split_char_exec(s, '\n');
    let ghost pv = parts.deep_view();
    let mut n = parts.len();
    if n > 0 && parts[n - 1].len() == 0 {
        n -= 1;
    }
    let ghost kept = if pv.len() > 0 && pv.last().len() == 0 {
        pv.drop_last()
    } else {
        pv
    };
    proof {
        assert(kept =~= pv.take(n as int));
    }
    let mut out: Vec<Vec<char>> = Vec::new();
    let mut i: usize = 0;
    while i < n
        invariant
            i <= n <= parts.len(),
            pv == parts.deep_view(),
            kept == pv.take(n as int),
            out.deep_view() == kept.take(i as int).map_values(|p: Seq<char>| strip_cr(p)),
        decreases n - i,
    {
        let p = &parts[i];
        let ghost before = out.deep_view();
        if p.len() > 0 && p[p.len() - 1] == '\r' {
            let q = slice(p, 0, p.len() - 1);
            proof {
                assert(q@ =~= p@.drop_last());
            }
            let ghost qv = q@;
            out.push(q);
            proof {
                lemma_push_deep(before, &out, qv);
            }
        } else {
            let q = slice(p, 0, p.len());
            proof {
                assert(q@ =~= p@);
            }
            let ghost qv = q@;
            out.push(q);
            proof {
                lemma_push_deep(before, &out, qv);
            }
        }
        i += 1;
        proof {
            assert(pv[i - 1] == p@);
            assert(kept.take(i as int) =~= kept.take(i - 1).push(pv[i - 1]));
            assert(out.deep_view() =~= before.push(strip_cr(p@)));
            assert(out.deep_view() =~= kept.take(i as int).map_values(
                |p: Seq<char>| strip_cr(p),
            ));
        }
    }
    proof {
        assert(kept.take(n as int) =~= kept);
    }
    out
}

/// Pieces joined with a separator (`slice::join`).
pub open spec fn join(parts: Seq<Seq<char>>, sep: Seq<char>) -> Seq<char>
    decreases parts.len(),
{
    if parts.len() == 0 {
        seq![]
    } else if parts.len() == 1 {
        parts[0]
    } else {
        join(parts.drop_last(), sep) + sep + parts.last()
    }
}

pub fn join_exec(parts: &Vec<Vec<char>>, sep: &Vec<char>) -> (r: Vec<char>)
    ensures
        r@ == join(parts.deep_view(), sep@),
{
    let mut out: Vec<char> = Vec::new();
    let mut i: usize = 0;
    while i < parts.len()
        invariant
            i <= parts.len(),
            out@ == join(parts.deep_view().take(i as int), sep@),
        decreases parts.len() - i,
    {
        if i > 0 {
            push_all(&mut out, sep);
        }
        push_all(&mut out, &parts[i]);
        i += 1;
        proof {
            let pv = parts.deep_view();
            assert(pv.take(i as int).drop_last() =~= pv.take(i - 1));
            if i == 1 {
                assert(pv.take(1)[0] == pv[0]);
            }
        }
    }
    proof {
        assert(parts.deep_view().take(i as int) =~= parts.deep_view());
    }
    out
}

// ---------------------------------------------------------------------------
// White-space collapsing.
// ---------------------------------------------------------------------------

/// Scan state of `split_whitespace().join(" ")` over a prefix: the output so
/// far, and whether a separator is owed before the next word.
pub open spec fn collapse_scan(s: Seq<char>) -> (Seq<char>, bool)
    decreases s.len(),
{
    if s.len() == 0 {
        (seq![], false)
    } else {
        let (out, pending) = collapse_scan(s.drop_last());
        let c = s.last();
        if is_ws(c) {
            (out, out.len() > 0)
        } else if pending {
            (out + seq![' ', c], false)
        } else {
            (out.push(c), false)
        }
    }
}

/// `s.split_whitespace().collect::<Vec<_>>().join(" ")`.
pub open spec fn collapse(s: Seq<char>) -> Seq<char> {
    collapse_scan(s).0
}

pub fn collapse_exec(s: &Vec<char>) -> (r: Vec<char>)
    ensures
        r@ == collapse(s@),
{
    let mut out: Vec<char> = Vec::new();
    let mut pending = false;
    let mut i: usize = 0;
    while i < s.len()
        invariant
            i <= s.len(),
            (out@, pending) == collapse_scan(s@.take(i as int)),
        decreases s.len() - i,
    {
        let c = s[i];
        proof {
            assert(s@.take(i + 1).drop_last() =~= s@.take(i as int));
        }
        if is_whitespace(c) {
            pending = out.len() > 0;
        } else {
            if pending {
                out.push(' ');
            }
            out.push(c);
            pending = false;
        }
        i += 1;
        proof {
            let t = s@.take(i as int);
            assert(t.last() == c);
        }
    }
    proof {
        assert(s@.take(i as int) =~= s@);
    }
    out
}

/// Collapsing never yields white space at either end or two spaces in a row.
pub proof fn lemma_collapse_shape(s: Seq<char>)
    ensures
        collapse_scan(s).0.len() > 0 ==> !is_ws(collapse_scan(s).0[0]) && !is_ws(
            collapse_scan(s).0.last(),
        ),
        collapse_scan(s).1 ==> collapse_scan(s).0.len() > 0,
        forall|i: int|
            0 <= i < collapse_scan(s).0.len() && is_ws(#[trigger] collapse_scan(s).0[i]) ==> (
            collapse_scan(s).0[i] == ' ' && 0 < i < collapse_scan(s).0.len() - 1 && !is_ws(
                collapse_scan(s).0[i - 1],
            ) && !is_ws(collapse_scan(s).0[i + 1])),
    decreases s.len(),
{
    if s.len() > 0 {
        lemma_collapse_shape(s.drop_last());
        let (out, pending) = collapse_scan(s.drop_last());
        let c = s.last();
        if !is_ws(c) {
            if pending {
                let o2 = out + seq![' ', c];
                assert forall|i: int| 0 <= i < o2.len() && is_ws(#[trigger] o2[i]) implies (o2[i]
                    == ' ' && 0 < i < o2.len() - 1 && !is_ws(o2[i - 1]) && !is_ws(o2[i + 1])) by {
                    if i < out.len() {
                        assert(o2[i] == out[i]);
                    }
                }
            } else {
                let o2 = out.push(c);
                assert forall|i: int| 0 <= i < o2.len() && is_ws(#[trigger] o2[i]) implies (o2[i]
                    == ' ' && 0 < i < o2.len() - 1 && !is_ws(o2[i - 1]) && !is_ws(o2[i + 1])) by {
                    assert(o2[i] == out[i]);
                }
            }
        }
    }
}

// ---------------------------------------------------------------------------
// UTF-8 byte lengths.
// ---------------------------------------------------------------------------

/// Number of bytes of the UTF-8 encoding of `c` (`char::len_utf8`).
pub open spec fn utf8_width(c: char) -> nat {
    let u = c as u32;
    if u < 0x80 {
        1
    } else if u < 0x800 {
        2
    } else if u < 0x10000 {
        3
    } else {
        4
    }
}

/// Number of bytes of the UTF-8 encoding of `s` (`str::len`).
pub open spec fn utf8_len(s: Seq<char>) -> nat
    decreases s.len(),
{
    if s.len() == 0 {
        0
    } else {
        utf8_len(s.drop_last()) + utf8_width(s.last())
    }
}

pub fn utf8_width_exec(c: char) -> (r: usize)
    ensures
        r == utf8_width(c),
{
    let u = c as u32;
    if u < 0x80 {
        1
    } else if u < 0x800 {
        2
    } else if u < 0x10000 {
        3
    } else {
        4
    }
}

/// Byte length of `s`, computed wide enough that it cannot overflow.
pub fn utf8_len_wide(s: &Vec<char>) -> (r: u128)
    ensures
        r == utf8_len(s@),
{
    let mut total: u128 = 0;
    let mut i: usize = 0;
    while i < s.len()
        invariant
            i <= s.len(),
            total == utf8_len(s@.take(i as int)),
        decreases s.len() - i,
    {
        proof {
            assert(s@.take(i + 1).drop_last() =~= s@.take(i as int));
            lemma_utf8_len_bounds(s@.take(i as int));
        }
        total = total + (utf8_width_exec(s[i]) as u128);
        i += 1;
    }
    proof {
        assert(s@.take(i as int) =~= s@);
    }
    total
}

/// Byte length of a sequence is additive.
pub proof fn lemma_utf8_len_add(a: Seq<char>, b: Seq<char>)
    ensures
        utf8_len(a + b) == utf8_len(a) + utf8_len(b),
    decreases b.len(),
{
    if b.len() == 0 {
        assert(a + b =~= a);
    } else {
        lemma_utf8_len_add(a, b.drop_last());
        assert((a + b).drop_last() =~= a + b.drop_last());
    }
}

/// Every character costs at least one byte.
pub proof fn lemma_utf8_len_bounds(s: Seq<char>)
    ensures
        s.len() <= utf8_len(s) <= 4 * s.len(),
    decreases s.len(),
{
    if s.len() > 0 {
        lemma_utf8_len_bounds(s.drop_last());
    }
}

pub fn utf8_len_exec(s: &Vec<char>) -> (r: usize)
    requires
        4 * s.len() <= usize::MAX,
    ensures
        r == utf8_len(s@),
{
    let mut total: usize = 0;
    let mut i: usize = 0;
    while i < s.len()
        invariant
            i <= s.len(),
            4 * s.len() <= usize::MAX,
            total == utf8_len(s@.take(i as int)),
        decreases s.len() - i,
    {
        proof {
            assert(s@.take(i + 1).drop_last() =~= s@.take(i as int));
            lemma_utf8_len_bounds(s@.take(i as int));
        }
        total = total + utf8_width_exec(s[i]);
        i += 1;
    }
    proof {
        assert(s@.take(i as int) =~= s@);
    }
    total
}

} // verus!

verus! {

// ---------------------------------------------------------------------------
// Comparisons against literals, counting, byte positions.
// ---------------------------------------------------------------------------

/// Whether a character vector equals a string literal.
pub fn eq_str(s: &Vec<char>, lit: &str) -> (r: bool)
    ensures
        r == (s@ == lit@),
{
    let l = chars_of(lit);
    seq_eq(s, &l)
}

/// Whether a character vector starts with a string literal.
pub fn starts_with_str(s: &Vec<char>, lit: &str) -> (r: bool)
    ensures
        r == starts_with(s@, lit@),
{
    let l = chars_of(lit);
    starts_with_exec(s, &l)
}

/// Whether a character vector ends with a string literal.
pub fn ends_with_str(s: &Vec<char>, lit: &str) -> (r: bool)
    ensures
        r == ends_with(s@, lit@),
{
    let l = chars_of(lit);
    ends_with_exec(s, &l)
}

/// Whether a character vector contains a string literal.
pub fn contains_str(s: &Vec<char>, lit: &str) -> (r: bool)
    ensures
        r == contains(s@, lit@),
{
    let l = chars_of(lit);
    contains_exec(s, &l)
}

/// Number of non-overlapping occurrences of `p` (`str::matches(p).count()`).
pub open spec fn count_matches(s: Seq<char>, p: Seq<char>) -> nat
    decreases s.len(),
{
    if p.len() == 0 {
        0
    } else {
        match find(s, p) {
            Some(i) => if 0 <= i && i + p.len() <= s.len() {
                1 + count_matches(s.skip(i + p.len()), p)
            } else {
                0
            },
            None => 0,
        }
    }
}

pub fn count_matches_exec(s: &Vec<char>, p: &Vec<char>) -> (r: usize)
    requires
        p.len() > 0,
    ensures
        r == count_matches(s@, p@),
{
    let mut n: usize = 0;
    let mut i: usize = 0;
    proof {
        assert(s@.skip(0) =~= s@);
    }
    while i <= s.len()
        invariant
            i <= s.len(),
            p@.len() > 0,
            n <= i,
            n + count_matches(s@.skip(i as int), p@) == count_matches(s@, p@),
        decreases s.len() + 1 - i,
    {
        let next = find_from_exec(s, p, i);
        proof {
            lemma_find_shift(s@, p@, i as int);
            lemma_find_from(s@, p@, i as int);
        }
        match next {
            None => {
                return n;
            },
            Some(k) => {
                proof {
                    let t = s@.skip(i as int);
                    assert(t.skip(k - i + p@.len()) =~= s@.skip(k + p@.len()));
                }
                n = n + 1;
                i = k + p.len();
            },
        }
    }
    n
}

/// Character index at which the UTF-8 prefix of `s` is exactly `b` bytes long.
pub open spec fn char_index_of_byte(s: Seq<char>, b: int) -> Option<int>
    decreases s.len(),
{
    if b == 0 {
        Some(0)
    } else if b < 0 || s.len() == 0 {
        None
    } else {
        match char_index_of_byte(s.drop_first(), b - utf8_width(s[0])) {
            Some(k) => Some(k + 1),
            None => None,
        }
    }
}

pub proof fn lemma_char_index_of_byte(s: Seq<char>, b: int)
    ensures
        char_index_of_byte(s, b) matches Some(k) ==> 0 <= k <= s.len() && utf8_len(s.take(k))
            == b,
    decreases s.len(),
{
    if b == 0 {
        assert(s.take(0) =~= Seq::<char>::empty());
    }
    if b != 0 && b >= 0 && s.len() > 0 {
        let one = seq![s[0]];
        assert(one.drop_last() =~= Seq::<char>::empty());
        assert(utf8_len(one.drop_last()) == 0);
        assert(utf8_len(one) == utf8_width(s[0]));
        lemma_char_index_of_byte(s.drop_first(), b - utf8_width(s[0]));
        if let Some(k) = char_index_of_byte(s.drop_first(), b - utf8_width(s[0])) {
            lemma_utf8_len_add(seq![s[0]], s.drop_first().take(k));
            assert(seq![s[0]] + s.drop_first().take(k) =~= s.take(k + 1));
            assert(seq![s[0]].drop_last() =~= Seq::<char>::empty());
        }
    }
}

/// Character index matching byte offset `b` of `s`, when `b` falls on a
/// character boundary.
pub fn char_index_of_byte_exec(s: &Vec<char>, b: usize) -> (r: Option<usize>)
    ensures
        match r {
            Some(k) => char_index_of_byte(s@, b as int) == Some(k as int),
            None => char_index_of_byte(s@, b as int) is None,
        },
{
    let mut k: usize = 0;
    let mut rem: usize = b;
    proof {
        assert(s@.skip(0) =~= s@);
    }
    loop
        invariant
            k <= s.len(),
            char_index_of_byte(s@, b as int) == match char_index_of_byte(
                s@.skip(k as int),
                rem as int,
            ) {
                Some(j) => Some(j + k),
                None => None,
            },
        decreases s.len() - k,
    {
        if rem == 0 {
            return Some(k);
        }
        if k == s.len() {
            return None;
        }
        let w = utf8_width_exec(s[k]);
        proof {
            assert(s@.skip(k as int).drop_first() =~= s@.skip(k + 1));
        }
        if w > rem {
            proof {
                assert(char_index_of_byte(s@.skip(k + 1), rem - w) is None);
            }
            return None;
        }
        rem = rem - w;
        k = k + 1;
    }
}

} // verus!

verus! {

/// Character index matching byte offset `b` of `s` (a wide offset), when
/// `b` falls on a character boundary.
pub fn char_index_of_byte_wide(s: &Vec<char>, b: u128) -> (r: Option<usize>)
    ensures
        match r {
            Some(k) => char_index_of_byte(s@, b as int) == Some(k as int),
            None => char_index_of_byte(s@, b as int) is None,
        },
{
    let mut k: usize = 0;
    let mut rem: u128 = b;
    proof {
        assert(s@.skip(0) =~= s@);
    }
    loop
        invariant
            k <= s.len(),
            char_index_of_byte(s@, b as int) == match char_index_of_byte(
                s@.skip(k as int),
                rem as int,
            ) {
                Some(j) => Some(j + k),
                None => None,
            },
        decreases s.len() - k,
    {
        if rem == 0 {
            return Some(k);
        }
        if k == s.len() {
            return None;
        }
        let w = utf8_width_exec(s[k]) as u128;
        proof {
            assert(s@.skip(k as int).drop_first() =~= s@.skip(k + 1));
        }
        if w > rem {
            proof {
                assert(char_index_of_byte(s@.skip(k + 1), rem - w) is None);
            }
            return None;
        }
        rem = rem - w;
        k = k + 1;
    }
}

/// Byte length of `s`, or `None` when it does not fit in `usize`.
pub fn utf8_len_checked(s: &Vec<char>) -> (r: Option<usize>)
    ensures
        match r {
            Some(n) => n == utf8_len(s@),
            None => utf8_len(s@) > usize::MAX,
        },
{
    let mut total: usize = 0;
    let mut i: usize = 0;
    while i < s.len()
        invariant
            i <= s.len(),
            total == utf8_len(s@.take(i as int)),
        decreases s.len() - i,
    {
        proof {
            assert(s@.take(i + 1).drop_last() =~= s@.take(i as int));
        }
        let w = utf8_width_exec(s[i]);
        if total > usize::MAX - w {
            proof {
                lemma_utf8_len_prefix_mono(s@, i + 1);
            }
            return None;
        }
        total = total + w;
        i += 1;
    }
    proof {
        assert(s@.take(i as int) =~= s@);
    }
    Some(total)
}

/// A prefix never has more bytes than the whole.
pub proof fn lemma_utf8_len_prefix_mono(s: Seq<char>, k: int)
    requires
        0 <= k <= s.len(),
    ensures
        utf8_len(s.take(k)) <= utf8_len(s),
{
    lemma_utf8_len_add(s.take(k), s.skip(k));
    assert(s.take(k) + s.skip(k) =~= s);
}

/// Whether the byte length of `s` exceeds `n`, without overflow.
pub fn utf8_len_exceeds(s: &Vec<char>, n: usize) -> (r: bool)
    ensures
        r == (utf8_len(s@) > n),
{
    match utf8_len_checked(s) {
        Some(t) => t > n,
        None => true,
    }
}

} // verus!

verus! {

/// Scan state of `split_whitespace` over a prefix: finished words and the
/// word in progress.
pub open spec fn words_scan(s: Seq<char>) -> (Seq<Seq<char>>, Seq<char>)
    decreases s.len(),
{
    if s.len() == 0 {
        (seq![], seq![])
    } else {
        let (done, cur) = words_scan(s.drop_last());
        let c = s.last();
        if is_ws(c) {
            if cur.len() > 0 {
                (done.push(cur), seq![])
            } else {
                (done, seq![])
            }
        } else {
            (done, cur.push(c))
        }
    }
}

/// `str::split_whitespace`: the maximal runs of non-white-space characters.
pub open spec fn words(s: Seq<char>) -> Seq<Seq<char>> {
    let (done, cur) = words_scan(s);
    if cur.len() > 0 {
        done.push(cur)
    } else {
        done
    }
}

pub fn words_exec(s: &Vec<char>) -> (r: Vec<Vec<char>>)
    ensures
        r.deep_view() == words(s@),
{
    let mut done: Vec<Vec<char>> = Vec::new();
    let mut cur: Vec<char> = Vec::new();
    let mut i: usize = 0;
    proof {
        assert(done.deep_view() =~= Seq::<Seq<char>>::empty());
        assert(cur@ =~= Seq::<char>::empty());
    }
    while i < s.len()
        invariant
            i <= s.len(),
            (done.deep_view(), cur@) == words_scan(s@.take(i as int)),
        decreases s.len() - i,
    {
        let c = s[i];
        proof {
            assert(s@.take(i + 1).drop_last() =~= s@.take(i as int));
            assert(s@.take(i + 1).last() == c);
        }
        let ghost before = done.deep_view();
        if is_whitespace(c) {
            if cur.len() > 0 {
                let ghost cv = cur@;
                let w = cur;
                done.push(w);
                proof {
                    lemma_push_deep(before, &done, cv);
                }
                cur = Vec::new();
                proof {
                    assert(cur@ =~= Seq::<char>::empty());
                }
            } else {
                cur = Vec::new();
                proof {
                    assert(cur@ =~= Seq::<char>::empty());
                }
            }
        } else {
            cur.push(c);
        }
        i += 1;
    }
    proof {
        assert(s@.take(i as int) =~= s@);
    }
    if cur.len() > 0 {
        let ghost before = done.deep_view();
        let ghost cv = cur@;
        done.push(cur);
        proof {
            lemma_push_deep(before, &done, cv);
        }
    }
    done
}

/// Character indices grow with byte offsets.
pub proof fn lemma_char_index_mono(s: Seq<char>, a: int, b: int)
    requires
        a <= b,
        char_index_of_byte(s, a) is Some,
        char_index_of_byte(s, b) is Some,
    ensures
        char_index_of_byte(s, a)->0 <= char_index_of_byte(s, b)->0,
{
    lemma_char_index_of_byte(s, a);
    lemma_char_index_of_byte(s, b);
    let i = char_index_of_byte(s, a)->0;
    let j = char_index_of_byte(s, b)->0;
    if i > j {
        lemma_utf8_len_add(s.take(j), s.subrange(j, i));
        assert(s.take(j) + s.subrange(j, i) =~= s.take(i));
        lemma_utf8_len_bounds(s.subrange(j, i));
    }
}


/// Every character of a replacement comes from the text or from what is put
/// in: a property of all those characters holds of the result.
pub proof fn lemma_replace_chars(s: Seq<char>, from: Seq<char>, to: Seq<char>, p: spec_fn(char) -> bool)
    requires
        forall|k: int| 0 <= k < s.len() ==> #[trigger] p(s[k]),
        forall|k: int| 0 <= k < to.len() ==> #[trigger] p(to[k]),
    ensures
        forall|k: int| 0 <= k < replace(s, from, to).len() ==> #[trigger] p(replace(s, from, to)[k]),
    decreases s.len(),
{
    if from.len() > 0 {
        match find(s, from) {
            None => {},
            Some(i) => if 0 <= i && i + from.len() <= s.len() {
                let rest = s.skip(i + from.len());
                assert forall|k: int| 0 <= k < rest.len() implies #[trigger] p(rest[k]) by {
                    assert(rest[k] == s[k + i + from.len()]);
                }
                lemma_replace_chars(rest, from, to, p);
                let r = replace(s, from, to);
                let a = s.take(i);
                let b = replace(rest, from, to);
                assert(r == a + to + b);
                assert forall|k: int| 0 <= k < r.len() implies #[trigger] p(r[k]) by {
                    if k < a.len() {
                        assert(r[k] == s[k]);
                    } else if k < a.len() + to.len() {
                        assert(r[k] == to[k - a.len()]);
                    } else {
                        assert(r[k] == b[k - a.len() - to.len()]);
                    }
                }
            },
        }
    }
}

/// Replacing a character by text without it leaves none of it.
pub proof fn lemma_replace_removes(s: Seq<char>, c: char, to: Seq<char>)
    requires
        forall|k: int| 0 <= k < to.len() ==> to[k] != c,
    ensures
        forall|k: int| 0 <= k < replace(s, seq![c], to).len() ==> replace(s, seq![c], to)[k] != c,
    decreases s.len(),
{
    let from = seq![c];
    lemma_find_from(s, from, 0);
    match find(s, from) {
        None => {
            assert forall|k: int| 0 <= k < s.len() implies s[k] != c by {
                if s[k] == c {
                    assert(s.subrange(k, k + 1) =~= from);
                    assert(matches_at(s, from, k));
                }
            }
        },
        Some(i) => {
            let rest = s.skip(i + 1);
            lemma_replace_removes(rest, c, to);
            let r = replace(s, from, to);
            let a = s.take(i);
            let b = replace(rest, from, to);
            assert(r == a + to + b);
            assert forall|k: int| 0 <= k < r.len() implies r[k] != c by {
                if k < a.len() {
                    assert(r[k] == s[k]);
                    if s[k] == c {
                        assert(s.subrange(k, k + 1) =~= from);
                        assert(matches_at(s, from, k));
                    }
                } else if k < a.len() + to.len() {
                    assert(r[k] == to[k - a.len()]);
                } else {
                    assert(r[k] == b[k - a.len() - to.len()]);
                }
            }
        },
    }
}

/// Trimming keeps a part of the text, with no white space at either end.
pub proof fn lemma_trim_part(s: Seq<char>)
    ensures
        exists|lo: int, hi: int| 0 <= lo <= hi <= s.len() && trim(s) == s.subrange(lo, hi),
        trim(s).len() > 0 ==> !is_ws(trim(s)[0]) && !is_ws(trim(s).last()),
{
    lemma_trim_start_part(s);
    let t = trim_start(s);
    let lo = choose|lo: int| 0 <= lo <= s.len() && t == s.skip(lo);
    lemma_trim_end_part(t);
    let hi = choose|hi: int| 0 <= hi <= t.len() && trim_end(t) == t.take(hi);
    assert(trim(s) =~= s.subrange(lo, lo + hi));
    if trim(s).len() > 0 {
        lemma_trim_end_keeps_start(t);
    }
}

proof fn lemma_trim_start_part(s: Seq<char>)
    ensures
        exists|lo: int| 0 <= lo <= s.len() && trim_start(s) == s.skip(lo),
        trim_start(s).len() > 0 ==> !is_ws(trim_start(s)[0]),
    decreases s.len(),
{
    if s.len() > 0 && is_ws(s[0]) {
        lemma_trim_start_part(s.drop_first());
        let lo = choose|lo: int| 0 <= lo <= s.drop_first().len() && trim_start(s.drop_first()) == s.drop_first().skip(lo);
        assert(s.drop_first().skip(lo) =~= s.skip(lo + 1));
    } else {
        assert(s.skip(0) =~= s);
    }
}

proof fn lemma_trim_end_part(s: Seq<char>)
    ensures
        exists|hi: int| 0 <= hi <= s.len() && trim_end(s) == s.take(hi),
        trim_end(s).len() > 0 ==> !is_ws(trim_end(s).last()),
    decreases s.len(),
{
    if s.len() > 0 && is_ws(s.last()) {
        lemma_trim_end_part(s.drop_last());
        let hi = choose|hi: int| 0 <= hi <= s.drop_last().len() && trim_end(s.drop_last()) == s.drop_last().take(hi);
        assert(s.drop_last().take(hi) =~= s.take(hi));
    } else {
        assert(s.take(s.len() as int) =~= s);
    }
}

/// Trimming the end of a text that starts with a non-space keeps that start.
proof fn lemma_trim_end_keeps_start(t: Seq<char>)
    requires
        t.len() > 0 ==> !is_ws(t[0]),
        trim_end(t).len() > 0,
    ensures
        !is_ws(trim_end(t)[0]),
        !is_ws(trim_end(t).last()),
{
    lemma_trim_end_part(t);
    let hi = choose|hi: int| 0 <= hi <= t.len() && trim_end(t) == t.take(hi);
    assert(trim_end(t)[0] == t[0]);
}


/// No character `c` directly follows another `c`.
pub open spec fn no_double(s: Seq<char>, c: char) -> bool {
    forall|k: int| 0 <= k && k + 1 < s.len() ==> !(#[trigger] s[k] == c && s[k + 1] == c)
}

/// Replacing every doubled `c` (scanning from the left) by text without
/// `c` leaves no doubled `c`.
pub proof fn lemma_replace_double(s: Seq<char>, c: char, to: Seq<char>)
    requires
        to.len() > 0,
        forall|k: int| 0 <= k < to.len() ==> to[k] != c,
    ensures
        no_double(replace(s, seq![c, c], to), c),
    decreases s.len(),
{
    let from = seq![c, c];
    lemma_find_from(s, from, 0);
    match find(s, from) {
        None => {
            assert forall|k: int| 0 <= k && k + 1 < s.len() implies !(#[trigger] s[k] == c && s[k + 1] == c) by {
                if s[k] == c && s[k + 1] == c {
                    assert(s.subrange(k, k + 2) =~= from);
                    assert(matches_at(s, from, k));
                }
            }
        },
        Some(i) => {
            let rest = s.skip(i + 2);
            lemma_replace_double(rest, c, to);
            let r = replace(s, from, to);
            let a = s.take(i);
            let b = replace(rest, from, to);
            assert(r == a + to + b);
            assert forall|k: int| 0 <= k && k + 1 < r.len() implies !(#[trigger] r[k] == c && r[k + 1] == c) by {
                if k + 1 < a.len() {
                    assert(r[k] == s[k] && r[k + 1] == s[k + 1]);
                    if s[k] == c && s[k + 1] == c {
                        assert(s.subrange(k, k + 2) =~= from);
                        assert(matches_at(s, from, k));
                    }
                } else if k + 1 == a.len() {
                    assert(r[k + 1] == to[0]);
                } else if k < a.len() + to.len() {
                    assert(r[k] == to[k - a.len()]);
                } else {
                    assert(r[k] == b[k - a.len() - to.len()]);
                    assert(r[k + 1] == b[k + 1 - a.len() - to.len()]);
                }
            }
        },
    }
}

/// Replacing one character by another maps the text character by character.
pub proof fn lemma_replace_char_map(s: Seq<char>, c: char, d: char)
    ensures
        replace(s, seq![c], seq![d]).len() == s.len(),
        forall|k: int|
            0 <= k < s.len() ==> #[trigger] replace(s, seq![c], seq![d])[k] == if s[k] == c {
                d
            } else {
                s[k]
            },
    decreases s.len(),
{
    let from = seq![c];
    lemma_find_from(s, from, 0);
    match find(s, from) {
        None => {
            assert forall|k: int| 0 <= k < s.len() implies s[k] != c by {
                if s[k] == c {
                    assert(s.subrange(k, k + 1) =~= from);
                    assert(matches_at(s, from, k));
                }
            }
        },
        Some(i) => {
            let rest = s.skip(i + 1);
            lemma_replace_char_map(rest, c, d);
            let r = replace(s, from, seq![d]);
            let a = s.take(i);
            let b = replace(rest, from, seq![d]);
            assert(r == a + seq![d] + b);
            assert(matches_at(s, from, i));
            assert(s.subrange(i, i + 1) == from);
            assert(s.subrange(i, i + 1)[0] == s[i]);
            assert(s[i] == c);
            assert forall|k: int| 0 <= k < s.len() implies #[trigger] r[k] == if s[k] == c { d } else { s[k] } by {
                if k < i {
                    assert(r[k] == s[k]);
                    if s[k] == c {
                        assert(s.subrange(k, k + 1) =~= from);
                        assert(matches_at(s, from, k));
                    }
                } else if k == i {
                } else {
                    assert(r[k] == b[k - i - 1]);
                    assert(rest[k - i - 1] == s[k]);
                }
            }
        },
    }
}

} // verus!
