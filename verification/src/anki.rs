//! Anki decks as a page of flashcards: each note becomes one
//! `- Front :: Back  #topic` line, with its HTML reduced to one line of text
//! and its media references rewritten to links under `assets/anki/<topic>/`.
use vstd::prelude::*;
use crate::books::clean::replace_str;
use crate::numbers::{decimal, decimal_exec};
use crate::text::{
    ascii_lower, chars_of, char_index_of_byte, char_index_of_byte_exec, contains, contains_str,
    find, find_exec, is_ascii_alnum, is_whitespace, is_ws, join, join_exec, lemma_chars_deep,
    lemma_find_from, lemma_push_deep, lemma_utf8_len_prefix_mono, push_all, push_str, replace,
    slice, split_char, split_char_exec, string_of, trim, trim_chars, trim_set, trim_set_chars,
    utf8_len, utf8_len_checked, trim_start_set, trim_end_set,
};
use crate::unicode::{spec_str_lowercase, str_lowercase};
use crate::archive::{spec_zip_entry, spec_zip_open_error, utf8_text, zip_entry, zip_open_error, EntryFailure};
use vstd::utf8::{decode_utf8, valid_utf8};

verus! {

/// Result of importing one deck.
#[derive(Debug, Clone)]
pub struct AnkiImportSummary {
    /// Human-readable deck name (from the file stem).
    pub deck: String,
    /// The page the cards were written to.
    pub page_title: String,
    /// The topic tag applied to every card.
    pub topic: String,
    /// Number of notes read from the deck.
    pub note_count: usize,
    /// Lines that are `Front :: Back` flashcards.
    pub card_count: usize,
    /// Media files copied into the graph.
    pub media_count: usize,
}

/// A progress update during an import.
#[derive(Debug, Clone)]
pub struct ImportProgress {
    /// `reading`, `media`, `indexing` or `done`.
    pub phase: String,
    /// Items processed so far in this phase.
    pub current: u64,
    /// Total items in this phase (0 when unknown).
    pub total: u64,
}

// ---------------------------------------------------------------------------
// Names and paths.
// ---------------------------------------------------------------------------

/// Scan state of slug building: the slug so far and whether it ends in `-`.
pub open spec fn slug_scan(s: Seq<char>) -> (Seq<char>, bool)
    decreases s.len(),
{
    if s.len() == 0 {
        (seq![], false)
    } else {
        let (out, dash) = slug_scan(s.drop_last());
        let c = s.last();
        if is_ascii_alnum(c) {
            (out.push(ascii_lower(c)), false)
        } else if !dash && out.len() > 0 {
            (out.push('-'), true)
        } else {
            (out, dash)
        }
    }
}

/// The topic tag of a deck name: ASCII letters and digits lower-cased, every
/// other run read as one `-`, no `-` at either end; `anki` when nothing is
/// left.
pub open spec fn slugify_spec(s: Seq<char>) -> Seq<char> {
    let t = trim_set(slug_scan(s).0, seq!['-']);
    if t.len() == 0 {
        "anki"@
    } else {
        t
    }
}

pub fn slugify(s: &str) -> (r: String)
    ensures
        r@ == slugify_spec(s@),
{
    let v = chars_of(s);
    let mut out: Vec<char> = Vec::new();
    let mut dash = false;
    let mut i: usize = 0;
    while i < v.len()
        invariant
            i <= v.len(),
            (out@, dash) == slug_scan(v@.take(i as int)),
        decreases v.len() - i,
    {
        proof {
            assert(v@.take(i + 1).drop_last() =~= v@.take(i as int));
            assert(v@.take(i + 1).last() == v@[i as int]);
        }
        let c = v[i];
        if ('a' <= c && c <= 'z') || ('A' <= c && c <= 'Z') || ('0' <= c && c <= '9') {
            let l = if 'A' <= c && c <= 'Z' {
                crate::text::ascii_lower_char(c)
            } else {
                c
            };
            out.push(l);
            dash = false;
        } else if !dash && out.len() > 0 {
            out.push('-');
            dash = true;
        }
        i += 1;
    }
    proof {
        assert(v@.take(i as int) =~= v@);
    }
    let mut d: Vec<char> = Vec::new();
    d.push('-');
    proof {
        assert(d@ =~= seq!['-']);
    }
    let t = trim_set_chars(&out, &d);
    if t.len() == 0 {
        crate::text::owned("anki")
    } else {
        string_of(&t)
    }
}

/// The part of a path after its last `/` or `\`.
pub open spec fn base_name(s: Seq<char>) -> Seq<char>
    decreases s.len(),
{
    if s.len() == 0 || s.last() == '/' || s.last() == '\\' {
        seq![]
    } else {
        base_name(s.drop_last()).push(s.last())
    }
}

/// Characters a file name may not hold on common file systems.
pub open spec fn unsafe_name_char(c: char) -> bool {
    c == '<' || c == '>' || c == ':' || c == '"' || c == '|' || c == '?' || c == '*' || c == '\0'
}

/// A media file name as stored: its base name with unsafe characters read
/// as `_`.
pub open spec fn sanitize_filename_spec(name: Seq<char>) -> Seq<char> {
    base_name(name).map_values(|c: char| if unsafe_name_char(c) {
        '_'
    } else {
        c
    })
}

pub fn sanitize_filename(name: &Vec<char>) -> (r: Vec<char>)
    ensures
        r@ == sanitize_filename_spec(name@),
{
    let mut start: usize = name.len();
    proof {
        assert(name@.skip(start as int) =~= Seq::<char>::empty());
        assert(name@.take(start as int) =~= name@);
        assert(base_name(name@) + Seq::<char>::empty() =~= base_name(name@));
    }
    while start > 0 && name[start - 1] != '/' && name[start - 1] != '\\'
        invariant
            start <= name.len(),
            base_name(name@) == base_name(name@.take(start as int)) + name@.skip(start as int),
        decreases start,
    {
        proof {
            assert(name@.take(start as int).drop_last() =~= name@.take(start - 1));
            assert(name@.take(start as int).last() == name@[start - 1]);
            assert(base_name(name@.take(start - 1)).push(name@[start - 1]) + name@.skip(start as int)
                =~= base_name(name@.take(start - 1)) + name@.skip(start - 1));
        }
        start -= 1;
    }
    proof {
        if start > 0 {
            assert(name@.take(start as int).last() == name@[start - 1]);
        }
        assert(Seq::<char>::empty() + name@.skip(start as int) =~= name@.skip(start as int));
    }
    let mut out: Vec<char> = Vec::new();
    let mut i: usize = start;
    while i < name.len()
        invariant
            start <= i <= name.len(),
            base_name(name@) == name@.skip(start as int),
            out@ == name@.subrange(start as int, i as int).map_values(|c: char| if unsafe_name_char(c) {
                '_'
            } else {
                c
            }),
        decreases name.len() - i,
    {
        let c = name[i];
        let m = if c == '<' || c == '>' || c == ':' || c == '"' || c == '|' || c == '?' || c == '*'
            || c == '\0' {
            '_'
        } else {
            c
        };
        out.push(m);
        proof {
            assert(name@.subrange(start as int, i + 1) =~= name@.subrange(start as int, i as int).push(c));
            assert(out@ =~= name@.subrange(start as int, i + 1).map_values(|c: char| if unsafe_name_char(c) {
                '_'
            } else {
                c
            }));
        }
        i += 1;
    }
    proof {
        assert(name@.subrange(start as int, i as int) =~= name@.skip(start as int));
    }
    out
}

/// Where a page links to an imported media file.
pub open spec fn media_rel_path_spec(topic: Seq<char>, file: Seq<char>) -> Seq<char> {
    "../assets/anki/"@ + topic + "/"@ + sanitize_filename_spec(file)
}

pub fn media_rel_path(topic: &Vec<char>, file: &Vec<char>) -> (r: Vec<char>)
    ensures
        r@ == media_rel_path_spec(topic@, file@),
{
    let mut out = chars_of("../assets/anki/");
    push_all(&mut out, topic);
    push_str(&mut out, "/");
    let name = sanitize_filename(file);
    push_all(&mut out, &name);
    out
}

// ---------------------------------------------------------------------------
// HTML reduced to text.
// ---------------------------------------------------------------------------

/// Number of `<` in `s`.
pub open spec fn open_angles(s: Seq<char>) -> nat
    decreases s.len(),
{
    if s.len() == 0 {
        0
    } else {
        open_angles(s.drop_last()) + if s.last() == '<' {
            1nat
        } else {
            0
        }
    }
}

/// Scan state of tag stripping: the text kept and the tag nesting depth.
pub open spec fn strip_scan(s: Seq<char>) -> (Seq<char>, nat)
    decreases s.len(),
{
    if s.len() == 0 {
        (seq![], 0)
    } else {
        let (out, depth) = strip_scan(s.drop_last());
        let c = s.last();
        if c == '<' {
            (out, depth + 1)
        } else if c == '>' {
            (out, if depth > 0 {
                (depth - 1) as nat
            } else {
                0
            })
        } else if depth == 0 {
            (out.push(c), depth)
        } else {
            (out, depth)
        }
    }
}

proof fn lemma_strip_depth(s: Seq<char>)
    ensures
        strip_scan(s).1 <= open_angles(s),
    decreases s.len(),
{
    if s.len() > 0 {
        lemma_strip_depth(s.drop_last());
    }
}

/// Remove every `<...>` tag (nesting counted), keeping the text outside.
pub fn strip_html_tags(s: &Vec<char>) -> (r: Vec<char>)
    requires
        open_angles(s@) <= i32::MAX,
    ensures
        r@ == strip_scan(s@).0,
{
    let mut out: Vec<char> = Vec::new();
    let mut depth: u32 = 0;
    let mut i: usize = 0;
    while i < s.len()
        invariant
            i <= s.len(),
            open_angles(s@) <= i32::MAX,
            (out@, depth as nat) == strip_scan(s@.take(i as int)),
        decreases s.len() - i,
    {
        proof {
            assert(s@.take(i + 1).drop_last() =~= s@.take(i as int));
            assert(s@.take(i + 1).last() == s@[i as int]);
            lemma_strip_depth(s@.take(i as int));
            lemma_open_angles_prefix(s@, i as int);
        }
        let c = s[i];
        if c == '<' {
            depth = depth + 1;
        } else if c == '>' {
            if depth > 0 {
                depth = depth - 1;
            }
        } else if depth == 0 {
            out.push(c);
        }
        i += 1;
    }
    proof {
        assert(s@.take(i as int) =~= s@);
    }
    out
}

proof fn lemma_open_angles_prefix(s: Seq<char>, k: int)
    requires
        0 <= k < s.len(),
    ensures
        open_angles(s.take(k)) + (if s[k] == '<' {
            1int
        } else {
            0
        }) <= open_angles(s),
    decreases s.len() - k,
{
    assert(s.take(k + 1).drop_last() =~= s.take(k));
    assert(s.take(k + 1).last() == s[k]);
    if k + 1 < s.len() {
        lemma_open_angles_prefix(s, k + 1);
        if s[k + 1] == '<' {
        }
    } else {
        assert(s.take(k + 1) =~= s);
    }
}

/// The entities a field may carry, decoded.
pub open spec fn decode_entities_spec(s: Seq<char>) -> Seq<char> {
    replace(
        replace(
            replace(
                replace(
                    replace(replace(replace(s, "&nbsp;"@, " "@), "&amp;"@, "&"@), "&lt;"@, "<"@),
                    "&gt;"@,
                    ">"@,
                ),
                "&quot;"@,
                "\""@,
            ),
            "&#39;"@,
            "'"@,
        ),
        "&apos;"@,
        "'"@,
    )
}

pub fn decode_entities(s: &Vec<char>) -> (r: Vec<char>)
    ensures
        r@ == decode_entities_spec(s@),
{
    proof {
        reveal_strlit("&nbsp;");
        reveal_strlit("&amp;");
        reveal_strlit("&lt;");
        reveal_strlit("&gt;");
        reveal_strlit("&quot;");
        reveal_strlit("&#39;");
        reveal_strlit("&apos;");
    }
    let a = replace_str(s, "&nbsp;", " ");
    let b = replace_str(&a, "&amp;", "&");
    let c = replace_str(&b, "&lt;", "<");
    let d = replace_str(&c, "&gt;", ">");
    let e = replace_str(&d, "&quot;", "\"");
    let f = replace_str(&e, "&#39;", "'");
    replace_str(&f, "&apos;", "'")
}

/// Scan state of white-space collapsing: the output and whether it ends in
/// a collapsed space.
pub open spec fn collapse_ws_scan(s: Seq<char>) -> (Seq<char>, bool)
    decreases s.len(),
{
    if s.len() == 0 {
        (seq![], false)
    } else {
        let (out, space) = collapse_ws_scan(s.drop_last());
        let c = s.last();
        if is_ws(c) {
            if !space {
                (out.push(' '), true)
            } else {
                (out, space)
            }
        } else {
            (out.push(c), false)
        }
    }
}

/// Every run of white space (line breaks included) read as one space.
pub fn collapse_ws(s: &Vec<char>) -> (r: Vec<char>)
    ensures
        r@ == collapse_ws_scan(s@).0,
{
    let mut out: Vec<char> = Vec::new();
    let mut space = false;
    let mut i: usize = 0;
    while i < s.len()
        invariant
            i <= s.len(),
            (out@, space) == collapse_ws_scan(s@.take(i as int)),
        decreases s.len() - i,
    {
        proof {
            assert(s@.take(i + 1).drop_last() =~= s@.take(i as int));
            assert(s@.take(i + 1).last() == s@[i as int]);
        }
        let c = s[i];
        if is_whitespace(c) {
            if !space {
                out.push(' ');
                space = true;
            }
        } else {
            out.push(c);
            space = false;
        }
        i += 1;
    }
    proof {
        assert(s@.take(i as int) =~= s@);
    }
    out
}

// ---------------------------------------------------------------------------
// Attributes and media references.
// ---------------------------------------------------------------------------

/// The byte offset just after the first `attr=` in the lower-cased tag.
pub open spec fn attr_value_byte(tag: Seq<char>, attr: Seq<char>) -> Option<int> {
    let lower = spec_str_lowercase(tag);
    match find(lower, attr + "="@) {
        Some(k) => Some((utf8_len(lower.take(k)) + utf8_len(attr) + 1) as int),
        None => None,
    }
}

/// The value is read where it can be: the offset found in the lower-cased
/// tag either lies past the end of the tag or on one of its character
/// boundaries (slicing the tag anywhere else is not possible), and the
/// lower-cased tag's length fits in `usize`.
pub open spec fn attr_lookup_ok(tag: Seq<char>, attr: Seq<char>) -> bool {
    &&& utf8_len(spec_str_lowercase(tag)) <= usize::MAX
    &&& match attr_value_byte(tag, attr) {
        Some(b) => b >= utf8_len(tag) || char_index_of_byte(tag, b) is Some,
        None => true,
    }
}

/// Index of the first white-space character or `>`, or the length.
pub open spec fn first_stop(s: Seq<char>) -> nat
    decreases s.len(),
{
    if s.len() == 0 || is_ws(s[0]) || s[0] == '>' {
        0
    } else {
        1 + first_stop(s.drop_first())
    }
}

/// An attribute's value in a tag: the name is found ignoring case, then the
/// value is read from the original tag at the same byte offset: up to the
/// matching quote when quoted, else up to white space or `>`.
pub open spec fn tag_attr_spec(tag: Seq<char>, attr: Seq<char>) -> Option<Seq<char>> {
    match attr_value_byte(tag, attr) {
        None => None,
        Some(b) => if b >= utf8_len(tag) {
            None
        } else {
            match char_index_of_byte(tag, b) {
                None => None,
                Some(p) => {
                    let c = tag[p];
                    if c == '"' || c == '\'' {
                        match find(tag.skip(p + 1), seq![c]) {
                            Some(e) => Some(tag.subrange(p + 1, p + 1 + e)),
                            None => None,
                        }
                    } else {
                        Some(tag.skip(p).take(first_stop(tag.skip(p)) as int))
                    }
                },
            }
        },
    }
}

fn first_stop_exec(s: &Vec<char>, from: usize) -> (r: usize)
    requires
        from <= s.len(),
    ensures
        r == from + first_stop(s@.skip(from as int)),
        r <= s.len(),
{
    let mut i = from;
    proof {
        assert(s@.skip(from as int).skip(0) =~= s@.skip(from as int));
    }
    while i < s.len() && !is_whitespace(s[i]) && s[i] != '>'
        invariant
            from <= i <= s.len(),
            first_stop(s@.skip(from as int)) == (i - from) + first_stop(s@.skip(i as int)),
        decreases s.len() - i,
    {
        proof {
            assert(s@.skip(i as int)[0] == s@[i as int]);
            assert(s@.skip(i as int).drop_first() =~= s@.skip(i + 1));
        }
        i += 1;
    }
    proof {
        if i < s.len() {
            assert(s@.skip(i as int)[0] == s@[i as int]);
        }
    }
    i
}

/// Read an HTML attribute's value (single, double or not quoted) from a tag.
pub fn extract_attr(tag: &str, attr: &str) -> (r: Option<String>)
    requires
        attr_lookup_ok(tag@, attr@),
    ensures
        match r {
            Some(v) => tag_attr_spec(tag@, attr@) == Some(v@),
            None => tag_attr_spec(tag@, attr@) is None,
        },
{
    proof {
        reveal_strlit("=");
    }
    let lower_s = str_lowercase(tag);
    let lower = chars_of(lower_s.as_str());
    let a = chars_of(attr);
    let mut key = chars_of(attr);
    key.push('=');
    proof {
        assert(key@ =~= attr@ + "="@);
    }
    let k = match find_exec(&lower, &key) {
        Some(k) => k,
        None => {
            return None;
        },
    };
    proof {
        lemma_find_from(lower@, key@, 0);
        assert(lower@.take(k + key@.len()) =~= lower@.take(k as int) + key@);
        lemma_utf8_len_prefix_mono(lower@, k + key@.len());
        crate::text::lemma_utf8_len_add(lower@.take(k as int), key@);
        crate::text::lemma_utf8_len_add(a@, seq!['=']);
        assert(seq!['='].drop_last() =~= Seq::<char>::empty());
        assert(crate::text::utf8_len(seq!['='].drop_last()) == 0);
        assert(seq!['='].last() == '=');
        assert(crate::text::utf8_len(seq!['=']) == 1);
        assert(key@ =~= a@ + seq!['=']);
    }
    let prefix = slice(&lower, 0, k);
    proof {
        assert(prefix@ =~= lower@.take(k as int));
    }
    let pb = match utf8_len_checked(&prefix) {
        Some(n) => n,
        None => {
            return None;
        },
    };
    let ab = match utf8_len_checked(&a) {
        Some(n) => n,
        None => {
            return None;
        },
    };
    let b = pb + ab + 1;
    let t = chars_of(tag);
    if crate::text::utf8_len_exceeds(&t, b) == false {
        return None;
    }
    let p = match char_index_of_byte_exec(&t, b) {
        Some(p) => p,
        None => {
            return None;
        },
    };
    proof {
        crate::text::lemma_char_index_of_byte(t@, b as int);
        if p == t.len() {
            assert(t@.take(p as int) =~= t@);
        }
    }
    let c = t[p];
    if c == '"' || c == '\'' {
        let rest = slice(&t, p + 1, t.len());
        let mut q: Vec<char> = Vec::new();
        q.push(c);
        proof {
            assert(rest@ =~= t@.skip(p + 1));
            assert(q@ =~= seq![c]);
        }
        match find_exec(&rest, &q) {
            Some(e) => {
                proof {
                    lemma_find_from(rest@, q@, 0);
                }
                let v = slice(&t, p + 1, p + 1 + e);
                Some(string_of(&v))
            },
            None => None,
        }
    } else {
        let end = first_stop_exec(&t, p);
        let v = slice(&t, p, end);
        proof {
            assert(v@ =~= t@.skip(p as int).take(first_stop(t@.skip(p as int)) as int));
        }
        Some(string_of(&v))
    }
}

/// `[sound:FILE]` references rewritten to media links, with the files
/// referenced (trimmed, non-empty), in order. An unclosed reference and
/// everything after it stay as they are.
pub open spec fn sound_scan(rest: Seq<char>, topic: Seq<char>) -> (Seq<char>, Seq<Seq<char>>)
    decreases rest.len(),
{
    match find(rest, "[sound:"@) {
        None => (rest, seq![]),
        Some(st) => {
            let after = rest.skip(st + 7);
            match find(after, "]"@) {
                None => (rest, seq![]),
                Some(e) => {
                    proof {
                        reveal_strlit("[sound:");
                        reveal_strlit("]");
                        lemma_find_from(rest, "[sound:"@, 0);
                        lemma_find_from(after, "]"@, 0);
                    }
                    let file = trim(after.take(e));
                    let (o2, f2) = sound_scan(after.skip(e + 1), topic);
                    (
                        rest.take(st) + (if file.len() > 0 {
                            " ![]("@ + media_rel_path_spec(topic, file) + ") "@
                        } else {
                            seq![]
                        }) + o2,
                        (if file.len() > 0 {
                            seq![file]
                        } else {
                            seq![]
                        }) + f2,
                    )
                },
            }
        },
    }
}

/// `<img ...>` tags rewritten to media links when they carry a non-blank
/// `src` (dropped otherwise), with the files referenced, in order. An
/// unclosed tag and everything after it stay as they are.
pub open spec fn img_scan(rest: Seq<char>, topic: Seq<char>) -> (Seq<char>, Seq<Seq<char>>)
    decreases rest.len(),
{
    match find(rest, "<img"@) {
        None => (rest, seq![]),
        Some(st) => {
            let after = rest.skip(st);
            match find(after, ">"@) {
                None => (rest, seq![]),
                Some(e) => {
                    proof {
                        reveal_strlit("<img");
                        reveal_strlit(">");
                        lemma_find_from(rest, "<img"@, 0);
                        lemma_find_from(after, ">"@, 0);
                    }
                    let tag = after.take(e + 1);
                    let src = match tag_attr_spec(tag, "src"@) {
                        Some(v) => trim(v),
                        None => seq![],
                    };
                    let (o2, f2) = img_scan(after.skip(e + 1), topic);
                    (
                        rest.take(st) + (if src.len() > 0 {
                            " ![]("@ + media_rel_path_spec(topic, src) + ") "@
                        } else {
                            seq![]
                        }) + o2,
                        (if src.len() > 0 {
                            seq![src]
                        } else {
                            seq![]
                        }) + f2,
                    )
                },
            }
        },
    }
}

/// Every `<img ...>` tag [`img_scan`] reads can have its `src` read.
pub open spec fn img_tags_ok(rest: Seq<char>) -> bool
    decreases rest.len(),
{
    match find(rest, "<img"@) {
        None => true,
        Some(st) => {
            let after = rest.skip(st);
            match find(after, ">"@) {
                None => true,
                Some(e) => {
                    proof {
                        reveal_strlit("<img");
                        reveal_strlit(">");
                        lemma_find_from(rest, "<img"@, 0);
                        lemma_find_from(after, ">"@, 0);
                    }
                    attr_lookup_ok(after.take(e + 1), "src"@) && img_tags_ok(after.skip(e + 1))
                },
            }
        },
    }
}

/// The files so far with more added, each once, in order of first reference.
pub open spec fn add_files(refs: Seq<Seq<char>>, files: Seq<Seq<char>>) -> Seq<Seq<char>>
    decreases files.len(),
{
    if files.len() == 0 {
        refs
    } else {
        let r = add_files(refs, files.drop_last());
        if r.contains(files.last()) {
            r
        } else {
            r.push(files.last())
        }
    }
}

/// The files referenced, as plain values.
pub open spec fn refs_view(refs: Vec<String>) -> Seq<Seq<char>> {
    refs@.map_values(|f: String| f@)
}

fn add_file(refs: &mut Vec<String>, file: &Vec<char>)
    ensures
        refs_view(*final(refs)) == add_files(refs_view(*old(refs)), seq![file@]),
{
    proof {
        assert(seq![file@].drop_last() =~= Seq::<Seq<char>>::empty());
    }
    let mut i: usize = 0;
    while i < refs.len()
        invariant
            i <= refs.len(),
            forall|m: int| 0 <= m < i ==> refs_view(*refs)[m] != file@,
        decreases refs.len() - i,
    {
        let r = chars_of(refs[i].as_str());
        if crate::text::seq_eq(&r, file) {
            proof {
                assert(refs_view(*refs)[i as int] == file@);
                assert(refs_view(*refs).contains(file@));
                assert(add_files(refs_view(*refs), seq![file@].drop_last()) == refs_view(*refs));
            }
            return;
        }
        i += 1;
    }
    let ghost before = refs_view(*refs);
    proof {
        assert(!before.contains(file@));
        assert(add_files(before, seq![file@].drop_last()) == before);
    }
    refs.push(string_of(file));
    proof {
        assert(refs_view(*refs) =~= before.push(file@));
    }
}

proof fn lemma_add_files_concat(refs: Seq<Seq<char>>, a: Seq<Seq<char>>, b: Seq<Seq<char>>)
    ensures
        add_files(add_files(refs, a), b) == add_files(refs, a + b),
    decreases b.len(),
{
    if b.len() == 0 {
        assert(a + b =~= a);
    } else {
        lemma_add_files_concat(refs, a, b.drop_last());
        assert((a + b).drop_last() =~= a + b.drop_last());
        assert((a + b).last() == b.last());
    }
}

fn replace_sound_tags(s: &Vec<char>, topic: &Vec<char>, refs: &mut Vec<String>) -> (r: Vec<char>)
    ensures
        r@ == sound_scan(s@, topic@).0,
        refs_view(*final(refs)) == add_files(refs_view(*old(refs)), sound_scan(s@, topic@).1),
{
    proof {
        reveal_strlit("[sound:");
        reveal_strlit("]");
    }
    let open = chars_of("[sound:");
    let close = chars_of("]");
    let mut out: Vec<char> = Vec::new();
    let mut rest = slice(s, 0, s.len());
    proof {
        assert(rest@ =~= s@);
        assert(Seq::<char>::empty() + sound_scan(rest@, topic@).0 =~= sound_scan(s@, topic@).0);
        assert(add_files(refs_view(*refs), Seq::<Seq<char>>::empty()) == refs_view(*refs));
    }
    let ghost refs0 = refs_view(*old(refs));
    let ghost done_files: Seq<Seq<char>> = seq![];
    loop
        invariant
            open@ == "[sound:"@,
            close@ == "]"@,
            out@ + sound_scan(rest@, topic@).0 == sound_scan(s@, topic@).0,
            done_files + sound_scan(rest@, topic@).1 == sound_scan(s@, topic@).1,
            refs_view(*refs) == add_files(refs0, done_files),
            refs0 == refs_view(*old(refs)),
        decreases rest@.len(),
    {
        proof {
            reveal_strlit("[sound:");
            reveal_strlit("]");
            reveal_strlit("<img");
            reveal_strlit(">");
        }
        let st = match find_exec(&rest, &open) {
            Some(st) => st,
            None => {
                push_all(&mut out, &rest);
                proof {
                    assert(done_files + Seq::<Seq<char>>::empty() =~= done_files);
                }
                return out;
            },
        };
        proof {
            lemma_find_from(rest@, open@, 0);
        }
        let _n = rest.len();
        let after = slice(&rest, st + 7, rest.len());
        proof {
            assert(after@ =~= rest@.skip(st + 7));
        }
        let e = match find_exec(&after, &close) {
            Some(e) => e,
            None => {
                push_all(&mut out, &rest);
                proof {
                    assert(done_files + Seq::<Seq<char>>::empty() =~= done_files);
                }
                return out;
            },
        };
        proof {
            lemma_find_from(after@, close@, 0);
        }
        let head = slice(&rest, 0, st);
        push_all(&mut out, &head);
        let raw_file = slice(&after, 0, e);
        let file = trim_chars(&raw_file);
        let ghost piece_files: Seq<Seq<char>> = if file@.len() > 0 {
            seq![file@]
        } else {
            seq![]
        };
        if file.len() > 0 {
            add_file(refs, &file);
            push_str(&mut out, " ![](");
            let link = media_rel_path(topic, &file);
            push_all(&mut out, &link);
            push_str(&mut out, ") ");
        }
        let next = slice(&after, e + 1, after.len());
        proof {
            assert(head@ =~= rest@.take(st as int));
            assert(raw_file@ =~= after@.take(e as int));
            assert(next@ =~= after@.skip(e + 1));
            lemma_add_files_concat(refs0, done_files, piece_files);
            assert(done_files + piece_files + sound_scan(next@, topic@).1 =~= done_files + (piece_files
                + sound_scan(next@, topic@).1));
            if file@.len() == 0 {
                assert(add_files(add_files(refs0, done_files), piece_files) == add_files(refs0, done_files));
            }
            done_files = done_files + piece_files;
        }
        rest = next;
    }
}

fn replace_img_tags(s: &Vec<char>, topic: &Vec<char>, refs: &mut Vec<String>) -> (r: Vec<char>)
    requires
        img_tags_ok(s@),
    ensures
        r@ == img_scan(s@, topic@).0,
        refs_view(*final(refs)) == add_files(refs_view(*old(refs)), img_scan(s@, topic@).1),
{
    proof {
        reveal_strlit("<img");
        reveal_strlit(">");
        reveal_strlit("src");
    }
    let open = chars_of("<img");
    let close = chars_of(">");
    let mut out: Vec<char> = Vec::new();
    let mut rest = slice(s, 0, s.len());
    proof {
        assert(rest@ =~= s@);
        assert(Seq::<char>::empty() + img_scan(rest@, topic@).0 =~= img_scan(s@, topic@).0);
    }
    let ghost refs0 = refs_view(*old(refs));
    let ghost done_files: Seq<Seq<char>> = seq![];
    loop
        invariant
            open@ == "<img"@,
            close@ == ">"@,
            img_tags_ok(rest@),
            out@ + img_scan(rest@, topic@).0 == img_scan(s@, topic@).0,
            done_files + img_scan(rest@, topic@).1 == img_scan(s@, topic@).1,
            refs_view(*refs) == add_files(refs0, done_files),
            refs0 == refs_view(*old(refs)),
        decreases rest@.len(),
    {
        proof {
            reveal_strlit("[sound:");
            reveal_strlit("]");
            reveal_strlit("<img");
            reveal_strlit(">");
        }
        let st = match find_exec(&rest, &open) {
            Some(st) => st,
            None => {
                push_all(&mut out, &rest);
                proof {
                    assert(done_files + Seq::<Seq<char>>::empty() =~= done_files);
                }
                return out;
            },
        };
        proof {
            lemma_find_from(rest@, open@, 0);
        }
        let after = slice(&rest, st, rest.len());
        proof {
            assert(after@ =~= rest@.skip(st as int));
        }
        let e = match find_exec(&after, &close) {
            Some(e) => e,
            None => {
                push_all(&mut out, &rest);
                proof {
                    assert(done_files + Seq::<Seq<char>>::empty() =~= done_files);
                }
                return out;
            },
        };
        proof {
            lemma_find_from(after@, close@, 0);
        }
        let head = slice(&rest, 0, st);
        push_all(&mut out, &head);
        let tag = slice(&after, 0, e + 1);
        let tag_s = string_of(&tag);
        proof {
            assert(tag@ =~= after@.take(e + 1));
        }
        let src = match extract_attr(tag_s.as_str(), "src") {
            Some(v) => {
                let vc = chars_of(v.as_str());
                trim_chars(&vc)
            },
            None => Vec::new(),
        };
        let ghost piece_files: Seq<Seq<char>> = if src@.len() > 0 {
            seq![src@]
        } else {
            seq![]
        };
        if src.len() > 0 {
            add_file(refs, &src);
            push_str(&mut out, " ![](");
            let link = media_rel_path(topic, &src);
            push_all(&mut out, &link);
            push_str(&mut out, ") ");
        }
        let next = slice(&after, e + 1, after.len());
        proof {
            assert(head@ =~= rest@.take(st as int));
            assert(next@ =~= after@.skip(e + 1));
            lemma_add_files_concat(refs0, done_files, piece_files);
            assert(done_files + piece_files + img_scan(next@, topic@).1 =~= done_files + (piece_files
                + img_scan(next@, topic@).1));
            if src@.len() == 0 {
                assert(add_files(add_files(refs0, done_files), piece_files) == add_files(refs0, done_files));
            }
            done_files = done_files + piece_files;
        }
        rest = next;
    }
}

// ---------------------------------------------------------------------------
// Fields, cards and the deck page.
// ---------------------------------------------------------------------------

/// Line breaks as ` / ` separators.
pub open spec fn br_to_separators(s: Seq<char>) -> Seq<char> {
    replace(replace(replace(s, "<br>"@, " / "@), "<br/>"@, " / "@), "<br />"@, " / "@)
}

/// A field after its media references are rewritten and its line breaks
/// turned into separators.
pub open spec fn field_markup(raw: Seq<char>, topic: Seq<char>) -> Seq<char> {
    br_to_separators(img_scan(sound_scan(raw, topic).0, topic).0)
}

/// One Anki field as one line of Markdown: media references rewritten, line
/// breaks as ` / `, tags stripped, entities decoded, white space collapsed,
/// `::` read as `—` (it would split the card) and `#` as `＃` (it would
/// make a tag), trimmed.
pub open spec fn clean_field_spec(raw: Seq<char>, topic: Seq<char>) -> Seq<char> {
    trim(
        replace(
            replace(
                collapse_ws_scan(decode_entities_spec(strip_scan(field_markup(raw, topic)).0)).0,
                "::"@,
                "—"@,
            ),
            "#"@,
            "＃"@,
        ),
    )
}

/// Collapsing leaves no white space but single spaces.
proof fn lemma_collapse_ws_spaces(s: Seq<char>)
    ensures
        forall|k: int|
            0 <= k < collapse_ws_scan(s).0.len() && is_ws(#[trigger] collapse_ws_scan(s).0[k]) ==> collapse_ws_scan(s).0[k] == ' ',
    decreases s.len(),
{
    if s.len() > 0 {
        lemma_collapse_ws_spaces(s.drop_last());
        let prev = collapse_ws_scan(s.drop_last()).0;
        let out = collapse_ws_scan(s).0;
        assert forall|k: int| 0 <= k < out.len() && is_ws(#[trigger] out[k]) implies out[k] == ' ' by {
            if k < prev.len() {
                assert(out[k] == prev[k]);
            }
        }
    }
}

/// A cleaned field is one line for a card: no `::` (so it cannot be read as
/// the separator of front and back), no `#` (so the deck's topic is its only
/// tag), no white space other than single spaces (so no line break), and
/// none at either end.
pub proof fn lemma_clean_field_shape(raw: Seq<char>, topic: Seq<char>)
    ensures
        forall|k: int| 0 <= k < clean_field_spec(raw, topic).len() ==> clean_field_spec(raw, topic)[k] != '#',
        forall|k: int|
            0 <= k < clean_field_spec(raw, topic).len() && is_ws(#[trigger] clean_field_spec(raw, topic)[k])
                ==> clean_field_spec(raw, topic)[k] == ' ',
        clean_field_spec(raw, topic).len() > 0 ==> !is_ws(clean_field_spec(raw, topic)[0]) && !is_ws(
            clean_field_spec(raw, topic).last(),
        ),
        crate::text::no_double(clean_field_spec(raw, topic), ':'),
{
    reveal_strlit("::");
    reveal_strlit("—");
    reveal_strlit("#");
    reveal_strlit("＃");
    let c = collapse_ws_scan(decode_entities_spec(strip_scan(field_markup(raw, topic)).0)).0;
    lemma_collapse_ws_spaces(decode_entities_spec(strip_scan(field_markup(raw, topic)).0));
    let p = |x: char| is_ws(x) ==> x == ' ';
    assert forall|k: int| 0 <= k < c.len() implies #[trigger] p(c[k]) by {
        if is_ws(c[k]) {
            assert(c[k] == ' ');
        }
    }
    let dash = "—"@;
    assert(dash =~= seq!['—']);
    assert forall|k: int| 0 <= k < dash.len() implies #[trigger] p(dash[k]) by {
        assert(dash[k] == '—');
    }
    crate::text::lemma_replace_chars(c, "::"@, dash, p);
    assert("::"@ =~= seq![':', ':']);
    crate::text::lemma_replace_double(c, ':', dash);
    let s1 = replace(c, "::"@, dash);
    let wide = "＃"@;
    assert(wide =~= seq!['＃']);
    assert forall|k: int| 0 <= k < wide.len() implies #[trigger] p(wide[k]) by {
        assert(wide[k] == '＃');
    }
    crate::text::lemma_replace_chars(s1, "#"@, wide, p);
    assert("#"@ =~= seq!['#']);
    crate::text::lemma_replace_removes(s1, '#', wide);
    crate::text::lemma_replace_char_map(s1, '#', '＃');
    let s2 = replace(s1, "#"@, wide);
    assert forall|k: int| 0 <= k && k + 1 < s2.len() implies !(#[trigger] s2[k] == ':' && s2[k + 1] == ':') by {
        assert(s2[k] == if s1[k] == '#' { '＃' } else { s1[k] });
        assert(s2[k + 1] == if s1[k + 1] == '#' { '＃' } else { s1[k + 1] });
    }
    crate::text::lemma_trim_part(s2);
    let r = trim(s2);
    let (lo, hi) = choose|lo: int, hi: int| 0 <= lo <= hi <= s2.len() && r == s2.subrange(lo, hi);
    assert forall|k: int| 0 <= k < r.len() implies r[k] != '#' && (is_ws(r[k]) ==> r[k] == ' ') by {
        assert(r[k] == s2[k + lo]);
        assert(p(s2[k + lo]));
    }
    assert forall|k: int| 0 <= k && k + 1 < r.len() implies !(#[trigger] r[k] == ':' && r[k + 1] == ':') by {
        assert(r[k] == s2[k + lo]);
        assert(r[k + 1] == s2[k + 1 + lo]);
    }
}

/// The media files a field references, in order.
pub open spec fn field_files(raw: Seq<char>, topic: Seq<char>) -> Seq<Seq<char>> {
    sound_scan(raw, topic).1 + img_scan(sound_scan(raw, topic).0, topic).1
}

/// A field can be cleaned: its image tags' `src` can be read, and its tags
/// nest fewer than 2^31 deep.
pub open spec fn clean_field_ok(raw: Seq<char>, topic: Seq<char>) -> bool {
    img_tags_ok(sound_scan(raw, topic).0) && open_angles(field_markup(raw, topic)) <= i32::MAX
}

pub fn clean_field_chars(raw: &Vec<char>, topic: &Vec<char>, referenced: &mut Vec<String>) -> (r: Vec<char>)
    requires
        clean_field_ok(raw@, topic@),
    ensures
        r@ == clean_field_spec(raw@, topic@),
        refs_view(*final(referenced)) == add_files(refs_view(*old(referenced)), field_files(raw@, topic@)),
{
    proof {
        reveal_strlit("<br>");
        reveal_strlit("<br/>");
        reveal_strlit("<br />");
        reveal_strlit("::");
        reveal_strlit("#");
    }
    let ghost refs0 = refs_view(*referenced);
    let a = replace_sound_tags(raw, topic, referenced);
    let b = replace_img_tags(&a, topic, referenced);
    proof {
        lemma_add_files_concat(refs0, sound_scan(raw@, topic@).1, img_scan(sound_scan(raw@, topic@).0, topic@).1);
    }
    let c1 = replace_str(&b, "<br>", " / ");
    let c2 = replace_str(&c1, "<br/>", " / ");
    let c3 = replace_str(&c2, "<br />", " / ");
    let d = strip_html_tags(&c3);
    let e = decode_entities(&d);
    let f = collapse_ws(&e);
    let g = replace_str(&f, "::", "—");
    let h = replace_str(&g, "#", "＃");
    trim_chars(&h)
}

/// Convert one Anki field (HTML and media references) into a single line of
/// Markdown, recording the media files it references.
pub fn clean_field(raw: &str, topic: &str, referenced: &mut Vec<String>) -> (r: String)
    requires
        clean_field_ok(raw@, topic@),
    ensures
        r@ == clean_field_spec(raw@, topic@),
        refs_view(*final(referenced)) == add_files(refs_view(*old(referenced)), field_files(raw@, topic@)),
{
    let rv = chars_of(raw);
    let tv = chars_of(topic);
    let c = clean_field_chars(&rv, &tv, referenced);
    string_of(&c)
}

/// An empty field can always be cleaned.
proof fn lemma_empty_field_ok(topic: Seq<char>)
    ensures
        clean_field_ok(seq![], topic),
{
    reveal_strlit("[sound:");
    reveal_strlit("<img");
    reveal_strlit("<br>");
    reveal_strlit("<br/>");
    reveal_strlit("<br />");
    let e = Seq::<char>::empty();
    assert(find(e, "[sound:"@) is None);
    assert(sound_scan(e, topic).0 == e);
    assert(find(e, "<img"@) is None);
    assert(img_scan(e, topic).0 == e);
    assert(replace(e, "<br>"@, " / "@) =~= e);
    assert(replace(e, "<br/>"@, " / "@) =~= e);
    assert(replace(e, "<br />"@, " / "@) =~= e);
    assert(open_angles(e) == 0);
}

/// The field shown on the front of a card: the note type's sort field when
/// the note has it, else the first.
pub open spec fn front_index(n_fields: nat, sortf: nat) -> nat {
    if sortf < n_fields {
        sortf
    } else {
        0
    }
}

/// The other fields, cleaned, blank ones dropped, in order.
pub open spec fn back_parts(fields: Seq<Seq<char>>, front: nat, topic: Seq<char>, k: int) -> Seq<Seq<char>>
    decreases k,
{
    if k <= 0 {
        seq![]
    } else {
        let prev = back_parts(fields, front, topic, k - 1);
        let c = clean_field_spec(fields[k - 1], topic);
        if k - 1 == front || trim(c).len() == 0 {
            prev
        } else {
            prev.push(c)
        }
    }
}

/// The files the other fields reference, in order.
pub open spec fn back_files(fields: Seq<Seq<char>>, front: nat, topic: Seq<char>, k: int) -> Seq<Seq<char>>
    decreases k,
{
    if k <= 0 {
        seq![]
    } else {
        let prev = back_files(fields, front, topic, k - 1);
        if k - 1 == front {
            prev
        } else {
            prev + field_files(fields[k - 1], topic)
        }
    }
}

/// The field text at `i`, or nothing.
pub open spec fn field_at(fields: Seq<Seq<char>>, i: nat) -> Seq<char> {
    if i < fields.len() {
        fields[i as int]
    } else {
        seq![]
    }
}

/// The page line a note becomes: `- Front :: Back  #topic` (the other fields
/// joined with `  ·  `), `- Front  #topic` when there is no back, nothing
/// when both sides are blank.
pub open spec fn note_line_spec(fields: Seq<Seq<char>>, sortf: nat, topic: Seq<char>) -> Option<Seq<char>> {
    let fi = front_index(fields.len(), sortf);
    let front = clean_field_spec(field_at(fields, fi), topic);
    let back = join(back_parts(fields, fi, topic, fields.len() as int), "  ·  "@);
    if trim(front).len() == 0 && trim(back).len() == 0 {
        None
    } else if trim(back).len() == 0 {
        Some("- "@ + front + "  #"@ + topic)
    } else {
        Some("- "@ + front + " :: "@ + back + "  #"@ + topic)
    }
}

/// Field `i` goes on the back of the card: it is not the front and is not
/// blank once cleaned.
pub open spec fn on_back(fields: Seq<Seq<char>>, front: nat, topic: Seq<char>, i: int) -> bool {
    i != front && trim(clean_field_spec(fields[i], topic)).len() > 0
}

/// The back of a card, taken field by field: the cleaned text of every field
/// at an index that goes on the back, in increasing order of index.
pub open spec fn back_fields(fields: Seq<Seq<char>>, front: nat, topic: Seq<char>) -> Seq<Seq<char>> {
    Seq::new(fields.len(), |i: int| i)
        .filter(|i: int| on_back(fields, front, topic, i))
        .map_values(|i: int| clean_field_spec(fields[i], topic))
}

proof fn lemma_back_parts_prefix(fields: Seq<Seq<char>>, front: nat, topic: Seq<char>, k: int)
    requires
        0 <= k <= fields.len(),
    ensures
        back_parts(fields, front, topic, k) == Seq::new(k as nat, |i: int| i)
            .filter(|i: int| on_back(fields, front, topic, i))
            .map_values(|i: int| clean_field_spec(fields[i], topic)),
    decreases k,
{
    reveal(Seq::filter);
    let p = |i: int| on_back(fields, front, topic, i);
    let g = |i: int| clean_field_spec(fields[i], topic);
    let idx = Seq::new(k as nat, |i: int| i);
    if k == 0 {
        assert(idx.filter(p) =~= Seq::<int>::empty());
        assert(idx.filter(p).map_values(g) =~= Seq::<Seq<char>>::empty());
    } else {
        lemma_back_parts_prefix(fields, front, topic, k - 1);
        let prev = Seq::new((k - 1) as nat, |i: int| i);
        assert(idx.drop_last() =~= prev);
        assert(idx.last() == k - 1);
        if p(k - 1) {
            assert(idx.filter(p) == prev.filter(p).push(k - 1));
            assert(idx.filter(p).map_values(g) =~= prev.filter(p).map_values(g).push(g(k - 1)));
        } else {
            assert(idx.filter(p) == prev.filter(p));
        }
    }
}

/// Every field other than the front that is not blank once cleaned reaches
/// the back of the card, in field order, and nothing else does: the back is
/// those fields joined with `  ·  `.
pub proof fn lemma_note_back_keeps_every_field(fields: Seq<Seq<char>>, sortf: nat, topic: Seq<char>)
    ensures
        ({
            let fi = front_index(fields.len(), sortf);
            let front = clean_field_spec(field_at(fields, fi), topic);
            let back = join(back_fields(fields, fi, topic), "  ·  "@);
            &&& back_parts(fields, fi, topic, fields.len() as int) == back_fields(fields, fi, topic)
            &&& trim(back).len() > 0 ==> note_line_spec(fields, sortf, topic) == Some(
                "- "@ + front + " :: "@ + back + "  #"@ + topic,
            )
        }),
{
    let fi = front_index(fields.len(), sortf);
    lemma_back_parts_prefix(fields, fi, topic, fields.len() as int);
}

/// The files a note references: the front's, then the other fields' in order.
pub open spec fn note_files(fields: Seq<Seq<char>>, sortf: nat, topic: Seq<char>) -> Seq<Seq<char>> {
    let fi = front_index(fields.len(), sortf);
    field_files(field_at(fields, fi), topic) + back_files(fields, fi, topic, fields.len() as int)
}

/// Every field of a note can be cleaned.
pub open spec fn note_ok(fields: Seq<Seq<char>>, topic: Seq<char>) -> bool {
    forall|i: int| 0 <= i < fields.len() ==> #[trigger] clean_field_ok(fields[i], topic)
}

/// Build one note's line, recording its media files.
pub fn note_line(fields: &Vec<Vec<char>>, sortf: usize, topic: &Vec<char>, referenced: &mut Vec<String>) -> (r: Option<Vec<char>>)
    requires
        note_ok(fields.deep_view(), topic@),
    ensures
        match r {
            Some(l) => note_line_spec(fields.deep_view(), sortf as nat, topic@) == Some(l@),
            None => note_line_spec(fields.deep_view(), sortf as nat, topic@) is None,
        },
        refs_view(*final(referenced)) == add_files(refs_view(*old(referenced)), note_files(fields.deep_view(), sortf as nat, topic@)),
{
    let ghost fv = fields.deep_view();
    let ghost refs0 = refs_view(*referenced);
    let fi: usize = if sortf < fields.len() {
        sortf
    } else {
        0
    };
    let empty: Vec<char> = Vec::new();
    let front = if fi < fields.len() {
        proof {
            lemma_chars_deep(&fields@[fi as int]);
        }
        clean_field_chars(&fields[fi], topic, referenced)
    } else {
        proof {
            assert(empty@ =~= Seq::<char>::empty());
            lemma_empty_field_ok(topic@);
        }
        clean_field_chars(&empty, topic, referenced)
    };
    proof {
        assert(field_at(fv, fi as nat) == if fi < fields.len() {
            fields@[fi as int]@
        } else {
            empty@
        });
    }
    let ghost after_front = refs_view(*referenced);
    let mut parts: Vec<Vec<char>> = Vec::new();
    let mut i: usize = 0;
    proof {
        assert(parts.deep_view() =~= back_parts(fv, fi as nat, topic@, 0));
        assert(after_front == add_files(refs0, field_files(field_at(fv, fi as nat), topic@)));
        assert(back_files(fv, fi as nat, topic@, 0) =~= Seq::<Seq<char>>::empty());
        assert(field_files(field_at(fv, fi as nat), topic@) + back_files(fv, fi as nat, topic@, 0) =~= field_files(field_at(fv, fi as nat), topic@));
    }
    while i < fields.len()
        invariant
            i <= fields.len(),
            fv == fields.deep_view(),
            note_ok(fv, topic@),
            parts.deep_view() == back_parts(fv, fi as nat, topic@, i as int),
            refs_view(*referenced) == add_files(refs0, field_files(field_at(fv, fi as nat), topic@) + back_files(fv, fi as nat, topic@, i as int)),
        decreases fields.len() - i,
    {
        proof {
            lemma_chars_deep(&fields@[i as int]);
            assert(fv[i as int] == fields@[i as int]@);
        }
        if i != fi {
            let ghost before = refs_view(*referenced);
            let c = clean_field_chars(&fields[i], topic, referenced);
            proof {
                lemma_add_files_concat(refs0, field_files(field_at(fv, fi as nat), topic@) + back_files(fv, fi as nat, topic@, i as int), field_files(fv[i as int], topic@));
                assert(field_files(field_at(fv, fi as nat), topic@) + back_files(fv, fi as nat, topic@, i as int) + field_files(fv[i as int], topic@)
                    =~= field_files(field_at(fv, fi as nat), topic@) + back_files(fv, fi as nat, topic@, i + 1));
            }
            let t = trim_chars(&c);
            if t.len() > 0 {
                let ghost pb = parts.deep_view();
                let ghost cv = c@;
                parts.push(c);
                proof {
                    lemma_push_deep(pb, &parts, cv);
                }
            }
        } else {
            proof {
                assert(back_files(fv, fi as nat, topic@, i + 1) == back_files(fv, fi as nat, topic@, i as int));
            }
        }
        i += 1;
    }
    let sep = chars_of("  ·  ");
    let back = join_exec(&parts, &sep);
    let tf = trim_chars(&front);
    let tb = trim_chars(&back);
    if tf.len() == 0 && tb.len() == 0 {
        return None;
    }
    let mut line = chars_of("- ");
    push_all(&mut line, &front);
    if tb.len() == 0 {
        push_str(&mut line, "  #");
    } else {
        push_str(&mut line, " :: ");
        push_all(&mut line, &back);
        push_str(&mut line, "  #");
    }
    push_all(&mut line, topic);
    Some(line)
}

/// Whether a media progress update is due after file `i` of `total`: every
/// 64 files and after the last.
pub open spec fn media_progress_due_spec(i: u64, total: u64) -> bool {
    total > 0 && (i % 64 == 0 || i + 1 == total)
}

pub fn media_progress_due(i: u64, total: u64) -> (r: bool)
    ensures
        r == media_progress_due_spec(i, total),
{
    total > 0 && (i % 64 == 0 || (i < u64::MAX && i + 1 == total))
}

/// A deck converted to its page.
#[derive(Debug, Clone)]
pub struct AnkiDeck {
    /// The topic tag of every card.
    pub topic: String,
    /// One line per note that has text.
    pub lines: Vec<String>,
    /// The media files the notes reference, each once.
    pub referenced: Vec<String>,
    /// Number of notes read from the deck.
    pub note_count: usize,
    /// Lines that are `Front :: Back` flashcards.
    pub card_count: usize,
    /// The whole page.
    pub content: String,
}

/// The sort field of a note type: the first entry for `mid`, else 0.
pub open spec fn sort_field_of(sf: Seq<(Seq<char>, nat)>, mid: Seq<char>) -> nat
    decreases sf.len(),
{
    if sf.len() == 0 {
        0
    } else if sf[0].0 == mid {
        sf[0].1
    } else {
        sort_field_of(sf.drop_first(), mid)
    }
}

/// A note's fields, separated by `U+001F`.
pub open spec fn note_fields(flds: Seq<char>) -> Seq<Seq<char>> {
    split_char(flds, '\u{1f}')
}

pub open spec fn deck_lines(notes: Seq<(Seq<char>, Seq<char>)>, sf: Seq<(Seq<char>, nat)>, topic: Seq<char>) -> Seq<Seq<char>>
    decreases notes.len(),
{
    if notes.len() == 0 {
        seq![]
    } else {
        let n = notes.last();
        deck_lines(notes.drop_last(), sf, topic) + match note_line_spec(note_fields(n.1), sort_field_of(sf, n.0), topic) {
            Some(l) => seq![l],
            None => seq![],
        }
    }
}

pub open spec fn deck_files(notes: Seq<(Seq<char>, Seq<char>)>, sf: Seq<(Seq<char>, nat)>, topic: Seq<char>) -> Seq<Seq<char>>
    decreases notes.len(),
{
    if notes.len() == 0 {
        seq![]
    } else {
        let n = notes.last();
        deck_files(notes.drop_last(), sf, topic) + note_files(note_fields(n.1), sort_field_of(sf, n.0), topic)
    }
}

/// Number of lines that are flashcards (hold ` :: `).
pub open spec fn card_count_spec(lines: Seq<Seq<char>>) -> nat
    decreases lines.len(),
{
    if lines.len() == 0 {
        0
    } else {
        card_count_spec(lines.drop_last()) + if contains(lines.last(), " :: "@) {
            1nat
        } else {
            0
        }
    }
}

/// The lines, each ended by a line break.
pub open spec fn lines_text(lines: Seq<Seq<char>>) -> Seq<char>
    decreases lines.len(),
{
    if lines.len() == 0 {
        seq![]
    } else {
        lines_text(lines.drop_last()) + lines.last() + "\n"@
    }
}

/// The deck's page: its title, a line saying how many flashcards it holds
/// and under which topic, then the card lines.
pub open spec fn deck_page_spec(deck: Seq<char>, topic: Seq<char>, lines: Seq<Seq<char>>) -> Seq<char> {
    "# "@ + deck + "\n\n"@ + "Imported from Anki — "@ + decimal(card_count_spec(lines)) + " flashcards. Study them in **Flashcards** (sidebar): they belong to the `#"@
        + topic + "` topic.\n\n"@ + lines_text(lines)
}

/// Every field of every note can be cleaned.
pub open spec fn deck_ok(notes: Seq<(Seq<char>, Seq<char>)>, topic: Seq<char>) -> bool {
    forall|i: int| 0 <= i < notes.len() ==> #[trigger] note_ok(note_fields(notes[i].1), topic)
}

/// Notes as plain values: note type id and fields text.
pub open spec fn notes_view(notes: Seq<(String, String)>) -> Seq<(Seq<char>, Seq<char>)> {
    notes.map_values(|n: (String, String)| (n.0@, n.1@))
}

/// Sort fields as plain values.
pub open spec fn sort_fields_view(sf: Seq<(String, usize)>) -> Seq<(Seq<char>, nat)> {
    sf.map_values(|p: (String, usize)| (p.0@, p.1 as nat))
}

fn sort_field_exec(sort_fields: &[(String, usize)], mid: &Vec<char>) -> (r: usize)
    ensures
        r as nat == sort_field_of(sort_fields_view(sort_fields@), mid@),
{
    let ghost sv = sort_fields_view(sort_fields@);
    let mut i: usize = 0;
    proof {
        assert(sv.skip(0) =~= sv);
    }
    while i < sort_fields.len()
        invariant
            i <= sort_fields.len(),
            sv == sort_fields_view(sort_fields@),
            sort_field_of(sv, mid@) == sort_field_of(sv.skip(i as int), mid@),
        decreases sort_fields.len() - i,
    {
        proof {
            assert(sv.skip(i as int)[0] == sv[i as int]);
            assert(sv.skip(i as int).drop_first() =~= sv.skip(i + 1));
        }
        let k = chars_of(sort_fields[i].0.as_str());
        if crate::text::seq_eq(&k, mid) {
            return sort_fields[i].1;
        }
        i += 1;
    }
    0
}

/// Convert a deck's notes (note type id and fields) into its page, given
/// each note type's sort field.
pub fn build_anki_deck(deck: &str, notes: &[(String, String)], sort_fields: &[(String, usize)]) -> (r: AnkiDeck)
    requires
        deck_ok(notes_view(notes@), slugify_spec(deck@)),
    ensures
        r.topic@ == slugify_spec(deck@),
        r.lines@.map_values(|l: String| l@) == deck_lines(notes_view(notes@), sort_fields_view(sort_fields@), r.topic@),
        refs_view(r.referenced) == add_files(seq![], deck_files(notes_view(notes@), sort_fields_view(sort_fields@), r.topic@)),
        r.note_count == notes@.len(),
        r.lines@.len() <= r.note_count,
        r.card_count <= r.note_count,
        r.card_count == card_count_spec(r.lines@.map_values(|l: String| l@)),
        r.content@ == deck_page_spec(deck@, r.topic@, r.lines@.map_values(|l: String| l@)),
{
    let topic_s = slugify(deck);
    let topic = chars_of(topic_s.as_str());
    let ghost nv = notes_view(notes@);
    let ghost sv = sort_fields_view(sort_fields@);
    let mut lines: Vec<String> = Vec::new();
    let mut referenced: Vec<String> = Vec::new();
    let mut cards: usize = 0;
    let mut i: usize = 0;
    proof {
        assert(lines@.map_values(|l: String| l@) =~= deck_lines(nv.take(0), sv, topic@));
        assert(refs_view(referenced) =~= add_files(seq![], deck_files(nv.take(0), sv, topic@)));
    }
    while i < notes.len()
        invariant
            i <= notes.len(),
            nv == notes_view(notes@),
            sv == sort_fields_view(sort_fields@),
            topic@ == slugify_spec(deck@),
            deck_ok(nv, topic@),
            lines@.map_values(|l: String| l@) == deck_lines(nv.take(i as int), sv, topic@),
            refs_view(referenced) == add_files(seq![], deck_files(nv.take(i as int), sv, topic@)),
            cards == card_count_spec(lines@.map_values(|l: String| l@)),
            cards <= lines@.len(),
            lines@.len() <= i,
        decreases notes.len() - i,
    {
        let flds = chars_of(notes[i].1.as_str());
        let mid = chars_of(notes[i].0.as_str());
        let fields = split_char_exec(&flds, '\u{1f}');
        let sortf = sort_field_exec(sort_fields, &mid);
        proof {
            assert(nv[i as int] == (mid@, flds@));
            assert(note_ok(note_fields(nv[i as int].1), topic@));
            assert(nv.take(i + 1).drop_last() =~= nv.take(i as int));
            assert(nv.take(i + 1).last() == nv[i as int]);
        }
        let ghost refs_before = refs_view(referenced);
        let ghost lines_before = lines@.map_values(|l: String| l@);
        let line = note_line(&fields, sortf, &topic, &mut referenced);
        proof {
            lemma_add_files_concat(seq![], deck_files(nv.take(i as int), sv, topic@), note_files(fields.deep_view(), sortf as nat, topic@));
        }
        match line {
            Some(l) => {
                let has_sep = contains_str(&l, " :: ");
                let ls = string_of(&l);
                lines.push(ls);
                proof {
                    assert(lines@.map_values(|l: String| l@) =~= lines_before.push(l@));
                    assert(lines_before.push(l@).drop_last() =~= lines_before);
                }
                if has_sep {
                    cards += 1;
                }
            },
            None => {
                proof {
                    assert(lines_before + Seq::<Seq<char>>::empty() =~= lines_before);
                }
            },
        }
        i += 1;
    }
    proof {
        assert(nv.take(i as int) =~= nv);
    }
    let mut content = chars_of("# ");
    push_str(&mut content, deck);
    push_str(&mut content, "\n\n");
    push_str(&mut content, "Imported from Anki — ");
    let n = decimal_exec(cards as u64);
    push_all(&mut content, &n);
    push_str(&mut content, " flashcards. Study them in **Flashcards** (sidebar): they belong to the `#");
    push_all(&mut content, &topic);
    push_str(&mut content, "` topic.\n\n");
    let ghost head = content@;
    let mut j: usize = 0;
    proof {
        assert(content@ =~= head + lines_text(lines@.map_values(|l: String| l@).take(0)));
    }
    while j < lines.len()
        invariant
            j <= lines.len(),
            content@ == head + lines_text(lines@.map_values(|l: String| l@).take(j as int)),
        decreases lines.len() - j,
    {
        push_str(&mut content, lines[j].as_str());
        push_str(&mut content, "\n");
        proof {
            let lv = lines@.map_values(|l: String| l@);
            assert(lv.take(j + 1).drop_last() =~= lv.take(j as int));
            assert(lv.take(j + 1).last() == lines@[j as int]@);
            assert(content@ =~= head + lines_text(lv.take(j + 1)));
        }
        j += 1;
    }
    proof {
        assert(lines@.map_values(|l: String| l@).take(j as int) =~= lines@.map_values(|l: String| l@));
    }
    let note_count = notes.len();
    AnkiDeck { topic: topic_s, lines, referenced, note_count, card_count: cards, content: string_of(&content) }
}

/// The file name of a deck's page: its title with `/` read as `_`, `.md`
/// appended.
pub open spec fn deck_file_name_spec(title: Seq<char>) -> Seq<char> {
    replace(title, "/"@, "_"@) + ".md"@
}

pub fn deck_file_name(title: &str) -> (r: String)
    ensures
        r@ == deck_file_name_spec(title@),
{
    proof {
        reveal_strlit("/");
    }
    let t = chars_of(title);
    let mut out = replace_str(&t, "/", "_");
    push_str(&mut out, ".md");
    string_of(&out)
}


// ---------------------------------------------------------------------------
// Note types and the media map of a package.
// ---------------------------------------------------------------------------

/// One note type of `col.models` as read from JSON: its id, its `sortf`
/// when that is an unsigned integer, and for each entry of `flds` its `ord`
/// and `name` when they have those types.
pub struct AnkiModelJson {
    pub mid: String,
    pub sortf: Option<u64>,
    pub fields: Vec<(Option<u64>, Option<String>)>,
}

pub type ModelJsonView = (Seq<char>, Option<u64>, Seq<(Option<u64>, Option<Seq<char>>)>);

pub open spec fn model_json_view(m: AnkiModelJson) -> ModelJsonView {
    (
        m.mid@,
        m.sortf,
        m.fields@.map_values(|f: (Option<u64>, Option<String>)| (f.0, match f.1 {
            Some(s) => Some(s@),
            None => None,
        })),
    )
}

pub open spec fn models_view(r: Option<Vec<AnkiModelJson>>) -> Option<Seq<ModelJsonView>> {
    match r {
        Some(v) => Some(v@.map_values(|m: AnkiModelJson| model_json_view(m))),
        None => None,
    }
}

/// What `serde_json` reads from a `col.models` text: `None` when it is not
/// JSON; otherwise, in key order, each member of the top object (none when
/// the value is not an object).
pub uninterp spec fn spec_models_json(text: Seq<char>) -> Option<Seq<ModelJsonView>>;

/// `serde_json::from_str::<Value>`, with each member of the top object read
/// as a note type (see `AnkiModelJson`). `serde_json`'s map keeps its keys
/// sorted. The result is named.
#[verifier::external_body]
fn models_json(text: &str) -> (r: Option<Vec<AnkiModelJson>>)
    ensures
        models_view(r) == spec_models_json(text@),
{
    let v: serde_json::Value = serde_json::from_str(text).ok()?;
    let Some(obj) = v.as_object() else { return Some(Vec::new()) };
    Some(obj.iter().map(|(k, m)| AnkiModelJson {
        mid: k.clone(),
        sortf: m.get("sortf").and_then(|s| s.as_u64()),
        fields: m.get("flds").and_then(|a| a.as_array()).map_or(Vec::new(), |a| {
            a.iter().map(|f| (f.get("ord").and_then(|o| o.as_u64()), f.get("name").and_then(|n| n.as_str()).map(String::from))).collect()
        }),
    }).collect())
}

/// A field placed after every field whose `ord` is not greater.
pub open spec fn insert_field(sorted: Seq<(u64, Seq<char>)>, x: (u64, Seq<char>)) -> Seq<(u64, Seq<char>)>
    decreases sorted.len(),
{
    if sorted.len() == 0 {
        seq![x]
    } else if sorted.last().0 <= x.0 {
        sorted.push(x)
    } else {
        insert_field(sorted.drop_last(), x).push(sorted.last())
    }
}

/// A field's `ord` (0 when absent) and name (empty when absent).
pub open spec fn field_entry(f: (Option<u64>, Option<Seq<char>>)) -> (u64, Seq<char>) {
    (
        match f.0 {
            Some(o) => o,
            None => 0,
        },
        match f.1 {
            Some(n) => n,
            None => Seq::empty(),
        },
    )
}

/// The fields ordered by `ord`, fields with equal `ord` kept in their order
/// (a stable sort).
pub open spec fn sort_fields_by_ord(fs: Seq<(Option<u64>, Option<Seq<char>>)>) -> Seq<(u64, Seq<char>)>
    decreases fs.len(),
{
    if fs.len() == 0 {
        seq![]
    } else {
        insert_field(sort_fields_by_ord(fs.drop_last()), field_entry(fs.last()))
    }
}

/// One note type: its id, its field names in `ord` order, and its sort
/// field (0 when absent).
pub open spec fn model_fields_of(m: ModelJsonView) -> (Seq<char>, Seq<Seq<char>>, usize) {
    (
        m.0,
        sort_fields_by_ord(m.2).map_values(|f: (u64, Seq<char>)| f.1),
        match m.1 {
            Some(s) => s as usize,
            None => 0,
        },
    )
}

/// The note types of a package: none when the text is not JSON.
pub open spec fn model_fields_spec(models: Option<Seq<ModelJsonView>>) -> Seq<(Seq<char>, Seq<Seq<char>>, usize)> {
    match models {
        Some(ms) => ms.map_values(|m: ModelJsonView| model_fields_of(m)),
        None => seq![],
    }
}

pub open spec fn model_fields_view(r: Seq<(String, Vec<String>, usize)>) -> Seq<(Seq<char>, Seq<Seq<char>>, usize)> {
    r.map_values(|t: (String, Vec<String>, usize)| (t.0@, t.1.deep_view(), t.2))
}

/// Inserting from the back stops where `insert_field` places the field.
proof fn lemma_insert_field(s: Seq<(u64, Seq<char>)>, x: (u64, Seq<char>), j: int)
    requires
        0 <= j <= s.len(),
        forall|k: int| j <= k < s.len() ==> #[trigger] s[k].0 > x.0,
        j == 0 || s[j - 1].0 <= x.0,
    ensures
        insert_field(s, x) == s.insert(j, x),
    decreases s.len(),
{
    if s.len() == 0 {
        assert(s.insert(j, x) =~= seq![x]);
    } else if s.last().0 <= x.0 {
        assert(j == s.len());
        assert(s.insert(j, x) =~= s.push(x));
    } else {
        lemma_insert_field(s.drop_last(), x, j);
        assert(s.drop_last().insert(j, x).push(s.last()) =~= s.insert(j, x));
    }
}

pub open spec fn fields_seq_view(v: Seq<(u64, Vec<char>)>) -> Seq<(u64, Seq<char>)> {
    v.map_values(|p: (u64, Vec<char>)| (p.0, p.1@))
}

fn ordered_field_names(fs: &Vec<(Option<u64>, Option<String>)>) -> (r: Vec<String>)
    ensures
        r.deep_view() == sort_fields_by_ord(fs@.map_values(|f: (Option<u64>, Option<String>)| (f.0, match f.1 {
            Some(s) => Some(s@),
            None => None,
        }))).map_values(|f: (u64, Seq<char>)| f.1),
{
    let ghost fv = fs@.map_values(|f: (Option<u64>, Option<String>)| (f.0, match f.1 {
        Some(s) => Some(s@),
        None => None,
    }));
    let mut sorted: Vec<(u64, Vec<char>)> = Vec::new();
    let mut i: usize = 0;
    proof {
        assert(fields_seq_view(sorted@) =~= sort_fields_by_ord(fv.take(0)));
    }
    while i < fs.len()
        invariant
            i <= fs@.len(),
            fv == fs@.map_values(|f: (Option<u64>, Option<String>)| (f.0, match f.1 {
                Some(s) => Some(s@),
                None => None,
            })),
            fields_seq_view(sorted@) == sort_fields_by_ord(fv.take(i as int)),
        decreases fs@.len() - i,
    {
        let ord: u64 = match fs[i].0 {
            Some(o) => o,
            None => 0,
        };
        let name: Vec<char> = match &fs[i].1 {
            Some(n) => chars_of(n.as_str()),
            None => Vec::new(),
        };
        let ghost xv = (ord, name@);
        proof {
            assert(xv == field_entry(fv[i as int]));
            assert(fv.take(i + 1).drop_last() =~= fv.take(i as int));
            assert(fv.take(i + 1).last() == fv[i as int]);
        }
        let ghost before = fields_seq_view(sorted@);
        let mut j = sorted.len();
        while j > 0 && sorted[j - 1].0 > ord
            invariant
                j <= sorted@.len(),
                before == fields_seq_view(sorted@),
                forall|k: int| j <= k < before.len() ==> #[trigger] before[k].0 > ord,
            decreases j,
        {
            j -= 1;
        }
        proof {
            lemma_insert_field(before, xv, j as int);
        }
        sorted.insert(j, (ord, name));
        proof {
            assert(fields_seq_view(sorted@) =~= before.insert(j as int, xv));
        }
        i += 1;
    }
    proof {
        assert(fv.take(i as int) =~= fv);
    }
    let ghost sv = fields_seq_view(sorted@);
    let mut out: Vec<String> = Vec::new();
    let mut k: usize = 0;
    proof {
        assert(out.deep_view() =~= sv.map_values(|f: (u64, Seq<char>)| f.1).take(0));
    }
    while k < sorted.len()
        invariant
            k <= sorted@.len(),
            sv == fields_seq_view(sorted@),
            out.deep_view() == sv.map_values(|f: (u64, Seq<char>)| f.1).take(k as int),
        decreases sorted@.len() - k,
    {
        let ghost before = out.deep_view();
        let s = string_of(&sorted[k].1);
        let ghost s_v = s@;
        out.push(s);
        proof {
            assert(out.deep_view() =~= before.push(s_v));
            assert(out.deep_view() =~= sv.map_values(|f: (u64, Seq<char>)| f.1).take(k + 1));
        }
        k += 1;
    }
    proof {
        assert(sv.map_values(|f: (u64, Seq<char>)| f.1).take(k as int) =~= sv.map_values(|f: (u64, Seq<char>)| f.1));
    }
    out
}

/// The note types of a package, from its `col.models` JSON: for each note
/// type id, its field names in `ord` order (a stable sort; an absent `ord`
/// counts as 0, an absent name is empty) and its sort field (0 when
/// absent); nothing when the text is not JSON.
pub fn parse_models(text: &str) -> (r: Vec<(String, Vec<String>, usize)>)
    ensures
        model_fields_view(r@) == model_fields_spec(spec_models_json(text@)),
{
    let models = match models_json(text) {
        Some(ms) => ms,
        None => {
            let out: Vec<(String, Vec<String>, usize)> = Vec::new();
            proof {
                assert(model_fields_view(out@) =~= Seq::<(Seq<char>, Seq<Seq<char>>, usize)>::empty());
            }
            return out;
        },
    };
    let ghost mv = models@.map_values(|m: AnkiModelJson| model_json_view(m));
    let mut out: Vec<(String, Vec<String>, usize)> = Vec::new();
    let mut i: usize = 0;
    proof {
        assert(model_fields_view(out@) =~= mv.map_values(|m: ModelJsonView| model_fields_of(m)).take(0));
    }
    while i < models.len()
        invariant
            i <= models@.len(),
            mv == models@.map_values(|m: AnkiModelJson| model_json_view(m)),
            model_fields_view(out@) == mv.map_values(|m: ModelJsonView| model_fields_of(m)).take(i as int),
        decreases models@.len() - i,
    {
        let m = &models[i];
        let names = ordered_field_names(&m.fields);
        let sortf: usize = match m.sortf {
            Some(s) => s as usize,
            None => 0,
        };
        let t = (crate::text::owned(m.mid.as_str()), names, sortf);
        let ghost tv = (t.0@, t.1.deep_view(), t.2);
        let ghost before = model_fields_view(out@);
        out.push(t);
        proof {
            assert(mv[i as int] == model_json_view(models@[i as int]));
            assert(tv == model_fields_of(mv[i as int]));
            assert(model_fields_view(out@) =~= before.push(tv));
            assert(model_fields_view(out@) =~= mv.map_values(|m: ModelJsonView| model_fields_of(m)).take(i + 1));
        }
        i += 1;
    }
    proof {
        assert(mv.map_values(|m: ModelJsonView| model_fields_of(m)).take(i as int) =~= mv.map_values(|m: ModelJsonView| model_fields_of(m)));
    }
    out
}

/// Each note type's sort field, as `build_anki_deck` looks it up, from the
/// note types that `parse_models` read.
pub fn model_sort_fields(models: &Vec<(String, Vec<String>, usize)>) -> (r: Vec<(String, usize)>)
    ensures
        sort_fields_view(r@) == model_fields_view(models@).map_values(
            |t: (Seq<char>, Seq<Seq<char>>, usize)| (t.0, t.2 as nat),
        ),
{
    let ghost target = model_fields_view(models@).map_values(
        |t: (Seq<char>, Seq<Seq<char>>, usize)| (t.0, t.2 as nat),
    );
    let mut out: Vec<(String, usize)> = Vec::new();
    let mut i: usize = 0;
    while i < models.len()
        invariant
            i <= models@.len(),
            target == model_fields_view(models@).map_values(
                |t: (Seq<char>, Seq<Seq<char>>, usize)| (t.0, t.2 as nat),
            ),
            sort_fields_view(out@) == target.take(i as int),
        decreases models@.len() - i,
    {
        let p = (crate::text::owned(models[i].0.as_str()), models[i].2);
        let ghost before = sort_fields_view(out@);
        out.push(p);
        proof {
            assert(sort_fields_view(out@) =~= before.push((p.0@, p.1 as nat)));
            assert(target.take(i + 1) =~= target.take(i as int).push(target[i as int]));
        }
        i += 1;
    }
    proof {
        assert(target.take(i as int) =~= target);
    }
    out
}

/// What `serde_json` reads from a package's `media` text as a map of
/// strings: `None` when it is not such a map; otherwise its entries
/// (number, file name) in key order.
pub uninterp spec fn spec_media_map_json(text: Seq<char>) -> Option<Seq<(Seq<char>, Seq<char>)>>;

pub open spec fn pairs_opt_view(r: Option<Vec<(String, String)>>) -> Option<Seq<(Seq<char>, Seq<char>)>> {
    match r {
        Some(v) => Some(v@.map_values(|p: (String, String)| (p.0@, p.1@))),
        None => None,
    }
}

/// `serde_json::from_str` into a sorted map of strings, its entries in key
/// order. The result is named.
#[verifier::external_body]
fn media_map_json(text: &str) -> (r: Option<Vec<(String, String)>>)
    ensures
        pairs_opt_view(r) == spec_media_map_json(text@),
{
    serde_json::from_str::<std::collections::BTreeMap<String, String>>(text).ok().map(|m| m.into_iter().collect())
}

/// The media map of a package (number, file name): empty when its text is
/// not a JSON map of strings.
pub fn parse_media_map(text: &str) -> (r: Vec<(String, String)>)
    ensures
        pairs_opt_view(Some(r)) == match spec_media_map_json(text@) {
            Some(m) => Some(m),
            None => Some(Seq::<(Seq<char>, Seq<char>)>::empty()),
        },
{
    match media_map_json(text) {
        Some(m) => m,
        None => {
            let out: Vec<(String, String)> = Vec::new();
            proof {
                assert(out@.map_values(|p: (String, String)| (p.0@, p.1@)) =~= Seq::<(Seq<char>, Seq<char>)>::empty());
            }
            out
        },
    }
}


// ---------------------------------------------------------------------------
// The entries of an `.apkg` archive.
// ---------------------------------------------------------------------------

/// A package's media map, from its `media` entry: parsed when it is UTF-8
/// text (empty when that text is not a JSON map of strings); empty when the
/// entry is absent or a directory; an error when it cannot be read or is not
/// UTF-8.
pub open spec fn package_media_spec(archive: Seq<u8>) -> Result<Seq<(Seq<char>, Seq<char>)>, Seq<char>> {
    match spec_zip_entry(archive, "media"@) {
        Ok(b) => if valid_utf8(b) {
            Ok(
                match spec_media_map_json(decode_utf8(b)) {
                    Some(m) => m,
                    None => seq![],
                },
            )
        } else {
            Err("stream did not contain valid UTF-8"@)
        },
        Err((EntryFailure::Unreadable, e)) => Err(e),
        Err(_) => Ok(seq![]),
    }
}

/// The bytes of an entry, when it is there: a directory reads as no bytes.
pub open spec fn entry_bytes(r: Result<Seq<u8>, (EntryFailure, Seq<char>)>) -> Option<Seq<u8>> {
    match r {
        Ok(b) => Some(b),
        Err((EntryFailure::Directory, _)) => Some(seq![]),
        Err(_) => None,
    }
}

/// What an `.apkg` archive holds for an import: its media map and its
/// collection database (`collection.anki21`, else `collection.anki2`);
/// refused when it is not a zip archive, when its media list cannot be
/// read, and when it holds neither collection.
pub open spec fn anki_package_spec(archive: Seq<u8>) -> Result<(Seq<(Seq<char>, Seq<char>)>, Seq<u8>), Seq<char>> {
    match spec_zip_open_error(archive) {
        Some(e) => Err("Not a valid .apkg (zip) file: "@ + e),
        None => match package_media_spec(archive) {
            Err(e) => Err(e),
            Ok(m) => match entry_bytes(spec_zip_entry(archive, "collection.anki21"@)) {
                Some(c) => Ok((m, c)),
                None => match entry_bytes(spec_zip_entry(archive, "collection.anki2"@)) {
                    Some(c) => Ok((m, c)),
                    None => Err("No collection.anki2/anki21 found in .apkg"@),
                },
            },
        },
    }
}

fn entry_bytes_exec(r: Result<Vec<u8>, (EntryFailure, String)>) -> (o: Option<Vec<u8>>)
    ensures
        match o {
            Some(b) => entry_bytes(crate::archive::entry_view(r)) == Some(b@),
            None => entry_bytes(crate::archive::entry_view(r)) is None,
        },
{
    match r {
        Ok(b) => Some(b),
        Err((EntryFailure::Directory, _)) => {
            let v: Vec<u8> = Vec::new();
            proof {
                assert(v@ =~= Seq::<u8>::empty());
            }
            Some(v)
        },
        Err(_) => None,
    }
}

/// The bytes of a media file stored in an `.apkg` archive under its number;
/// `None` when there is no such entry or it cannot be read.
pub fn anki_media_entry(archive: &[u8], number: &str) -> (r: Option<Vec<u8>>)
    ensures
        match r {
            Some(b) => entry_bytes(spec_zip_entry(archive@, number@)) == Some(b@),
            None => entry_bytes(spec_zip_entry(archive@, number@)) is None,
        },
{
    entry_bytes_exec(zip_entry(archive, number))
}

/// The media map and collection database of an `.apkg` archive's bytes.
pub fn anki_package_entries(archive: &[u8]) -> (r: Result<(Vec<(String, String)>, Vec<u8>), String>)
    ensures
        match r {
            Ok((m, c)) => anki_package_spec(archive@) == Ok::<(Seq<(Seq<char>, Seq<char>)>, Seq<u8>), Seq<char>>(
                (pairs_opt_view(Some(m)).unwrap(), c@),
            ),
            Err(e) => anki_package_spec(archive@) == Err::<(Seq<(Seq<char>, Seq<char>)>, Seq<u8>), Seq<char>>(e@),
        },
{
    if let Some(e) = zip_open_error(archive) {
        let mut msg = chars_of("Not a valid .apkg (zip) file: ");
        push_str(&mut msg, e.as_str());
        return Err(string_of(&msg));
    }
    let media = match zip_entry(archive, "media") {
        Ok(b) => match utf8_text(b.as_slice()) {
            Some(t) => parse_media_map(t.as_str()),
            None => return Err(crate::text::owned("stream did not contain valid UTF-8")),
        },
        Err((EntryFailure::Unreadable, e)) => return Err(e),
        Err(_) => {
            let v: Vec<(String, String)> = Vec::new();
            proof {
                assert(pairs_opt_view(Some(v)).unwrap() =~= Seq::<(Seq<char>, Seq<char>)>::empty());
            }
            v
        },
    };
    match entry_bytes_exec(zip_entry(archive, "collection.anki21")) {
        Some(c) => Ok((media, c)),
        None => match entry_bytes_exec(zip_entry(archive, "collection.anki2")) {
            Some(c) => Ok((media, c)),
            None => Err(crate::text::owned("No collection.anki2/anki21 found in .apkg")),
        },
    }
}

/// The number under which the media map stores a file: the last entry with
/// that name, as inverting the map into a name-keyed map keeps the last one.
pub open spec fn media_number_for(media: Seq<(Seq<char>, Seq<char>)>, name: Seq<char>) -> Option<Seq<char>>
    decreases media.len(),
{
    if media.len() == 0 {
        None
    } else if media.last().1 == name {
        Some(media.last().0)
    } else {
        media_number_for(media.drop_last(), name)
    }
}

/// The files to copy out of a package, (number, file name), in the order the
/// cards reference them; a referenced file absent from the media map is
/// skipped.
pub open spec fn media_to_extract_spec(refs: Seq<Seq<char>>, media: Seq<(Seq<char>, Seq<char>)>) -> Seq<(Seq<char>, Seq<char>)>
    decreases refs.len(),
{
    if refs.len() == 0 {
        seq![]
    } else {
        media_to_extract_spec(refs.drop_last(), media) + match media_number_for(media, refs.last()) {
            Some(n) => seq![(n, refs.last())],
            None => seq![],
        }
    }
}

fn media_number_exec(media: &Vec<(String, String)>, name: &Vec<char>) -> (r: Option<String>)
    ensures
        crate::books::epub::opt_view(r) == media_number_for(media@.map_values(|p: (String, String)| (p.0@, p.1@)), name@),
{
    let ghost mv = media@.map_values(|p: (String, String)| (p.0@, p.1@));
    let mut i = media.len();
    proof {
        assert(mv.take(i as int) =~= mv);
    }
    while i > 0
        invariant
            i <= media@.len(),
            mv == media@.map_values(|p: (String, String)| (p.0@, p.1@)),
            media_number_for(mv, name@) == media_number_for(mv.take(i as int), name@),
        decreases i,
    {
        proof {
            assert(mv.take(i as int).drop_last() =~= mv.take(i - 1));
            assert(mv.take(i as int).last() == mv[i - 1]);
        }
        let n = chars_of(media[i - 1].1.as_str());
        if crate::text::seq_eq(&n, name) {
            return Some(crate::text::owned(media[i - 1].0.as_str()));
        }
        i -= 1;
    }
    None
}

/// The media files to copy out of a package, (number, file name), for the
/// files the cards reference, in that order.
pub fn media_to_extract(referenced: &Vec<String>, media: &Vec<(String, String)>) -> (r: Vec<(String, String)>)
    ensures
        r@.map_values(|p: (String, String)| (p.0@, p.1@)) == media_to_extract_spec(
            referenced.deep_view(),
            media@.map_values(|p: (String, String)| (p.0@, p.1@)),
        ),
{
    let ghost rv = referenced.deep_view();
    let ghost mv = media@.map_values(|p: (String, String)| (p.0@, p.1@));
    let mut out: Vec<(String, String)> = Vec::new();
    let mut i: usize = 0;
    proof {
        assert(out@.map_values(|p: (String, String)| (p.0@, p.1@)) =~= media_to_extract_spec(rv.take(0), mv));
    }
    while i < referenced.len()
        invariant
            i <= referenced@.len(),
            rv == referenced.deep_view(),
            mv == media@.map_values(|p: (String, String)| (p.0@, p.1@)),
            out@.map_values(|p: (String, String)| (p.0@, p.1@)) == media_to_extract_spec(rv.take(i as int), mv),
        decreases referenced@.len() - i,
    {
        proof {
            assert(rv.take(i + 1).drop_last() =~= rv.take(i as int));
            assert(rv.take(i + 1).last() == referenced@[i as int]@);
        }
        let name = chars_of(referenced[i].as_str());
        let ghost before = out@.map_values(|p: (String, String)| (p.0@, p.1@));
        match media_number_exec(media, &name) {
            Some(n) => {
                let p = (n, crate::text::owned(referenced[i].as_str()));
                let ghost pv = (p.0@, p.1@);
                out.push(p);
                proof {
                    assert(out@.map_values(|p: (String, String)| (p.0@, p.1@)) =~= before + seq![pv]);
                }
            },
            None => {
                proof {
                    assert(before + Seq::<(Seq<char>, Seq<char>)>::empty() =~= before);
                }
            },
        }
        i += 1;
    }
    proof {
        assert(rv.take(i as int) =~= rv);
    }
    out
}


// ---------------------------------------------------------------------------
// Which decks can be converted.
// ---------------------------------------------------------------------------

/// Whether an attribute's value can be read from a tag (`attr_lookup_ok`).
pub fn attr_lookup_ok_exec(tag: &str, attr: &str) -> (r: bool)
    ensures
        r == attr_lookup_ok(tag@, attr@),
{
    proof {
        reveal_strlit("=");
    }
    let lower_s = str_lowercase(tag);
    let lower = chars_of(lower_s.as_str());
    if crate::text::utf8_len_exceeds(&lower, usize::MAX) {
        return false;
    }
    let a = chars_of(attr);
    let mut key = chars_of(attr);
    key.push('=');
    proof {
        assert(key@ =~= attr@ + "="@);
    }
    match find_exec(&lower, &key) {
        None => true,
        Some(k) => {
            proof {
                lemma_find_from(lower@, key@, 0);
            }
            let prefix = slice(&lower, 0, k);
            proof {
                assert(prefix@ =~= lower@.take(k as int));
                assert(seq!['='].drop_last() =~= Seq::<char>::empty());
                assert(utf8_len(seq!['='].drop_last()) == 0);
                assert(utf8_len(seq!['=']) == 1);
                assert("="@ =~= seq!['=']);
                crate::text::lemma_utf8_len_add(a@, seq!['=']);
            }
            let pb = crate::text::utf8_len_wide(&prefix);
            let ab = crate::text::utf8_len_wide(&a);
            proof {
                crate::text::lemma_utf8_len_prefix_mono(lower@, k as int);
                crate::text::lemma_utf8_len_bounds(a@);
                assert(pb <= usize::MAX);
                assert(ab <= 4 * (usize::MAX as int));
            }
            let b: u128 = pb + ab + 1;
            let t = chars_of(tag);
            let tb = crate::text::utf8_len_wide(&t);
            b >= tb || crate::text::char_index_of_byte_wide(&t, b).is_some()
        },
    }
}

/// Whether every image tag's `src` can be read (`img_tags_ok`).
fn img_tags_ok_exec(s: &Vec<char>) -> (r: bool)
    ensures
        r == img_tags_ok(s@),
{
    proof {
        reveal_strlit("<img");
        reveal_strlit(">");
    }
    let open = chars_of("<img");
    let close = chars_of(">");
    let mut rest = slice(s, 0, s.len());
    proof {
        assert(rest@ =~= s@);
    }
    loop
        invariant
            open@ == "<img"@,
            close@ == ">"@,
            img_tags_ok(s@) == img_tags_ok(rest@),
        decreases rest@.len(),
    {
        proof {
            reveal_strlit("<img");
            reveal_strlit(">");
        }
        let st = match find_exec(&rest, &open) {
            Some(st) => st,
            None => return true,
        };
        proof {
            lemma_find_from(rest@, open@, 0);
        }
        let after = slice(&rest, st, rest.len());
        proof {
            assert(after@ =~= rest@.skip(st as int));
        }
        let e = match find_exec(&after, &close) {
            Some(e) => e,
            None => return true,
        };
        proof {
            lemma_find_from(after@, close@, 0);
            assert(crate::text::matches_at(after@, close@, e as int));
        }
        let tag = slice(&after, 0, e + 1);
        let tag_s = string_of(&tag);
        proof {
            assert(tag@ =~= after@.take(e + 1));
            reveal_strlit("src");
        }
        if !attr_lookup_ok_exec(tag_s.as_str(), "src") {
            return false;
        }
        let next = slice(&after, e + 1, after.len());
        proof {
            assert(next@ =~= after@.skip(e + 1));
        }
        rest = next;
    }
}

fn open_angles_exec(s: &Vec<char>) -> (r: u64)
    ensures
        r == open_angles(s@),
{
    let mut n: u64 = 0;
    let mut i: usize = 0;
    proof {
        assert(s@.take(0) =~= Seq::<char>::empty());
    }
    while i < s.len()
        invariant
            i <= s.len(),
            n == open_angles(s@.take(i as int)),
            n <= i,
        decreases s.len() - i,
    {
        proof {
            assert(s@.take(i + 1).drop_last() =~= s@.take(i as int));
        }
        if s[i] == '<' {
            n = n + 1;
        }
        i += 1;
    }
    proof {
        assert(s@.take(i as int) =~= s@);
    }
    n
}

/// Whether a field can be cleaned (`clean_field_ok`).
pub fn clean_field_ok_exec(raw: &Vec<char>, topic: &Vec<char>) -> (r: bool)
    ensures
        r == clean_field_ok(raw@, topic@),
{
    proof {
        reveal_strlit("<br>");
        reveal_strlit("<br/>");
        reveal_strlit("<br />");
    }
    let mut scratch: Vec<String> = Vec::new();
    let a = replace_sound_tags(raw, topic, &mut scratch);
    if !img_tags_ok_exec(&a) {
        return false;
    }
    let b = replace_img_tags(&a, topic, &mut scratch);
    let c1 = replace_str(&b, "<br>", " / ");
    let c2 = replace_str(&c1, "<br/>", " / ");
    let c3 = replace_str(&c2, "<br />", " / ");
    open_angles_exec(&c3) <= 0x7fff_ffffu64
}

/// Whether every note of a deck can be converted (`deck_ok`).
pub fn deck_ok_exec(deck: &str, notes: &[(String, String)]) -> (r: bool)
    ensures
        r == deck_ok(notes_view(notes@), slugify_spec(deck@)),
{
    let topic_s = slugify(deck);
    let topic = chars_of(topic_s.as_str());
    let ghost nv = notes_view(notes@);
    let mut i: usize = 0;
    while i < notes.len()
        invariant
            i <= notes.len(),
            nv == notes_view(notes@),
            topic@ == slugify_spec(deck@),
            forall|k: int| 0 <= k < i ==> #[trigger] note_ok(note_fields(nv[k].1), topic@),
        decreases notes.len() - i,
    {
        let flds = chars_of(notes[i].1.as_str());
        let fields = split_char_exec(&flds, '\u{1f}');
        proof {
            assert(nv[i as int].1 == flds@);
        }
        let mut j: usize = 0;
        while j < fields.len()
            invariant
                i < notes.len(),
                nv == notes_view(notes@),
                topic@ == slugify_spec(deck@),
                j <= fields.len(),
                fields.deep_view() == note_fields(nv[i as int].1),
                forall|m: int| 0 <= m < j ==> #[trigger] clean_field_ok(fields.deep_view()[m], topic@),
            decreases fields.len() - j,
        {
            proof {
                lemma_chars_deep(&fields@[j as int]);
                assert(fields.deep_view()[j as int] == fields@[j as int]@);
            }
            if !clean_field_ok_exec(&fields[j], &topic) {
                proof {
                    assert(!clean_field_ok(fields.deep_view()[j as int], topic@));
                    assert(!note_ok(note_fields(nv[i as int].1), topic@));
                    assert(!deck_ok(nv, topic@));
                }
                return false;
            }
            j += 1;
        }
        proof {
            assert(note_ok(note_fields(nv[i as int].1), topic@));
        }
        i += 1;
    }
    true
}

/// A deck's page, or `None` when some note cannot be converted (a field
/// whose image `src` cannot be read, or whose tags nest 2^31 deep or more;
/// see `deck_ok`).
pub fn build_anki_deck_checked(deck: &str, notes: &[(String, String)], sort_fields: &[(String, usize)]) -> (r: Option<AnkiDeck>)
    ensures
        r is None <==> !deck_ok(notes_view(notes@), slugify_spec(deck@)),
        r matches Some(d) ==> {
            &&& d.topic@ == slugify_spec(deck@)
            &&& d.lines@.map_values(|l: String| l@) == deck_lines(notes_view(notes@), sort_fields_view(sort_fields@), d.topic@)
            &&& refs_view(d.referenced) == add_files(seq![], deck_files(notes_view(notes@), sort_fields_view(sort_fields@), d.topic@))
            &&& d.note_count == notes@.len()
            &&& d.card_count == card_count_spec(d.lines@.map_values(|l: String| l@))
            &&& d.content@ == deck_page_spec(deck@, d.topic@, d.lines@.map_values(|l: String| l@))
        },
{
    if deck_ok_exec(deck, notes) {
        Some(build_anki_deck(deck, notes, sort_fields))
    } else {
        None
    }
}


// ---------------------------------------------------------------------------
// The shape of topic tags.
// ---------------------------------------------------------------------------

/// A character a topic tag may hold: a lower-case ASCII letter, a digit or
/// `-`.
pub open spec fn slug_char(c: char) -> bool {
    ('a' <= c && c <= 'z') || ('0' <= c && c <= '9') || c == '-'
}

/// A well-formed topic tag: non-empty, only tag characters, no `-` at either
/// end and never two `-` in a row.
pub open spec fn is_slug(t: Seq<char>) -> bool {
    &&& t.len() > 0
    &&& forall|i: int| 0 <= i < t.len() ==> slug_char(#[trigger] t[i])
    &&& t[0] != '-'
    &&& t.last() != '-'
    &&& forall|i: int| 0 <= i < t.len() - 1 ==> !(#[trigger] t[i] == '-' && t[i + 1] == '-')
}

proof fn lemma_slug_scan_shape(s: Seq<char>)
    ensures
        forall|i: int| 0 <= i < slug_scan(s).0.len() ==> slug_char(#[trigger] slug_scan(s).0[i]),
        slug_scan(s).0.len() > 0 ==> slug_scan(s).0[0] != '-',
        slug_scan(s).1 <==> (slug_scan(s).0.len() > 0 && slug_scan(s).0.last() == '-'),
        forall|i: int| 0 <= i < slug_scan(s).0.len() - 1 ==> !(#[trigger] slug_scan(s).0[i] == '-' && slug_scan(s).0[i + 1] == '-'),
        (forall|k: int| 0 <= k < s.len() ==> !is_ascii_alnum(#[trigger] s[k])) ==> slug_scan(s).0.len() == 0,
    decreases s.len(),
{
    if s.len() > 0 {
        let p = s.drop_last();
        lemma_slug_scan_shape(p);
        if forall|k: int| 0 <= k < s.len() ==> !is_ascii_alnum(#[trigger] s[k]) {
            assert forall|k: int| 0 <= k < p.len() implies !is_ascii_alnum(#[trigger] p[k]) by {
                assert(p[k] == s[k]);
            }
            assert(!is_ascii_alnum(s[s.len() - 1]));
        }
        let (out, dash) = slug_scan(p);
        let c = s.last();
        if is_ascii_alnum(c) {
            assert(slug_char(ascii_lower(c)));
        }
    }
}

/// A well-formed tag scans to itself.
proof fn lemma_slug_scan_fixed(t: Seq<char>)
    requires
        forall|i: int| 0 <= i < t.len() ==> slug_char(#[trigger] t[i]),
        t.len() > 0 ==> t[0] != '-',
        forall|i: int| 0 <= i < t.len() - 1 ==> !(#[trigger] t[i] == '-' && t[i + 1] == '-'),
    ensures
        slug_scan(t) == (t, t.len() > 0 && t.last() == '-'),
    decreases t.len(),
{
    if t.len() > 0 {
        let p = t.drop_last();
        assert forall|i: int| 0 <= i < p.len() implies slug_char(#[trigger] p[i]) by {
            assert(p[i] == t[i]);
        }
        assert forall|i: int| 0 <= i < p.len() - 1 implies !(#[trigger] p[i] == '-' && p[i + 1] == '-') by {
            assert(p[i] == t[i] && p[i + 1] == t[i + 1]);
        }
        lemma_slug_scan_fixed(p);
        let c = t.last();
        if c == '-' {
            assert(t.len() >= 2);
            assert(p.last() == t[t.len() - 2]);
            assert(!(t[t.len() - 2] == '-' && t[t.len() - 1] == '-'));
        } else {
            assert(is_ascii_alnum(c));
            assert(ascii_lower(c) == c);
        }
        assert(p.push(c) =~= t);
    }
}

/// Dropping `-` from the ends of a scanned tag drops at most its last
/// character.
proof fn lemma_slug_trim(out: Seq<char>)
    requires
        out.len() > 0 ==> out[0] != '-',
        forall|i: int| 0 <= i < out.len() - 1 ==> !(#[trigger] out[i] == '-' && out[i + 1] == '-'),
    ensures
        trim_set(out, seq!['-']) == if out.len() > 0 && out.last() == '-' {
            out.drop_last()
        } else {
            out
        },
{
    lemma_dash_set();
    assert(trim_start_set(out, seq!['-']) == out);
    if out.len() > 0 && out.last() == '-' {
        let d = out.drop_last();
        if d.len() > 0 {
            assert(d.last() == out[out.len() - 2]);
            assert(!(out[out.len() - 2] == '-' && out[out.len() - 1] == '-'));
        }
        assert(trim_end_set(d, seq!['-']) == d);
        assert(trim_end_set(out, seq!['-']) == trim_end_set(d, seq!['-']));
    }
}

proof fn lemma_dash_set()
    ensures
        forall|c: char| #[trigger] seq!['-'].contains(c) <==> c == '-',
{
    assert forall|c: char| #[trigger] seq!['-'].contains(c) <==> c == '-' by {
        if c == '-' {
            assert(seq!['-'][0] == c);
        }
    }
}

/// A topic tag is well formed and stays the same when slugified again; a
/// name without ASCII letters or digits gives `anki`.
pub proof fn lemma_slugify_shape(s: Seq<char>)
    ensures
        is_slug(slugify_spec(s)),
        slugify_spec(slugify_spec(s)) == slugify_spec(s),
        (forall|k: int| 0 <= k < s.len() ==> !is_ascii_alnum(#[trigger] s[k])) ==> slugify_spec(s) == "anki"@,
{
    reveal_strlit("anki");
    lemma_dash_set();
    lemma_slug_scan_shape(s);
    let out = slug_scan(s).0;
    lemma_slug_trim(out);
    let t = trim_set(out, seq!['-']);
    let r = slugify_spec(s);
    if t.len() == 0 {
        assert(r == "anki"@);
        assert("anki"@ =~= seq!['a', 'n', 'k', 'i']);
    } else {
        assert(r == t);
        assert forall|i: int| 0 <= i < t.len() implies slug_char(#[trigger] t[i]) by {
            assert(t[i] == out[i]);
        }
        assert forall|i: int| 0 <= i < t.len() - 1 implies !(#[trigger] t[i] == '-' && t[i + 1] == '-') by {
            assert(t[i] == out[i] && t[i + 1] == out[i + 1]);
        }
        assert(t[0] == out[0]);
        if out.last() == '-' {
            assert(t.last() == out[out.len() - 2]);
            assert(!(out[out.len() - 2] == '-' && out[out.len() - 1] == '-'));
        }
    }
    assert(is_slug(r));
    lemma_slug_scan_fixed(r);
    lemma_slug_trim(r);
}

} // verus!
