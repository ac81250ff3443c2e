//! Text clean-up shared by every book format: white-space normalisation,
//! entity decoding, Markdown escaping, and safe file and folder names.
use vstd::prelude::*;
use crate::patterns::{replace_all, spec_replace_all};
use crate::text::{
    chars_of, contains, contains_str, join, join_exec, lines, lines_exec, push_all, push_str,
    replace, replace_exec, slice, starts_with, starts_with_str, string_of, trim, trim_chars,
    trim_end, trim_end_chars, trim_start, trim_start_chars, trim_set, trim_set_chars, is_ws,
    is_whitespace, is_control, is_control_char, lemma_chars_deep, lemma_push_deep,
};
use crate::unicode::{spec_str_lowercase, str_lowercase};

verus! {

/// Runs of white space (`\s+`).
pub open spec fn ws_re() -> Seq<char> {
    "\\s+"@
}

/// White space before punctuation (`\s+([,.;:!?])`).
pub open spec fn space_punct_re() -> Seq<char> {
    "\\s+([,.;:!?])"@
}

/// A blank line (`\n\s*\n+`).
pub open spec fn blank_line_re() -> Seq<char> {
    "\\n\\s*\\n+"@
}

/// Any tag (`(?is)<[^>]+>`).
pub open spec fn tag_re() -> Seq<char> {
    "(?is)<[^>]+>"@
}

/// One line of text: white-space runs collapsed to one space, no space
/// before `,.;:!?`, trimmed.
pub open spec fn clean_block_spec(s: Seq<char>) -> Seq<char> {
    let collapsed = trim(spec_replace_all(ws_re(), trim(s), " "@));
    trim(spec_replace_all(space_punct_re(), collapsed, "$1"@))
}

/// The characters of `s` replaced by `pattern` → `rep` through the regex
/// engine, trimmed.
fn regex_replace_trim(pattern: &str, s: &Vec<char>, rep: &str) -> (r: Vec<char>)
    ensures
        r@ == trim(spec_replace_all(pattern@, s@, rep@)),
{
    let text = string_of(s);
    let replaced = replace_all(pattern, text.as_str(), rep);
    let v = chars_of(replaced.as_str());
    trim_chars(&v)
}

pub fn clean_block_chars(input: &Vec<char>) -> (r: Vec<char>)
    ensures
        r@ == clean_block_spec(input@),
{
    let t = trim_chars(input);
    let collapsed = regex_replace_trim("\\s+", &t, " ");
    regex_replace_trim("\\s+([,.;:!?])", &collapsed, "$1")
}

/// Collapse white space and tidy punctuation spacing.
pub fn clean_block(input: &str) -> (r: String)
    ensures
        r@ == clean_block_spec(input@),
{
    let v = chars_of(input);
    let c = clean_block_chars(&v);
    string_of(&c)
}

/// A block as it is kept: one-line blocks are cleaned; multi-line blocks are
/// trimmed and lose trailing white space on each line.
pub open spec fn clean_import_block_spec(s: Seq<char>) -> Seq<char> {
    if !contains(s, "\n"@) {
        clean_block_spec(s)
    } else {
        join(lines(trim(s)).map_values(|l: Seq<char>| trim_end(l)), "\n"@)
    }
}

pub fn clean_import_block_chars(input: &Vec<char>) -> (r: Vec<char>)
    ensures
        r@ == clean_import_block_spec(input@),
{
    if !contains_str(input, "\n") {
        return clean_block_chars(input);
    }
    let t = trim_chars(input);
    let ls = lines_exec(&t);
    let mut trimmed: Vec<Vec<char>> = Vec::new();
    let mut i: usize = 0;
    while i < ls.len()
        invariant
            i <= ls.len(),
            trimmed.deep_view() == ls.deep_view().take(i as int).map_values(|l: Seq<char>| trim_end(l)),
        decreases ls.len() - i,
    {
        let ghost before = trimmed.deep_view();
        let l = trim_end_chars(&ls[i]);
        let ghost lv = l@;
        trimmed.push(l);
        proof {
            lemma_chars_deep(&ls@[i as int]);
            lemma_push_deep(before, &trimmed, lv);
            assert(ls.deep_view().take(i + 1) =~= ls.deep_view().take(i as int).push(ls.deep_view()[i as int]));
            assert(trimmed.deep_view() =~= ls.deep_view().take(i + 1).map_values(|l: Seq<char>| trim_end(l)));
        }
        i += 1;
    }
    proof {
        assert(ls.deep_view().take(i as int) =~= ls.deep_view());
    }
    let nl = chars_of("\n");
    join_exec(&trimmed, &nl)
}

pub fn clean_import_block(input: &str) -> (r: String)
    ensures
        r@ == clean_import_block_spec(input@),
{
    let v = chars_of(input);
    let c = clean_import_block_chars(&v);
    string_of(&c)
}

/// A cleaned title; an empty one becomes `Imported Book`.
pub open spec fn clean_title_spec(s: Seq<char>) -> Seq<char> {
    if clean_block_spec(s).len() == 0 {
        "Imported Book"@
    } else {
        clean_block_spec(s)
    }
}

pub fn clean_title_chars(input: &Vec<char>) -> (r: Vec<char>)
    ensures
        r@ == clean_title_spec(input@),
        r@.len() > 0,
{
    proof {
        reveal_strlit("Imported Book");
    }
    let c = clean_block_chars(input);
    if c.len() == 0 {
        chars_of("Imported Book")
    } else {
        c
    }
}

pub fn clean_title(input: &str) -> (r: String)
    ensures
        r@ == clean_title_spec(input@),
        r@.len() > 0,
{
    let v = chars_of(input);
    let c = clean_title_chars(&v);
    string_of(&c)
}

/// Replace a literal (non-empty) pattern.
pub fn replace_str(s: &Vec<char>, from: &str, to: &str) -> (r: Vec<char>)
    requires
        from@.len() > 0,
    ensures
        r@ == replace(s@, from@, to@),
{
    let f = chars_of(from);
    let t = chars_of(to);
    replace_exec(s, &f, &t)
}

/// Backslash-escape `\`, `[` and `]` for link text.
pub open spec fn escape_link_text_spec(s: Seq<char>) -> Seq<char> {
    replace(replace(replace(s, "\\"@, "\\\\"@), "["@, "\\["@), "]"@, "\\]"@)
}

pub fn escape_markdown_link_text(input: &Vec<char>) -> (r: Vec<char>)
    ensures
        r@ == escape_link_text_spec(input@),
{
    proof {
        reveal_strlit("\\");
        reveal_strlit("[");
        reveal_strlit("]");
    }
    let a = replace_str(input, "\\", "\\\\");
    let b = replace_str(&a, "[", "\\[");
    replace_str(&b, "]", "\\]")
}

/// Backslash-escape `\` and `]` for image alt text.
pub open spec fn escape_image_alt_spec(s: Seq<char>) -> Seq<char> {
    replace(replace(s, "\\"@, "\\\\"@), "]"@, "\\]"@)
}

pub fn escape_markdown_image_alt(input: &Vec<char>) -> (r: Vec<char>)
    ensures
        r@ == escape_image_alt_spec(input@),
{
    proof {
        reveal_strlit("\\");
        reveal_strlit("]");
    }
    let a = replace_str(input, "\\", "\\\\");
    replace_str(&a, "]", "\\]")
}

/// Backslash-escape `\` and `|` for a table cell.
pub open spec fn escape_table_cell_spec(s: Seq<char>) -> Seq<char> {
    replace(replace(s, "\\"@, "\\\\"@), "|"@, "\\|"@)
}

pub fn escape_markdown_table_cell(input: &Vec<char>) -> (r: Vec<char>)
    ensures
        r@ == escape_table_cell_spec(input@),
{
    proof {
        reveal_strlit("\\");
        reveal_strlit("|");
    }
    let a = replace_str(input, "\\", "\\\\");
    replace_str(&a, "|", "\\|")
}

/// Trimmed link destination with spaces and `)` percent-encoded.
pub open spec fn escape_destination_spec(s: Seq<char>) -> Seq<char> {
    replace(replace(trim(s), " "@, "%20"@), ")"@, "%29"@)
}

pub fn escape_markdown_link_destination(input: &Vec<char>) -> (r: Vec<char>)
    ensures
        r@ == escape_destination_spec(input@),
{
    proof {
        reveal_strlit(" ");
        reveal_strlit(")");
    }
    let t = trim_chars(input);
    let a = replace_str(&t, " ", "%20");
    replace_str(&a, ")", "%29")
}

/// Escape `&`, `<` and `>` as HTML entities.
pub open spec fn escape_html_text_spec(s: Seq<char>) -> Seq<char> {
    replace(replace(replace(s, "&"@, "&amp;"@), "<"@, "&lt;"@), ">"@, "&gt;"@)
}

pub fn escape_markdown_html_text(input: &Vec<char>) -> (r: Vec<char>)
    ensures
        r@ == escape_html_text_spec(input@),
{
    proof {
        reveal_strlit("&");
        reveal_strlit("<");
        reveal_strlit(">");
    }
    let a = replace_str(input, "&", "&amp;");
    let b = replace_str(&a, "<", "&lt;");
    replace_str(&b, ">", "&gt;")
}

/// `[label](destination)` with both parts escaped.
pub open spec fn markdown_link_spec(label: Seq<char>, destination: Seq<char>) -> Seq<char> {
    "["@ + escape_link_text_spec(label) + "]("@ + escape_destination_spec(destination) + ")"@
}

pub fn markdown_link(label: &Vec<char>, destination: &Vec<char>) -> (r: Vec<char>)
    ensures
        r@ == markdown_link_spec(label@, destination@),
{
    let mut out = chars_of("[");
    let l = escape_markdown_link_text(label);
    push_all(&mut out, &l);
    push_str(&mut out, "](");
    let d = escape_markdown_link_destination(destination);
    push_all(&mut out, &d);
    push_str(&mut out, ")");
    out
}

/// `[title](#anchor)` with the title escaped.
pub open spec fn fragment_link_spec(title: Seq<char>, anchor: Seq<char>) -> Seq<char> {
    "["@ + escape_link_text_spec(title) + "](#"@ + anchor + ")"@
}

pub fn markdown_fragment_link(title: &str, anchor: &str) -> (r: String)
    ensures
        r@ == fragment_link_spec(title@, anchor@),
{
    let t = chars_of(title);
    let a = chars_of(anchor);
    let v = fragment_link_chars(&t, &a);
    string_of(&v)
}

pub fn fragment_link_chars(title: &Vec<char>, anchor: &Vec<char>) -> (r: Vec<char>)
    ensures
        r@ == fragment_link_spec(title@, anchor@),
{
    let mut out = chars_of("[");
    let l = escape_markdown_link_text(title);
    push_all(&mut out, &l);
    push_str(&mut out, "](#");
    push_all(&mut out, anchor);
    push_str(&mut out, ")");
    out
}

/// Whether a link points outside the book (`http`, `https`, `mailto`,
/// `tel`), judged on the trimmed, lower-cased destination.
pub open spec fn is_external_href_spec(href: Seq<char>) -> bool {
    let h = spec_str_lowercase(trim(href));
    starts_with(h, "http://"@) || starts_with(h, "https://"@) || starts_with(h, "mailto:"@)
        || starts_with(h, "tel:"@)
}

pub fn is_external_href(href: &Vec<char>) -> (r: bool)
    ensures
        r == is_external_href_spec(href@),
{
    let t = trim_chars(href);
    let ts = string_of(&t);
    let lowered = str_lowercase(ts.as_str());
    let h = chars_of(lowered.as_str());
    starts_with_str(&h, "http://") || starts_with_str(&h, "https://") || starts_with_str(
        &h,
        "mailto:",
    ) || starts_with_str(&h, "tel:")
}

/// An external link becomes a Markdown link; anything else is dropped.
pub open spec fn rewrite_html_link_spec(href: Seq<char>, label: Seq<char>) -> Option<Seq<char>> {
    if is_external_href_spec(href) {
        Some(markdown_link_spec(label, href))
    } else {
        None
    }
}

pub fn rewrite_html_link(href: &str, label: &str) -> (r: Option<String>)
    ensures
        match r {
            Some(v) => rewrite_html_link_spec(href@, label@) == Some(v@),
            None => rewrite_html_link_spec(href@, label@) is None,
        },
{
    let h = chars_of(href);
    let l = chars_of(label);
    if is_external_href(&h) {
        let v = markdown_link(&l, &h);
        Some(string_of(&v))
    } else {
        None
    }
}

/// A line starting (after indentation) with `id::` is escaped with a
/// backslash so it is not read as a block property.
pub open spec fn escape_special_start_spec(text: Seq<char>) -> Seq<char> {
    if starts_with(trim_start(text), "id::"@) {
        "\\"@ + text
    } else {
        text
    }
}

pub fn escape_special_block_start(text: &Vec<char>) -> (r: Vec<char>)
    ensures
        r@ == escape_special_start_spec(text@),
{
    let t = trim_start_chars(text);
    if starts_with_str(&t, "id::") {
        let mut out = chars_of("\\");
        push_all(&mut out, text);
        out
    } else {
        slice(text, 0, text.len())
    }
}

/// The first `max` characters.
pub open spec fn truncate_chars_spec(s: Seq<char>, max: nat) -> Seq<char> {
    if s.len() <= max {
        s
    } else {
        s.take(max as int)
    }
}

pub fn truncate_chars(s: &Vec<char>, max: usize) -> (r: Vec<char>)
    ensures
        r@ == truncate_chars_spec(s@, max as nat),
{
    if s.len() <= max {
        slice(s, 0, s.len())
    } else {
        let r = slice(s, 0, max);
        proof {
            assert(r@ =~= s@.take(max as int));
        }
        r
    }
}

/// A character replaced by a space in a folder name.
pub open spec fn unsafe_path_char(c: char) -> bool {
    c == '/' || c == '\\' || c == ':' || c == '*' || c == '?' || c == '"' || c == '<' || c == '>'
        || c == '|' || c == '\0' || is_control(c)
}

/// Scan of a folder name: unsafe characters become spaces, white-space runs
/// become one space.
pub open spec fn path_segment_scan(s: Seq<char>) -> (Seq<char>, bool)
    decreases s.len(),
{
    if s.len() == 0 {
        (seq![], false)
    } else {
        let (out, last_space) = path_segment_scan(s.drop_last());
        let c = s.last();
        let safe = if unsafe_path_char(c) {
            ' '
        } else {
            c
        };
        if is_ws(safe) {
            if !last_space {
                (out.push(' '), true)
            } else {
                (out, true)
            }
        } else {
            (out.push(safe), false)
        }
    }
}

/// A safe folder name: at most 96 characters, no leading or trailing dots or
/// spaces; empty becomes `Imported Book`.
pub open spec fn sanitize_path_segment_spec(s: Seq<char>) -> Seq<char> {
    let first = trim_set(trim(path_segment_scan(s).0), seq!['.']);
    let second = trim_set(trim(truncate_chars_spec(first, 96)), seq!['.']);
    if second.len() == 0 {
        "Imported Book"@
    } else {
        second
    }
}

pub fn sanitize_path_segment(input: &str) -> (r: String)
    ensures
        r@ == sanitize_path_segment_spec(input@),
        r@.len() > 0,
{
    proof {
        reveal_strlit("Imported Book");
    }
    let s = chars_of(input);
    let mut out: Vec<char> = Vec::new();
    let mut last_was_space = false;
    let mut i: usize = 0;
    while i < s.len()
        invariant
            i <= s.len(),
            (out@, last_was_space) == path_segment_scan(s@.take(i as int)),
        decreases s.len() - i,
    {
        let c = s[i];
        proof {
            assert(s@.take(i + 1).drop_last() =~= s@.take(i as int));
            assert(s@.take(i + 1).last() == c);
        }
        let safe = if c == '/' || c == '\\' || c == ':' || c == '*' || c == '?' || c == '"' || c
            == '<' || c == '>' || c == '|' || c == '\0' || is_control_char(c) {
            ' '
        } else {
            c
        };
        if is_whitespace(safe) {
            if !last_was_space {
                out.push(' ');
                last_was_space = true;
            }
        } else {
            out.push(safe);
            last_was_space = false;
        }
        i += 1;
    }
    proof {
        assert(s@.take(i as int) =~= s@);
    }
    let mut dot: Vec<char> = Vec::new();
    dot.push('.');
    proof {
        assert(dot@ =~= seq!['.']);
    }
    let t1 = trim_chars(&out);
    let first = trim_set_chars(&t1, &dot);
    let cut = truncate_chars(&first, 96);
    let t2 = trim_chars(&cut);
    let second = trim_set_chars(&t2, &dot);
    if second.len() == 0 {
        owned_str("Imported Book")
    } else {
        string_of(&second)
    }
}

fn owned_str(s: &str) -> (r: String)
    ensures
        r@ == s@,
{
    crate::text::owned(s)
}

/// The part of an href before any `#` or `?`, trimmed.
pub open spec fn strip_href_suffix_spec(href: Seq<char>) -> Seq<char>
    decreases href.len(),
{
    trim(href_prefix(href))
}

/// Characters before the first `#` or `?`.
pub open spec fn href_prefix(href: Seq<char>) -> Seq<char>
    decreases href.len(),
{
    if href.len() == 0 {
        href
    } else if href[0] == '#' || href[0] == '?' {
        seq![]
    } else {
        seq![href[0]] + href_prefix(href.drop_first())
    }
}

pub fn strip_href_suffix(href: &Vec<char>) -> (r: Vec<char>)
    ensures
        r@ == strip_href_suffix_spec(href@),
{
    let mut i: usize = 0;
    proof {
        assert(href@.skip(0) =~= href@);
        assert(href@.take(0) + href_prefix(href@) =~= href_prefix(href@));
    }
    while i < href.len() && href[i] != '#' && href[i] != '?'
        invariant
            i <= href.len(),
            href@.take(i as int) + href_prefix(href@.skip(i as int)) == href_prefix(href@),
        decreases href.len() - i,
    {
        proof {
            let rest = href@.skip(i as int);
            assert(rest.drop_first() =~= href@.skip(i + 1));
            assert(href@.take(i + 1) =~= href@.take(i as int) + seq![rest[0]]);
        }
        i += 1;
    }
    let head = slice(href, 0, i);
    proof {
        assert(head@ =~= href@.take(i as int));
        assert(href_prefix(href@.skip(i as int)) =~= Seq::<char>::empty());
        assert(head@ + Seq::<char>::empty() =~= head@);
    }
    trim_chars(&head)
}

} // verus!
