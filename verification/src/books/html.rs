//! HTML to Markdown: the document tree, read as the sequence of its
//! opening and closing edges, rendered to Markdown blocks.
//!
//! The caller resolves images and links (copying an asset, rewriting a link
//! into the book); the renderer asks for each in turn and is given the
//! answers in the order it asked (see `render_html_markdown`).
use vstd::prelude::*;
use crate::books::clean::{rewrite_html_link_spec, blank_line_re, clean_block_chars, clean_block_spec, escape_html_text_spec,
    escape_image_alt_spec, escape_markdown_html_text, escape_markdown_image_alt,
    escape_markdown_table_cell, escape_table_cell_spec, replace_str, space_punct_re, ws_re};
use crate::books::epub::{decode_entities, decode_entities_spec};
use crate::books::epub_toc::{chapter_heading_re, toc_entry_re};
use crate::books::pdf_text::{count_alpha, count_alpha_upper};
use crate::numbers::{decimal, decimal_exec};
use crate::patterns::{is_match, replace_all, spec_is_match, spec_replace_all};
use crate::text::{chars_of, contains, contains_str, ends_with, ends_with_str, eq_ignore_case, eq_str,
    is_ws, is_whitespace, join, join_exec, lines, lines_exec, push_all, push_str, replace, slice,
    starts_with, starts_with_str, string_of, trim, trim_chars, trim_end, trim_end_chars, trim_set,
    trim_set_chars, words, words_exec};
use crate::unicode::{spec_str_lowercase, str_lowercase};

verus! {

// ---------------------------------------------------------------------------
// The document as edges.
// ---------------------------------------------------------------------------

/// What an edge of the document tree opens or closes.
pub enum HtmlKind {
    Close,
    Element,
    Text,
    Other,
}

/// One edge of the document tree in document order. An opening edge of an
/// element carries its name and the attributes the renderer reads (`href`,
/// `src`, `xlink:href`, `alt`, `class`, `style`, in that order); one of a
/// text node carries the text.
pub struct HtmlEvent {
    pub kind: HtmlKind,
    pub text: Vec<char>,
    pub attrs: Vec<Option<Vec<char>>>,
}

/// An edge as plain values: kind (0 close, 1 element, 2 text, 3 other),
/// name or text, attributes.
pub type EvView = (u8, Seq<char>, Seq<Option<Seq<char>>>);

pub open spec fn kind_code(k: HtmlKind) -> u8 {
    match k {
        HtmlKind::Close => 0,
        HtmlKind::Element => 1,
        HtmlKind::Text => 2,
        HtmlKind::Other => 3,
    }
}

pub open spec fn opt_chars(o: Option<Vec<char>>) -> Option<Seq<char>> {
    match o {
        Some(v) => Some(v@),
        None => None,
    }
}

pub open spec fn opt_str(o: Option<&str>) -> Option<Seq<char>> {
    match o {
        Some(v) => Some(v@),
        None => None,
    }
}

pub open spec fn ev_view(e: HtmlEvent) -> EvView {
    (kind_code(e.kind), e.text@, e.attrs@.map_values(|a: Option<Vec<char>>| opt_chars(a)))
}

pub open spec fn evv(ev: Seq<HtmlEvent>) -> Seq<EvView> {
    ev.map_values(|e: HtmlEvent| ev_view(e))
}

/// The kind code of edge `i` (0 past the end).
pub open spec fn kind_at(ev: Seq<EvView>, i: int) -> u8 {
    if 0 <= i < ev.len() {
        ev[i].0
    } else {
        0
    }
}

/// The name or text of edge `i`.
pub open spec fn text_at(ev: Seq<EvView>, i: int) -> Seq<char> {
    if 0 <= i < ev.len() {
        ev[i].1
    } else {
        Seq::empty()
    }
}

/// Attribute `a` of the element opened at `i`.
pub open spec fn attr_at(ev: Seq<EvView>, i: int, a: int) -> Option<Seq<char>> {
    if 0 <= i < ev.len() && 0 <= a < ev[i].2.len() {
        ev[i].2[a]
    } else {
        None
    }
}

pub open spec fn is_elem(ev: Seq<EvView>, i: int) -> bool {
    kind_at(ev, i) == 1
}

fn kind_exec(ev: &Vec<HtmlEvent>, i: usize) -> (r: u8)
    ensures
        r == kind_at(evv(ev@), i as int),
{
    if i < ev.len() {
        match ev[i].kind {
            HtmlKind::Close => 0,
            HtmlKind::Element => 1,
            HtmlKind::Text => 2,
            HtmlKind::Other => 3,
        }
    } else {
        0
    }
}

fn text_exec(ev: &Vec<HtmlEvent>, i: usize) -> (r: Vec<char>)
    ensures
        r@ == text_at(evv(ev@), i as int),
{
    if i < ev.len() {
        ev[i].text.clone()
    } else {
        Vec::new()
    }
}

fn attr_exec(ev: &Vec<HtmlEvent>, i: usize, a: usize) -> (r: Option<Vec<char>>)
    ensures
        opt_chars(r) == attr_at(evv(ev@), i as int, a as int),
{
    if i < ev.len() && a < ev[i].attrs.len() {
        match &ev[i].attrs[a] {
            Some(v) => Some(v.clone()),
            None => None,
        }
    } else {
        None
    }
}

/// Where the node opened at `i` ends: just past its closing edge (or the
/// end of the edges).
pub open spec fn skip(ev: Seq<EvView>, i: int) -> int
    decreases ev.len() - i, 0int,
{
    if i < 0 || i >= ev.len() {
        ev.len() as int
    } else if ev[i].0 == 0 {
        i + 1
    } else {
        let e = skip_children(ev, i + 1);
        if e < ev.len() {
            e + 1
        } else {
            ev.len() as int
        }
    }
}

/// Where the children starting at `j` end: at the first closing edge met
/// between them (or the end).
pub open spec fn skip_children(ev: Seq<EvView>, j: int) -> int
    decreases ev.len() - j, 1int,
{
    if j < 0 || j >= ev.len() {
        ev.len() as int
    } else if ev[j].0 == 0 {
        j
    } else {
        let n = skip(ev, j);
        if n <= j || n > ev.len() {
            ev.len() as int
        } else {
            skip_children(ev, n)
        }
    }
}

fn skip_exec(ev: &Vec<HtmlEvent>, i: usize) -> (r: usize)
    ensures
        r == skip(evv(ev@), i as int),
    decreases ev.len() - i, 0int,
{
    if i >= ev.len() {
        return ev.len();
    }
    if kind_exec(ev, i) == 0 {
        return i + 1;
    }
    let e = skip_children_exec(ev, i + 1);
    if e < ev.len() {
        e + 1
    } else {
        ev.len()
    }
}

fn skip_children_exec(ev: &Vec<HtmlEvent>, j: usize) -> (r: usize)
    ensures
        r == skip_children(evv(ev@), j as int),
    decreases ev.len() - j, 1int,
{
    if j >= ev.len() {
        return ev.len();
    }
    if kind_exec(ev, j) == 0 {
        return j;
    }
    let n = skip_exec(ev, j);
    if n <= j || n > ev.len() {
        ev.len()
    } else {
        skip_children_exec(ev, n)
    }
}

/// Whether a child list continues at `j`.
pub open spec fn has_child_at(ev: Seq<EvView>, j: int) -> bool {
    0 <= j < ev.len() && ev[j].0 != 0
}

fn has_child_at_exec(ev: &Vec<HtmlEvent>, j: usize) -> (r: bool)
    ensures
        r == has_child_at(evv(ev@), j as int),
{
    j < ev.len() && kind_exec(ev, j) != 0
}

/// The texts of the node opened at `i` and everything inside it, joined
/// (`ElementRef::text`).
pub open spec fn node_text(ev: Seq<EvView>, i: int) -> Seq<char>
    decreases ev.len() - i, 0int,
{
    if i < 0 || i >= ev.len() {
        Seq::empty()
    } else if ev[i].0 == 2 {
        ev[i].1 + children_text(ev, i + 1)
    } else if ev[i].0 == 0 {
        Seq::empty()
    } else {
        children_text(ev, i + 1)
    }
}

pub open spec fn children_text(ev: Seq<EvView>, j: int) -> Seq<char>
    decreases ev.len() - j, 1int,
{
    if !has_child_at(ev, j) {
        Seq::empty()
    } else {
        let n = skip(ev, j);
        if n <= j {
            node_text(ev, j)
        } else {
            node_text(ev, j) + children_text(ev, n)
        }
    }
}

fn node_text_exec(ev: &Vec<HtmlEvent>, i: usize) -> (r: Vec<char>)
    ensures
        r@ == node_text(evv(ev@), i as int),
    decreases ev.len() - i, 0int,
{
    if i >= ev.len() {
        return Vec::new();
    }
    let k = kind_exec(ev, i);
    if k == 2 {
        let mut out = text_exec(ev, i);
        let rest = children_text_exec(ev, i + 1);
        push_all(&mut out, &rest);
        out
    } else if k == 0 {
        Vec::new()
    } else {
        children_text_exec(ev, i + 1)
    }
}

fn children_text_exec(ev: &Vec<HtmlEvent>, j: usize) -> (r: Vec<char>)
    ensures
        r@ == children_text(evv(ev@), j as int),
    decreases ev.len() - j, 1int,
{
    if !has_child_at_exec(ev, j) {
        return Vec::new();
    }
    let n = skip_exec(ev, j);
    let mut out = node_text_exec(ev, j);
    if n <= j {
        return out;
    }
    let rest = children_text_exec(ev, n);
    push_all(&mut out, &rest);
    out
}

// ---------------------------------------------------------------------------
// Element names.
// ---------------------------------------------------------------------------

/// Elements whose content is never rendered.
pub open spec fn is_ignored_name(n: Seq<char>) -> bool {
    n == "head"@ || n == "script"@ || n == "style"@ || n == "meta"@ || n == "link"@ || n == "title"@
        || n == "noscript"@ || n == "template"@ || n == "object"@ || n == "iframe"@
}

pub fn is_ignored_html_element(name: &Vec<char>) -> (r: bool)
    ensures
        r == is_ignored_name(name@),
{
    eq_str(name, "head") || eq_str(name, "script") || eq_str(name, "style") || eq_str(name, "meta")
        || eq_str(name, "link") || eq_str(name, "title") || eq_str(name, "noscript") || eq_str(
        name,
        "template",
    ) || eq_str(name, "object") || eq_str(name, "iframe")
}

/// Block-level elements.
pub open spec fn is_block_name(n: Seq<char>) -> bool {
    n == "address"@ || n == "article"@ || n == "aside"@ || n == "blockquote"@ || n == "body"@ || n
        == "center"@ || n == "dd"@ || n == "details"@ || n == "div"@ || n == "dl"@ || n == "dt"@ || n
        == "figcaption"@ || n == "figure"@ || n == "footer"@ || n == "form"@ || n == "h1"@ || n
        == "h2"@ || n == "h3"@ || n == "h4"@ || n == "h5"@ || n == "h6"@ || n == "header"@ || n
        == "hr"@ || n == "li"@ || n == "main"@ || n == "nav"@ || n == "ol"@ || n == "p"@ || n
        == "pre"@ || n == "section"@ || n == "table"@ || n == "tbody"@ || n == "td"@ || n
        == "tfoot"@ || n == "th"@ || n == "thead"@ || n == "tr"@ || n == "ul"@
}

pub fn is_block_html_element(name: &Vec<char>) -> (r: bool)
    ensures
        r == is_block_name(name@),
{
    eq_str(name, "address") || eq_str(name, "article") || eq_str(name, "aside") || eq_str(
        name,
        "blockquote",
    ) || eq_str(name, "body") || eq_str(name, "center") || eq_str(name, "dd") || eq_str(
        name,
        "details",
    ) || eq_str(name, "div") || eq_str(name, "dl") || eq_str(name, "dt") || eq_str(
        name,
        "figcaption",
    ) || eq_str(name, "figure") || eq_str(name, "footer") || eq_str(name, "form") || eq_str(
        name,
        "h1",
    ) || eq_str(name, "h2") || eq_str(name, "h3") || eq_str(name, "h4") || eq_str(name, "h5")
        || eq_str(name, "h6") || eq_str(name, "header") || eq_str(name, "hr") || eq_str(name, "li")
        || eq_str(name, "main") || eq_str(name, "nav") || eq_str(name, "ol") || eq_str(name, "p")
        || eq_str(name, "pre") || eq_str(name, "section") || eq_str(name, "table") || eq_str(
        name,
        "tbody",
    ) || eq_str(name, "td") || eq_str(name, "tfoot") || eq_str(name, "th") || eq_str(
        name,
        "thead",
    ) || eq_str(name, "tr") || eq_str(name, "ul")
}

/// Inline elements.
pub open spec fn is_inline_name(n: Seq<char>) -> bool {
    n == "a"@ || n == "abbr"@ || n == "b"@ || n == "bdi"@ || n == "bdo"@ || n == "cite"@ || n
        == "code"@ || n == "data"@ || n == "dfn"@ || n == "em"@ || n == "i"@ || n == "kbd"@ || n
        == "mark"@ || n == "q"@ || n == "s"@ || n == "samp"@ || n == "small"@ || n == "span"@ || n
        == "strong"@ || n == "sub"@ || n == "sup"@ || n == "time"@ || n == "u"@ || n == "var"@
}

pub fn is_inline_html_element(name: &Vec<char>) -> (r: bool)
    ensures
        r == is_inline_name(name@),
{
    eq_str(name, "a") || eq_str(name, "abbr") || eq_str(name, "b") || eq_str(name, "bdi") || eq_str(
        name,
        "bdo",
    ) || eq_str(name, "cite") || eq_str(name, "code") || eq_str(name, "data") || eq_str(
        name,
        "dfn",
    ) || eq_str(name, "em") || eq_str(name, "i") || eq_str(name, "kbd") || eq_str(name, "mark")
        || eq_str(name, "q") || eq_str(name, "s") || eq_str(name, "samp") || eq_str(name, "small")
        || eq_str(name, "span") || eq_str(name, "strong") || eq_str(name, "sub") || eq_str(
        name,
        "sup",
    ) || eq_str(name, "time") || eq_str(name, "u") || eq_str(name, "var")
}

/// Whether the element opened at `i` has a child element that is a
/// rendered block.
pub open spec fn has_block_child_from(ev: Seq<EvView>, j: int) -> bool
    decreases ev.len() - j,
{
    if !has_child_at(ev, j) {
        false
    } else if is_elem(ev, j) && !is_ignored_name(text_at(ev, j)) && is_block_name(text_at(ev, j)) {
        true
    } else {
        let n = skip(ev, j);
        if n <= j {
            false
        } else {
            has_block_child_from(ev, n)
        }
    }
}

fn has_block_child_exec(ev: &Vec<HtmlEvent>, j: usize) -> (r: bool)
    ensures
        r == has_block_child_from(evv(ev@), j as int),
    decreases ev.len() - j,
{
    if !has_child_at_exec(ev, j) {
        return false;
    }
    if kind_exec(ev, j) == 1 {
        let name = text_exec(ev, j);
        if !is_ignored_html_element(&name) && is_block_html_element(&name) {
            return true;
        }
    }
    let n = skip_exec(ev, j);
    if n <= j {
        false
    } else {
        has_block_child_exec(ev, n)
    }
}

// ---------------------------------------------------------------------------
// Text helpers.
// ---------------------------------------------------------------------------

/// A Markdown block: the trimmed text and a blank line, or nothing.
pub open spec fn md_block(s: Seq<char>) -> Seq<char> {
    if trim(s).len() == 0 {
        Seq::empty()
    } else {
        trim(s) + "\n\n"@
    }
}

pub fn markdown_block(s: &Vec<char>) -> (r: Vec<char>)
    ensures
        r@ == md_block(s@),
{
    let t = trim_chars(s);
    if t.len() == 0 {
        return Vec::new();
    }
    let mut out = t;
    push_str(&mut out, "\n\n");
    out
}

/// Decoded entities with white-space runs collapsed to one space.
pub open spec fn normalize_html_text_spec(s: Seq<char>) -> Seq<char> {
    spec_replace_all(ws_re(), decode_entities_spec(s), " "@)
}

pub fn normalize_html_text(s: &Vec<char>) -> (r: Vec<char>)
    ensures
        r@ == normalize_html_text_spec(s@),
{
    let d = decode_entities(s);
    chars_of(replace_all("\\s+", string_of(&d).as_str(), " ").as_str())
}

/// A cleaned line with no space before punctuation.
pub open spec fn clean_inline_spec(s: Seq<char>) -> Seq<char> {
    spec_replace_all(space_punct_re(), clean_block_spec(s), "$1"@)
}

pub fn clean_inline_markdown(s: &Vec<char>) -> (r: Vec<char>)
    ensures
        r@ == clean_inline_spec(s@),
{
    let c = clean_block_chars(s);
    chars_of(replace_all("\\s+([,.;:!?])", string_of(&c).as_str(), "$1").as_str())
}

/// Blank-line runs reduced to one blank line, trimmed first.
pub open spec fn clean_generated_spec(s: Seq<char>) -> Seq<char> {
    spec_replace_all(blank_line_re(), trim(s), "\n\n"@)
}

pub fn clean_generated_markdown(s: &Vec<char>) -> (r: Vec<char>)
    ensures
        r@ == clean_generated_spec(s@),
{
    let t = trim_chars(s);
    chars_of(replace_all("\\n\\s*\\n+", string_of(&t).as_str(), "\n\n").as_str())
}

/// Inline text between two markers, or nothing when empty.
pub open spec fn wrap_inline_spec(marker: Seq<char>, text: Seq<char>) -> Seq<char> {
    let t = clean_inline_spec(text);
    if t.len() == 0 {
        Seq::empty()
    } else {
        marker + t + marker
    }
}

pub fn wrap_inline(marker: &str, text: &Vec<char>) -> (r: Vec<char>)
    ensures
        r@ == wrap_inline_spec(marker@, text@),
{
    let t = clean_inline_markdown(text);
    if t.len() == 0 {
        return Vec::new();
    }
    let mut out = chars_of(marker);
    push_all(&mut out, &t);
    push_str(&mut out, marker);
    out
}

/// Inline code, with a double fence around text holding a backtick.
pub open spec fn inline_code_spec(text: Seq<char>) -> Seq<char> {
    let t = clean_block_spec(text);
    if t.len() == 0 {
        Seq::empty()
    } else if contains(t, "`"@) {
        "`` "@ + t + " ``"@
    } else {
        "`"@ + t + "`"@
    }
}

pub fn inline_code(text: &Vec<char>) -> (r: Vec<char>)
    ensures
        r@ == inline_code_spec(text@),
{
    let t = clean_block_chars(text);
    if t.len() == 0 {
        return Vec::new();
    }
    if contains_str(&t, "`") {
        let mut out = chars_of("`` ");
        push_all(&mut out, &t);
        push_str(&mut out, " ``");
        out
    } else {
        let mut out = chars_of("`");
        push_all(&mut out, &t);
        push_str(&mut out, "`");
        out
    }
}

/// Marks a decorative separator is drawn with.
pub open spec fn is_separator_mark(c: char) -> bool {
    c == '*' || c == '-' || c == '_' || c == '\u{2022}' || c == '\u{00b7}'
}

pub open spec fn count_marks(s: Seq<char>) -> nat
    decreases s.len(),
{
    if s.len() == 0 {
        0
    } else {
        count_marks(s.drop_last()) + if is_separator_mark(s.last()) {
            1nat
        } else {
            0
        }
    }
}

/// A line of at least three separator marks and white space only.
pub open spec fn is_decorative_spec(input: Seq<char>) -> bool {
    let c = clean_block_spec(input);
    count_marks(c) >= 3 && forall|k: int| 0 <= k < c.len() ==> is_ws(#[trigger] c[k]) || is_separator_mark(c[k])
}

pub fn is_decorative_separator(input: &Vec<char>) -> (r: bool)
    ensures
        r == is_decorative_spec(input@),
{
    let c = clean_block_chars(input);
    let mut marks: usize = 0;
    let mut all = true;
    let mut i: usize = 0;
    while i < c.len()
        invariant
            i <= c.len(),
            marks == count_marks(c@.take(i as int)),
            marks <= i,
            all == forall|k: int| 0 <= k < i ==> is_ws(#[trigger] c@[k]) || is_separator_mark(c@[k]),
        decreases c.len() - i,
    {
        proof {
            assert(c@.take(i + 1).drop_last() =~= c@.take(i as int));
        }
        let ch = c[i];
        let mark = ch == '*' || ch == '-' || ch == '_' || ch == '\u{2022}' || ch == '\u{00b7}';
        if mark {
            marks += 1;
        }
        if !(is_whitespace(ch) || mark) {
            all = false;
        }
        i += 1;
    }
    proof {
        assert(c@.take(c.len() as int) =~= c@);
    }
    marks >= 3 && all
}

/// The text without outer `**…**` or `*…*` pairs, cleaned.
pub open spec fn strip_emphasis_from(t: Seq<char>) -> Seq<char>
    decreases t.len(),
{
    let tt = trim(t);
    proof {
        crate::text::lemma_trim_shorter(t);
    }
    if tt.len() >= 4 && starts_with(tt, "**"@) && ends_with(tt, "**"@) {
        proof {
            crate::text::lemma_trim_shorter(tt.subrange(2, tt.len() - 2));
        }
        strip_emphasis_from(trim(tt.subrange(2, tt.len() - 2)))
    } else if tt.len() >= 2 && starts_with(tt, "*"@) && ends_with(tt, "*"@) {
        proof {
            crate::text::lemma_trim_shorter(tt.subrange(1, tt.len() - 1));
        }
        strip_emphasis_from(trim(tt.subrange(1, tt.len() - 1)))
    } else {
        t
    }
}

pub open spec fn strip_emphasis_spec(input: Seq<char>) -> Seq<char> {
    strip_emphasis_from(clean_block_spec(input))
}

pub fn strip_outer_markdown_emphasis(input: &Vec<char>) -> (r: Vec<char>)
    ensures
        r@ == strip_emphasis_spec(input@),
{
    let mut text = clean_block_chars(input);
    loop
        invariant
            strip_emphasis_spec(input@) == strip_emphasis_from(text@),
        decreases text@.len(),
    {
        let t = trim_chars(&text);
        proof {
            crate::text::lemma_trim_shorter(text@);
        }
        if t.len() >= 4 && starts_with_str(&t, "**") && ends_with_str(&t, "**") {
            let inner = slice(&t, 2, t.len() - 2);
            text = trim_chars(&inner);
            proof {
                crate::text::lemma_trim_shorter(inner@);
            }
        } else if t.len() >= 2 && starts_with_str(&t, "*") && ends_with_str(&t, "*") {
            let inner = slice(&t, 1, t.len() - 1);
            text = trim_chars(&inner);
            proof {
                crate::text::lemma_trim_shorter(inner@);
            }
        } else {
            return text;
        }
    }
}


// ---------------------------------------------------------------------------
// Styled paragraphs that read as headings.
// ---------------------------------------------------------------------------

/// Attribute slots of an element's opening edge.
pub const ATTR_HREF: usize = 0;
pub const ATTR_SRC: usize = 1;
pub const ATTR_XLINK_HREF: usize = 2;
pub const ATTR_ALT: usize = 3;
pub const ATTR_CLASS: usize = 4;
pub const ATTR_STYLE: usize = 5;

/// An attribute's value, or the empty text.
pub open spec fn attr_or_empty(ev: Seq<EvView>, i: int, a: int) -> Seq<char> {
    match attr_at(ev, i, a) {
        Some(v) => v,
        None => Seq::empty(),
    }
}

fn attr_or_empty_exec(ev: &Vec<HtmlEvent>, i: usize, a: usize) -> (r: Vec<char>)
    ensures
        r@ == attr_or_empty(evv(ev@), i as int, a as int),
{
    match attr_exec(ev, i, a) {
        Some(v) => v,
        None => Vec::new(),
    }
}

/// Whether some word of `ws` satisfies `p`.
pub open spec fn any_word(ws: Seq<Seq<char>>, p: spec_fn(Seq<char>) -> bool) -> bool {
    exists|k: int| 0 <= k < ws.len() && p(#[trigger] ws[k])
}

/// The element has the class `name` (ASCII case-insensitive).
pub open spec fn has_class_spec(ev: Seq<EvView>, i: int, name: Seq<char>) -> bool {
    any_word(words(attr_or_empty(ev, i, ATTR_CLASS as int)), |w: Seq<char>| eq_ignore_case(w, name))
}

pub fn element_has_class(ev: &Vec<HtmlEvent>, i: usize, name: &str) -> (r: bool)
    ensures
        r == has_class_spec(evv(ev@), i as int, name@),
{
    let ws = words_exec(&attr_or_empty_exec(ev, i, ATTR_CLASS));
    let n = chars_of(name);
    let mut k: usize = 0;
    while k < ws.len()
        invariant
            k <= ws.len(),
            n@ == name@,
            ws.deep_view() == words(attr_or_empty(evv(ev@), i as int, ATTR_CLASS as int)),
            forall|m: int| 0 <= m < k ==> !eq_ignore_case(#[trigger] ws.deep_view()[m], name@),
        decreases ws.len() - k,
    {
        proof {
            crate::text::lemma_chars_deep(&ws@[k as int]);
        }
        if crate::text::eq_ignore_ascii_case(&ws[k], &n) {
            proof {
                let p = |w: Seq<char>| eq_ignore_case(w, name@);
                assert(p(ws.deep_view()[k as int]));
            }
            return true;
        }
        k += 1;
    }
    false
}

/// Classes that mark bold text in common EPUB styles.
pub open spec fn is_bold_class(c: Seq<char>) -> bool {
    c == "swchapter"@ || c == "western1"@ || c == "western5"@ || c == "western6"@ || c == "western9"@
        || c == "c4"@
}

/// Classes that mark centred text in common EPUB styles.
pub open spec fn is_centered_class(c: Seq<char>) -> bool {
    c == "swchapter"@ || c == "western"@ || c == "western1"@ || c == "western3"@ || c == "western5"@
        || c == "c3"@ || c == "c4"@
}

pub open spec fn lower_attr(ev: Seq<EvView>, i: int, a: int) -> Seq<char> {
    spec_str_lowercase(attr_or_empty(ev, i, a))
}

/// The element looks bold: a bold class or a bold font weight.
pub open spec fn looks_bold_spec(ev: Seq<EvView>, i: int) -> bool {
    let style = lower_attr(ev, i, ATTR_STYLE as int);
    any_word(words(lower_attr(ev, i, ATTR_CLASS as int)), |w: Seq<char>| is_bold_class(w)) || contains(
        style,
        "font-weight: bold"@,
    ) || contains(style, "font-weight:bold"@) || contains(style, "font-weight: bolder"@) || contains(
        style,
        "font-weight:bolder"@,
    )
}

/// The element looks centred: a centring class or centred alignment.
pub open spec fn looks_centered_spec(ev: Seq<EvView>, i: int) -> bool {
    let style = lower_attr(ev, i, ATTR_STYLE as int);
    any_word(words(lower_attr(ev, i, ATTR_CLASS as int)), |w: Seq<char>| is_centered_class(w))
        || contains(style, "text-align: center"@) || contains(style, "text-align:center"@)
}

fn lower_attr_exec(ev: &Vec<HtmlEvent>, i: usize, a: usize) -> (r: Vec<char>)
    ensures
        r@ == lower_attr(evv(ev@), i as int, a as int),
{
    let v = attr_or_empty_exec(ev, i, a);
    chars_of(str_lowercase(string_of(&v).as_str()).as_str())
}

fn any_class(ws: &Vec<Vec<char>>, bold: bool) -> (r: bool)
    ensures
        bold ==> r == any_word(ws.deep_view(), |w: Seq<char>| is_bold_class(w)),
        !bold ==> r == any_word(ws.deep_view(), |w: Seq<char>| is_centered_class(w)),
{
    let ghost p = if bold {
        |w: Seq<char>| is_bold_class(w)
    } else {
        |w: Seq<char>| is_centered_class(w)
    };
    let mut k: usize = 0;
    while k < ws.len()
        invariant
            k <= ws.len(),
            p == if bold {
                |w: Seq<char>| is_bold_class(w)
            } else {
                |w: Seq<char>| is_centered_class(w)
            },
            forall|m: int| 0 <= m < k ==> !p(#[trigger] ws.deep_view()[m]),
        decreases ws.len() - k,
    {
        let w = &ws[k];
        proof {
            crate::text::lemma_chars_deep(w);
            assert(ws.deep_view()[k as int] == w@);
        }
        let hit = if bold {
            eq_str(w, "swchapter") || eq_str(w, "western1") || eq_str(w, "western5") || eq_str(
                w,
                "western6",
            ) || eq_str(w, "western9") || eq_str(w, "c4")
        } else {
            eq_str(w, "swchapter") || eq_str(w, "western") || eq_str(w, "western1") || eq_str(
                w,
                "western3",
            ) || eq_str(w, "western5") || eq_str(w, "c3") || eq_str(w, "c4")
        };
        if hit {
            proof {
                assert(p(ws.deep_view()[k as int]));
            }
            return true;
        }
        k += 1;
    }
    false
}

pub fn element_looks_bold(ev: &Vec<HtmlEvent>, i: usize) -> (r: bool)
    ensures
        r == looks_bold_spec(evv(ev@), i as int),
{
    let ws = words_exec(&lower_attr_exec(ev, i, ATTR_CLASS));
    let style = lower_attr_exec(ev, i, ATTR_STYLE);
    any_class(&ws, true) || contains_str(&style, "font-weight: bold") || contains_str(
        &style,
        "font-weight:bold",
    ) || contains_str(&style, "font-weight: bolder") || contains_str(&style, "font-weight:bolder")
}

pub fn element_looks_centered(ev: &Vec<HtmlEvent>, i: usize) -> (r: bool)
    ensures
        r == looks_centered_spec(evv(ev@), i as int),
{
    let ws = words_exec(&lower_attr_exec(ev, i, ATTR_CLASS));
    let style = lower_attr_exec(ev, i, ATTR_STYLE);
    any_class(&ws, false) || contains_str(&style, "text-align: center") || contains_str(
        &style,
        "text-align:center",
    )
}

/// A short line that reads as a section title: a named part of a book, a
/// numbered entry, or a short lettered line not ending in a comma.
pub open spec fn section_title_spec(text: Seq<char>) -> bool {
    let t = trim(text);
    let lower = spec_str_lowercase(t);
    if t.len() == 0 || is_decorative_spec(t) {
        false
    } else {
        lower == "introduction"@ || lower == "prologue"@ || lower == "epilogue"@ || starts_with(
            lower,
            "appendix"@,
        ) || spec_is_match(toc_entry_re(), t) || (t.len() <= 96 && count_alpha(t) >= 3 && !ends_with(
            t,
            ","@,
        ))
    }
}

pub fn looks_like_book_section_title(text: &Vec<char>) -> (r: bool)
    ensures
        r == section_title_spec(text@),
{
    let t = trim_chars(text);
    if t.len() == 0 || is_decorative_separator(&t) {
        return false;
    }
    let ts = string_of(&t);
    let lower = chars_of(str_lowercase(ts.as_str()).as_str());
    if eq_str(&lower, "introduction") || eq_str(&lower, "prologue") || eq_str(&lower, "epilogue")
        || starts_with_str(&lower, "appendix") {
        return true;
    }
    if is_match("(?i)^\\s*(?:chapter|chap\\.?|part|book)\\s+(?:\\d+|[ivxlcdm]+)\\b.{3,}", ts.as_str()) {
        return true;
    }
    let (letters, _) = count_alpha_upper(&t);
    t.len() <= 96 && letters >= 3 && !ends_with_str(&t, ",")
}

/// The heading level a styled paragraph reads as, if any: a chapter
/// marker (3 for `chap…`, else 2), the `western6` class (3), or a bold or
/// centred section title (2); never for text over 180 characters.
pub open spec fn styled_level_spec(ev: Seq<EvView>, i: int, text: Seq<char>) -> Option<nat> {
    let cleaned = clean_block_spec(strip_emphasis_spec(text));
    if cleaned.len() > 180 {
        None
    } else if spec_is_match(chapter_heading_re(), cleaned) {
        Some(
            if starts_with(spec_str_lowercase(cleaned), "chap"@) {
                3nat
            } else {
                2nat
            },
        )
    } else if has_class_spec(ev, i, "western6"@) {
        Some(3nat)
    } else if (looks_bold_spec(ev, i) || looks_centered_spec(ev, i)) && section_title_spec(cleaned) {
        Some(2nat)
    } else {
        None
    }
}

pub fn styled_book_heading_level(ev: &Vec<HtmlEvent>, i: usize, text: &Vec<char>) -> (r: Option<usize>)
    ensures
        match r {
            Some(l) => styled_level_spec(evv(ev@), i as int, text@) == Some(l as nat),
            None => styled_level_spec(evv(ev@), i as int, text@) is None,
        },
{
    let plain = strip_outer_markdown_emphasis(text);
    let cleaned = clean_block_chars(&plain);
    if cleaned.len() > 180 {
        return None;
    }
    let bold = element_looks_bold(ev, i);
    let centered = element_looks_centered(ev, i);
    let cs = string_of(&cleaned);
    if is_match(
        "(?i)^\\s*(?:chapter|chap\\.?|part|book|section)\\s+(?:\\d+|[ivxlcdm]+)\\.?\\b",
        cs.as_str(),
    ) {
        let lower = chars_of(str_lowercase(cs.as_str()).as_str());
        return Some(if starts_with_str(&lower, "chap") { 3 } else { 2 });
    }
    if element_has_class(ev, i, "western6") {
        return Some(3);
    }
    if (bold || centered) && looks_like_book_section_title(&cleaned) {
        return Some(2);
    }
    None
}


// ---------------------------------------------------------------------------
// Rendering.
// ---------------------------------------------------------------------------

/// What the renderer asks its caller: with `ask_assets` off, images are
/// not resolved (and render as nothing); with `ask_links` off, links are
/// rewritten as plain HTML links are (`rewrite_html_link`: outside links
/// become Markdown links, other links keep their label).
#[derive(Clone, Copy)]
pub struct RenderMode {
    pub ask_assets: bool,
    pub ask_links: bool,
}

/// A request the renderer makes of its caller: an image asset to resolve
/// (`link` false; the answer is the asset's path) or a link to rewrite
/// (`link` true, with the link's label; the answer is the Markdown for the
/// link), in the order they arise.
pub struct HtmlRequest {
    pub link: bool,
    pub href: String,
    pub label: String,
}

pub type ReqView = (bool, Seq<char>, Seq<char>);

pub open spec fn req_view(q: HtmlRequest) -> ReqView {
    (q.link, q.href@, q.label@)
}

pub open spec fn reqv(qs: Seq<HtmlRequest>) -> Seq<ReqView> {
    qs.map_values(|q: HtmlRequest| req_view(q))
}

pub open spec fn ansv(ans: Seq<Option<String>>) -> Seq<Option<Seq<char>>> {
    ans.map_values(|a: Option<String>| match a {
        Some(s) => Some(s@),
        None => None,
    })
}

/// The answer to request `k` (none where the caller gave none yet).
pub open spec fn ans_at(ans: Seq<Option<Seq<char>>>, k: int) -> Option<Seq<char>> {
    if 0 <= k < ans.len() {
        ans[k]
    } else {
        None
    }
}

fn ans_exec(ans: &Vec<Option<String>>, k: usize) -> (r: Option<Vec<char>>)
    ensures
        opt_chars(r) == ans_at(ansv(ans@), k as int),
{
    if k < ans.len() {
        match &ans[k] {
            Some(s) => Some(chars_of(s.as_str())),
            None => None,
        }
    } else {
        None
    }
}

/// Rendered text and the requests made while rendering it.
pub type Rendered = (Seq<char>, Seq<ReqView>);

/// The Markdown of a text node.
pub open spec fn text_markdown(t: Seq<char>) -> Seq<char> {
    escape_html_text_spec(normalize_html_text_spec(t))
}

/// `n` hash marks.
pub open spec fn hashes(n: nat) -> Seq<char>
    decreases n,
{
    if n == 0 {
        Seq::empty()
    } else {
        hashes((n - 1) as nat) + "#"@
    }
}

/// The level of a heading element `h1`..`h6`.
pub open spec fn heading_level(name: Seq<char>) -> nat {
    if name.len() == 2 && name[0] == 'h' && '1' <= name[1] && name[1] <= '6' {
        (name[1] as u32 - '0' as u32) as nat
    } else {
        1
    }
}

pub open spec fn is_heading_name(n: Seq<char>) -> bool {
    n == "h1"@ || n == "h2"@ || n == "h3"@ || n == "h4"@ || n == "h5"@ || n == "h6"@
}

pub open spec fn is_container_name(n: Seq<char>) -> bool {
    n == "html"@ || n == "body"@ || n == "main"@ || n == "article"@ || n == "section"@ || n
        == "header"@ || n == "footer"@ || n == "nav"@ || n == "div"@ || n == "center"@ || n
        == "figure"@ || n == "figcaption"@
}

/// Inline elements with their own rendering.
pub open spec fn is_special_inline(n: Seq<char>) -> bool {
    n == "br"@ || n == "img"@ || n == "image"@ || n == "strong"@ || n == "b"@ || n == "em"@ || n
        == "i"@ || n == "cite"@ || n == "s"@ || n == "strike"@ || n == "del"@ || n == "sub"@ || n
        == "sup"@ || n == "code"@ || n == "kbd"@ || n == "samp"@ || n == "a"@ || n == "span"@ || n
        == "small"@ || n == "mark"@ || n == "u"@
}

/// The children of a node from position `j` on, rendered as blocks.
pub open spec fn r_children_blocks(ev: Seq<EvView>, j: int, md: RenderMode, ans: Seq<Option<Seq<char>>>, k: int) -> Rendered
    decreases ev.len() - j, 50int,
{
    if j < 0 || !has_child_at(ev, j) {
        (Seq::empty(), Seq::empty())
    } else {
        let first: Rendered = if kind_at(ev, j) == 2 {
            (md_block(text_markdown(text_at(ev, j))), Seq::empty())
        } else if kind_at(ev, j) == 1 {
            r_element_block(ev, j, md, ans, k)
        } else {
            (Seq::empty(), Seq::empty())
        };
        let n = skip(ev, j);
        if n <= j || n > ev.len() {
            first
        } else {
            let rest = r_children_blocks(ev, n, md, ans, k + first.1.len());
            (first.0 + rest.0, first.1 + rest.1)
        }
    }
}

/// The children of a node from position `j` on, rendered inline (before
/// clean-up).
pub open spec fn r_inline_raw(ev: Seq<EvView>, j: int, md: RenderMode, ans: Seq<Option<Seq<char>>>, k: int) -> Rendered
    decreases ev.len() - j, 50int,
{
    if j < 0 || !has_child_at(ev, j) {
        (Seq::empty(), Seq::empty())
    } else {
        let first: Rendered = if kind_at(ev, j) == 2 {
            (text_markdown(text_at(ev, j)), Seq::empty())
        } else if kind_at(ev, j) == 1 {
            r_element_inline(ev, j, md, ans, k)
        } else {
            (Seq::empty(), Seq::empty())
        };
        let n = skip(ev, j);
        if n <= j || n > ev.len() {
            first
        } else {
            let rest = r_inline_raw(ev, n, md, ans, k + first.1.len());
            (first.0 + rest.0, first.1 + rest.1)
        }
    }
}

/// The children of the node at `i` rendered inline and cleaned.
pub open spec fn r_children_inline(ev: Seq<EvView>, i: int, md: RenderMode, ans: Seq<Option<Seq<char>>>, k: int) -> Rendered
    decreases ev.len() - i, 2int,
{
    if i < 0 || i >= ev.len() {
        (Seq::empty(), Seq::empty())
    } else {
        let raw = r_inline_raw(ev, i + 1, md, ans, k);
        (clean_inline_spec(raw.0), raw.1)
    }
}

/// An image: its source (`src`, `href` or `xlink:href`) resolved by the
/// caller, with its alt text (or `Image`); nothing when unresolved.
pub open spec fn r_image(ev: Seq<EvView>, i: int, md: RenderMode, ans: Seq<Option<Seq<char>>>, k: int) -> Rendered {
    let href = match attr_at(ev, i, ATTR_SRC as int) {
        Some(h) => Some(h),
        None => match attr_at(ev, i, ATTR_HREF as int) {
            Some(h) => Some(h),
            None => attr_at(ev, i, ATTR_XLINK_HREF as int),
        },
    };
    let alt0 = match attr_at(ev, i, ATTR_ALT as int) {
        Some(a) => clean_block_spec(a),
        None => Seq::empty(),
    };
    let alt = if alt0.len() > 0 {
        alt0
    } else {
        "Image"@
    };
    match href {
        None => (Seq::empty(), Seq::empty()),
        Some(h) => if !md.ask_assets {
            (Seq::empty(), Seq::empty())
        } else {
            (
                match ans_at(ans, k) {
                    Some(path) => "!["@ + escape_image_alt_spec(alt) + "]("@ + path + ")"@,
                    None => Seq::empty(),
                },
                seq![(false, h, Seq::empty())],
            )
        },
    }
}

/// A link: its label, rewritten by the caller when it has an `href`.
pub open spec fn r_anchor(ev: Seq<EvView>, i: int, md: RenderMode, ans: Seq<Option<Seq<char>>>, k: int) -> Rendered
    decreases ev.len() - i, 3int,
{
    let label = r_children_inline(ev, i, md, ans, k);
    if label.0.len() == 0 {
        label
    } else {
        match attr_at(ev, i, ATTR_HREF as int) {
            None => label,
            Some(h) => if !md.ask_links {
                (
                    match rewrite_html_link_spec(h, label.0) {
                        Some(x) => x,
                        None => label.0,
                    },
                    label.1,
                )
            } else {
                (
                    match ans_at(ans, k + label.1.len()) {
                        Some(x) => x,
                        None => label.0,
                    },
                    label.1.push((true, h, label.0)),
                )
            },
        }
    }
}

/// An inline element that is not a block: its own rendering, else its
/// children.
pub open spec fn r_inline_nonblock(ev: Seq<EvView>, i: int, md: RenderMode, ans: Seq<Option<Seq<char>>>, k: int) -> Rendered
    decreases ev.len() - i, 20int,
{
    let n = text_at(ev, i);
    if n == "br"@ {
        ("\n"@, Seq::empty())
    } else if n == "img"@ || n == "image"@ {
        r_image(ev, i, md, ans, k)
    } else if n == "strong"@ || n == "b"@ {
        let c = r_children_inline(ev, i, md, ans, k);
        (wrap_inline_spec("**"@, c.0), c.1)
    } else if n == "em"@ || n == "i"@ || n == "cite"@ {
        let c = r_children_inline(ev, i, md, ans, k);
        (wrap_inline_spec("*"@, c.0), c.1)
    } else if n == "s"@ || n == "strike"@ || n == "del"@ {
        let c = r_children_inline(ev, i, md, ans, k);
        (wrap_inline_spec("~~"@, c.0), c.1)
    } else if n == "sub"@ {
        let c = r_children_inline(ev, i, md, ans, k);
        ("<sub>"@ + c.0 + "</sub>"@, c.1)
    } else if n == "sup"@ {
        let c = r_children_inline(ev, i, md, ans, k);
        ("<sup>"@ + c.0 + "</sup>"@, c.1)
    } else if n == "code"@ || n == "kbd"@ || n == "samp"@ {
        (inline_code_spec(node_text(ev, i)), Seq::empty())
    } else if n == "a"@ {
        r_anchor(ev, i, md, ans, k)
    } else {
        r_children_inline(ev, i, md, ans, k)
    }
}

/// An element rendered inline.
pub open spec fn r_element_inline(ev: Seq<EvView>, i: int, md: RenderMode, ans: Seq<Option<Seq<char>>>, k: int) -> Rendered
    decreases ev.len() - i, 40int,
{
    let n = text_at(ev, i);
    if is_ignored_name(n) {
        (Seq::empty(), Seq::empty())
    } else if is_special_inline(n) {
        r_inline_nonblock(ev, i, md, ans, k)
    } else if is_block_name(n) {
        let b = r_element_block(ev, i, md, ans, k);
        (replace(trim(b.0), "\n\n"@, "\n"@), b.1)
    } else {
        r_children_inline(ev, i, md, ans, k)
    }
}

/// A container: its blocks, or its inline text when it holds no block (or
/// its blocks come out blank).
pub open spec fn r_container(ev: Seq<EvView>, i: int, md: RenderMode, ans: Seq<Option<Seq<char>>>, k: int) -> Rendered
    decreases ev.len() - i, 10int,
{
    if i < 0 || i >= ev.len() {
        (Seq::empty(), Seq::empty())
    } else if !has_block_child_from(ev, i + 1) {
        let c = r_children_inline(ev, i, md, ans, k);
        (md_block(c.0), c.1)
    } else {
        let b = r_children_blocks(ev, i + 1, md, ans, k);
        if trim(b.0).len() > 0 {
            b
        } else {
            let c = r_children_inline(ev, i, md, ans, k + b.1.len());
            (md_block(c.0), b.1 + c.1)
        }
    }
}

/// A paragraph: a separator line, a styled heading, or the text.
pub open spec fn r_paragraph(ev: Seq<EvView>, i: int, md: RenderMode, ans: Seq<Option<Seq<char>>>, k: int) -> Rendered
    decreases ev.len() - i, 10int,
{
    let c = r_children_inline(ev, i, md, ans, k);
    let text = c.0;
    (
        if trim(text).len() == 0 {
            Seq::empty()
        } else if is_decorative_spec(text) {
            md_block("---"@)
        } else {
            match styled_level_spec(ev, i, text) {
                Some(level) => md_block(hashes(level) + " "@ + strip_emphasis_spec(text)),
                None => md_block(text),
            }
        },
        c.1,
    )
}

/// The lines of a quotation, each marked with `>`.
pub open spec fn quote_line(l: Seq<char>) -> Seq<char> {
    if trim(l).len() == 0 {
        ">"@
    } else {
        "> "@ + trim_end(l)
    }
}

/// A quotation: its blocks (or inline text), every line quoted.
pub open spec fn r_blockquote(ev: Seq<EvView>, i: int, md: RenderMode, ans: Seq<Option<Seq<char>>>, k: int) -> Rendered
    decreases ev.len() - i, 10int,
{
    if i < 0 || i >= ev.len() {
        (Seq::empty(), Seq::empty())
    } else {
        let b = r_children_blocks(ev, i + 1, md, ans, k);
        let body: Rendered = if trim(b.0).len() == 0 {
            let c = r_children_inline(ev, i, md, ans, k + b.1.len());
            (c.0, b.1 + c.1)
        } else {
            b
        };
        (md_block(join(lines(trim(body.0)).map_values(|l: Seq<char>| quote_line(l)), "\n"@)), body.1)
    }
}

/// Preformatted text in a code fence.
pub open spec fn pre_block_spec(ev: Seq<EvView>, i: int) -> Seq<char> {
    let t = trim_set(node_text(ev, i), seq!['\n']);
    if t.len() == 0 {
        Seq::empty()
    } else {
        md_block("```\n"@ + t + "\n```"@)
    }
}

/// A list item: its inline text and its nested blocks, one part per line.
pub open spec fn r_list_item_from(
    ev: Seq<EvView>,
    j: int,
    parts: Seq<Seq<char>>,
    inline: Seq<char>,
    md: RenderMode,
    ans: Seq<Option<Seq<char>>>,
    k: int,
) -> (Seq<Seq<char>>, Seq<char>, Seq<ReqView>)
    decreases ev.len() - j, 50int,
{
    if j < 0 || !has_child_at(ev, j) {
        (parts, inline, Seq::empty())
    } else {
        let step: (Seq<Seq<char>>, Seq<char>, Seq<ReqView>) = if kind_at(ev, j) == 2 {
            (parts, inline + text_markdown(text_at(ev, j)), Seq::empty())
        } else if kind_at(ev, j) == 1 {
            if is_block_name(text_at(ev, j)) {
                let t = clean_inline_spec(inline);
                let p1 = if t.len() > 0 { parts.push(t) } else { parts };
                let i1 = if t.len() > 0 { Seq::empty() } else { inline };
                let b = r_element_block(ev, j, md, ans, k);
                let p2 = if trim(b.0).len() > 0 { p1.push(trim(b.0)) } else { p1 };
                (p2, i1, b.1)
            } else {
                let e = r_element_inline(ev, j, md, ans, k);
                (parts, inline + e.0, e.1)
            }
        } else {
            (parts, inline, Seq::empty())
        };
        let n = skip(ev, j);
        if n <= j || n > ev.len() {
            step
        } else {
            let rest = r_list_item_from(ev, n, step.0, step.1, md, ans, k + step.2.len());
            (rest.0, rest.1, step.2 + rest.2)
        }
    }
}

pub open spec fn r_list_item(ev: Seq<EvView>, i: int, md: RenderMode, ans: Seq<Option<Seq<char>>>, k: int) -> Rendered
    decreases ev.len() - i, 4int,
{
    if i < 0 || i >= ev.len() {
        (Seq::empty(), Seq::empty())
    } else {
        let r = r_list_item_from(ev, i + 1, Seq::empty(), Seq::empty(), md, ans, k);
        let t = clean_inline_spec(r.1);
        let parts = if t.len() > 0 { r.0.push(t) } else { r.0 };
        (join(parts, "\n"@), r.2)
    }
}

/// The lines of one list item: the marker before its first line, two
/// spaces before the others.
pub open spec fn item_lines(item: Seq<char>, prefix: Seq<char>) -> Seq<Seq<char>> {
    let ls = lines(item);
    Seq::new(ls.len(), |idx: int| if idx == 0 { prefix + trim(ls[0]) } else { "  "@ + trim_end(ls[idx]) })
}

/// The marker of list item `index`.
pub open spec fn list_prefix(ordered: bool, index: nat) -> Seq<char> {
    if ordered {
        decimal(index) + ". "@
    } else {
        "- "@
    }
}

/// The lines of the `li` children from position `j` on.
pub open spec fn r_list_items_from(
    ev: Seq<EvView>,
    j: int,
    ordered: bool,
    index: nat,
    md: RenderMode,
    ans: Seq<Option<Seq<char>>>,
    k: int,
) -> (Seq<Seq<char>>, Seq<ReqView>)
    decreases ev.len() - j, 50int,
{
    if j < 0 || !has_child_at(ev, j) {
        (Seq::empty(), Seq::empty())
    } else {
        let is_li = kind_at(ev, j) == 1 && text_at(ev, j) == "li"@;
        let item: Rendered = if is_li {
            r_list_item(ev, j, md, ans, k)
        } else {
            (Seq::empty(), Seq::empty())
        };
        let here = if is_li && item.0.len() > 0 {
            item_lines(item.0, list_prefix(ordered, index))
        } else {
            Seq::empty()
        };
        let next_index = if is_li && item.0.len() > 0 { index + 1 } else { index };
        let n = skip(ev, j);
        if n <= j || n > ev.len() {
            (here, item.1)
        } else {
            let rest = r_list_items_from(ev, n, ordered, next_index, md, ans, k + item.1.len());
            (here + rest.0, item.1 + rest.1)
        }
    }
}

pub open spec fn r_list(ev: Seq<EvView>, i: int, ordered: bool, md: RenderMode, ans: Seq<Option<Seq<char>>>, k: int) -> Rendered
    decreases ev.len() - i, 10int,
{
    if i < 0 || i >= ev.len() {
        (Seq::empty(), Seq::empty())
    } else {
        let r = r_list_items_from(ev, i + 1, ordered, 1, md, ans, k);
        (md_block(join(r.0, "\n"@)), r.1)
    }
}

/// The cells (`td`, `th`) of a row from position `j` on.
pub open spec fn r_cells_from(ev: Seq<EvView>, j: int, md: RenderMode, ans: Seq<Option<Seq<char>>>, k: int) -> (Seq<Seq<char>>, Seq<ReqView>)
    decreases ev.len() - j, 50int,
{
    if j < 0 || !has_child_at(ev, j) {
        (Seq::empty(), Seq::empty())
    } else {
        let is_cell = kind_at(ev, j) == 1 && (text_at(ev, j) == "td"@ || text_at(ev, j) == "th"@);
        let cell: Rendered = if is_cell {
            r_children_inline(ev, j, md, ans, k)
        } else {
            (Seq::empty(), Seq::empty())
        };
        let here = if is_cell { seq![cell.0] } else { Seq::empty() };
        let n = skip(ev, j);
        if n <= j || n > ev.len() {
            (here, cell.1)
        } else {
            let rest = r_cells_from(ev, n, md, ans, k + cell.1.len());
            (here + rest.0, cell.1 + rest.1)
        }
    }
}

/// The rows of a table from position `j` on, looking into row groups.
pub open spec fn r_rows_from(ev: Seq<EvView>, j: int, md: RenderMode, ans: Seq<Option<Seq<char>>>, k: int) -> (Seq<Seq<Seq<char>>>, Seq<ReqView>)
    decreases ev.len() - j, 50int,
{
    if j < 0 || !has_child_at(ev, j) {
        (Seq::empty(), Seq::empty())
    } else {
        let name = text_at(ev, j);
        let here: (Seq<Seq<Seq<char>>>, Seq<ReqView>) = if kind_at(ev, j) != 1 {
            (Seq::empty(), Seq::empty())
        } else if name == "tr"@ {
            let c = r_cells_from(ev, j + 1, md, ans, k);
            (if c.0.len() > 0 { seq![c.0] } else { Seq::empty() }, c.1)
        } else if name == "thead"@ || name == "tbody"@ || name == "tfoot"@ || name == "table"@ {
            r_rows_from(ev, j + 1, md, ans, k)
        } else {
            (Seq::empty(), Seq::empty())
        };
        let n = skip(ev, j);
        if n <= j || n > ev.len() {
            here
        } else {
            let rest = r_rows_from(ev, n, md, ans, k + here.1.len());
            (here.0 + rest.0, here.1 + rest.1)
        }
    }
}

pub open spec fn r_table(ev: Seq<EvView>, i: int, md: RenderMode, ans: Seq<Option<Seq<char>>>, k: int) -> Rendered
    decreases ev.len() - i, 10int,
{
    if i < 0 || i >= ev.len() {
        (Seq::empty(), Seq::empty())
    } else {
        let r = r_rows_from(ev, i + 1, md, ans, k);
        (table_markdown(r.0), r.1)
    }
}

/// An element rendered as blocks.
pub open spec fn r_element_block(ev: Seq<EvView>, i: int, md: RenderMode, ans: Seq<Option<Seq<char>>>, k: int) -> Rendered
    decreases ev.len() - i, 30int,
{
    let n = text_at(ev, i);
    if is_ignored_name(n) {
        (Seq::empty(), Seq::empty())
    } else if is_container_name(n) {
        r_container(ev, i, md, ans, k)
    } else if is_heading_name(n) {
        let c = r_children_inline(ev, i, md, ans, k);
        (md_block(hashes(heading_level(n)) + " "@ + c.0), c.1)
    } else if n == "p"@ {
        r_paragraph(ev, i, md, ans, k)
    } else if n == "br"@ {
        ("\n"@, Seq::empty())
    } else if n == "hr"@ {
        (md_block("---"@), Seq::empty())
    } else if n == "blockquote"@ {
        r_blockquote(ev, i, md, ans, k)
    } else if n == "pre"@ {
        (pre_block_spec(ev, i), Seq::empty())
    } else if n == "ul"@ {
        r_list(ev, i, false, md, ans, k)
    } else if n == "ol"@ {
        r_list(ev, i, true, md, ans, k)
    } else if n == "table"@ {
        r_table(ev, i, md, ans, k)
    } else if n == "img"@ || n == "image"@ {
        let im = r_image(ev, i, md, ans, k);
        (md_block(im.0), im.1)
    } else if n == "li"@ {
        let c = r_children_inline(ev, i, md, ans, k);
        (md_block(c.0), c.1)
    } else if is_inline_name(n) {
        let e = r_inline_nonblock(ev, i, md, ans, k);
        (md_block(e.0), e.1)
    } else {
        r_container(ev, i, md, ans, k)
    }
}

/// The Markdown of a whole document (the children of its root element)
/// and the requests made rendering it.
pub open spec fn render_spec(ev: Seq<EvView>, md: RenderMode, ans: Seq<Option<Seq<char>>>) -> Rendered {
    let b = r_children_blocks(ev, 1, md, ans, 0);
    (clean_generated_spec(b.0), b.1)
}


// ---------------------------------------------------------------------------
// Tables.
// ---------------------------------------------------------------------------

/// Whether some cell of a row is not blank.
pub open spec fn row_has_text(row: Seq<Seq<char>>) -> bool {
    exists|c: int| 0 <= c < row.len() && trim(#[trigger] row[c]).len() > 0
}

/// The rows with some text.
pub open spec fn rows_with_text(rows: Seq<Seq<Seq<char>>>) -> Seq<Seq<Seq<char>>>
    decreases rows.len(),
{
    if rows.len() == 0 {
        Seq::empty()
    } else if row_has_text(rows.last()) {
        rows_with_text(rows.drop_last()).push(rows.last())
    } else {
        rows_with_text(rows.drop_last())
    }
}

/// The widest row's cell count.
pub open spec fn max_width(rows: Seq<Seq<Seq<char>>>) -> nat
    decreases rows.len(),
{
    if rows.len() == 0 {
        0
    } else if rows.last().len() > max_width(rows.drop_last()) {
        rows.last().len()
    } else {
        max_width(rows.drop_last())
    }
}

/// A row padded with empty cells to `w` cells (or cut to `w`).
pub open spec fn pad_row(row: Seq<Seq<char>>, w: nat) -> Seq<Seq<char>> {
    Seq::new(w, |c: int| if c < row.len() { row[c] } else { Seq::empty() })
}

/// The cells of a Markdown table row.
pub open spec fn row_cells_text(cells: Seq<Seq<char>>) -> Seq<char>
    decreases cells.len(),
{
    if cells.len() == 0 {
        Seq::empty()
    } else {
        row_cells_text(cells.drop_last()) + " "@ + escape_table_cell_spec(clean_block_spec(cells.last())) + " |"@
    }
}

/// One Markdown table row, with its line break.
pub open spec fn md_table_row(cells: Seq<Seq<char>>) -> Seq<char> {
    "|"@ + row_cells_text(cells) + "\n"@
}

/// The body rows after the header, padded.
pub open spec fn body_rows_text(rows: Seq<Seq<Seq<char>>>, w: nat) -> Seq<char>
    decreases rows.len(),
{
    if rows.len() == 0 {
        Seq::empty()
    } else {
        body_rows_text(rows.drop_last(), w) + md_table_row(pad_row(rows.last(), w))
    }
}

/// A Markdown table from rows of cells: rows without text dropped, all
/// padded to the widest, the first as header.
pub open spec fn table_markdown(rows: Seq<Seq<Seq<char>>>) -> Seq<char> {
    let f = rows_with_text(rows);
    let w = max_width(f);
    if f.len() == 0 || w == 0 {
        Seq::empty()
    } else {
        md_block(
            trim_end(
                md_table_row(pad_row(f[0], w)) + md_table_row(Seq::new(w, |c: int| "---"@))
                    + body_rows_text(f.drop_first(), w),
            ),
        )
    }
}

pub open spec fn rows_view(rows: Seq<Vec<Vec<char>>>) -> Seq<Seq<Seq<char>>> {
    rows.map_values(|r: Vec<Vec<char>>| r.deep_view())
}

fn row_has_text_exec(row: &Vec<Vec<char>>) -> (r: bool)
    ensures
        r == row_has_text(row.deep_view()),
{
    let mut c: usize = 0;
    while c < row.len()
        invariant
            c <= row.len(),
            forall|m: int| 0 <= m < c ==> trim(#[trigger] row.deep_view()[m]).len() == 0,
        decreases row.len() - c,
    {
        proof {
            crate::text::lemma_chars_deep(&row@[c as int]);
        }
        if trim_chars(&row[c]).len() > 0 {
            proof {
                assert(trim(row.deep_view()[c as int]).len() > 0);
            }
            return true;
        }
        c += 1;
    }
    false
}

fn push_table_row(out: &mut Vec<char>, cells: &Vec<Vec<char>>)
    ensures
        final(out)@ == old(out)@ + md_table_row(cells.deep_view()),
{
    let ghost start = out@;
    push_str(out, "|");
    let mut c: usize = 0;
    proof {
        assert(cells.deep_view().take(0) =~= Seq::<Seq<char>>::empty());
    }
    while c < cells.len()
        invariant
            c <= cells.len(),
            out@ == start + "|"@ + row_cells_text(cells.deep_view().take(c as int)),
        decreases cells.len() - c,
    {
        proof {
            crate::text::lemma_chars_deep(&cells@[c as int]);
            assert(cells.deep_view().take(c + 1).drop_last() =~= cells.deep_view().take(c as int));
        }
        push_str(out, " ");
        let cleaned = clean_block_chars(&cells[c]);
        let esc = escape_markdown_table_cell(&cleaned);
        push_all(out, &esc);
        push_str(out, " |");
        c += 1;
    }
    proof {
        assert(cells.deep_view().take(cells.len() as int) =~= cells.deep_view());
    }
    push_str(out, "\n");
}

fn pad_row_exec(row: &Vec<Vec<char>>, w: usize) -> (r: Vec<Vec<char>>)
    ensures
        r.deep_view() == pad_row(row.deep_view(), w as nat),
{
    let mut out: Vec<Vec<char>> = Vec::new();
    let mut c: usize = 0;
    while c < w
        invariant
            c <= w,
            out.deep_view() == pad_row(row.deep_view(), w as nat).take(c as int),
        decreases w - c,
    {
        let ghost before = out.deep_view();
        let cell: Vec<char> = if c < row.len() { row[c].clone() } else { Vec::new() };
        proof {
            if c < row.len() {
                crate::text::lemma_chars_deep(&row@[c as int]);
            }
        }
        let ghost cv = cell@;
        let ghost before_v = out@;
        out.push(cell);
        proof {
            assert forall|m: int| 0 <= m < before.len() implies #[trigger] out@[m].deep_view() == before[m] by {
                assert(out@[m] == before_v[m]);
            }
            crate::text::lemma_push_deep(before, &out, cv);
            assert(out.deep_view() =~= pad_row(row.deep_view(), w as nat).take(c + 1));
        }
        c += 1;
    }
    proof {
        assert(pad_row(row.deep_view(), w as nat).take(w as int) =~= pad_row(row.deep_view(), w as nat));
    }
    out
}

/// A Markdown table from rows of cells (`table_markdown`).
pub fn table_markdown_exec(rows: &Vec<Vec<Vec<char>>>) -> (r: Vec<char>)
    ensures
        r@ == table_markdown(rows_view(rows@)),
{
    let ghost rv = rows_view(rows@);
    let mut kept: Vec<usize> = Vec::new();
    let mut f_rows: Vec<&Vec<Vec<char>>> = Vec::new();
    let mut w: usize = 0;
    let mut i: usize = 0;
    proof {
        assert(rv.take(0) =~= Seq::<Seq<Seq<char>>>::empty());
    }
    while i < rows.len()
        invariant
            i <= rows.len(),
            rv == rows_view(rows@),
            f_rows@.map_values(|r: &Vec<Vec<char>>| r.deep_view()) == rows_with_text(rv.take(i as int)),
            w == max_width(rows_with_text(rv.take(i as int))),
        decreases rows.len() - i,
    {
        proof {
            assert(rv.take(i + 1).drop_last() =~= rv.take(i as int));
            assert(rv.take(i + 1).last() == rows@[i as int].deep_view());
        }
        if row_has_text_exec(&rows[i]) {
            let ghost before = f_rows@.map_values(|r: &Vec<Vec<char>>| r.deep_view());
            f_rows.push(&rows[i]);
            proof {
                assert(f_rows@.map_values(|r: &Vec<Vec<char>>| r.deep_view()) =~= before.push(rows@[i as int].deep_view()));
                assert(before.push(rows@[i as int].deep_view()).drop_last() =~= before);
            }
            if rows[i].len() > w {
                w = rows[i].len();
            }
        }
        i += 1;
    }
    proof {
        assert(rv.take(rows.len() as int) =~= rv);
    }
    let ghost fv = f_rows@.map_values(|r: &Vec<Vec<char>>| r.deep_view());
    if f_rows.len() == 0 || w == 0 {
        return Vec::new();
    }
    let mut out: Vec<char> = Vec::new();
    let header = pad_row_exec(f_rows[0], w);
    push_table_row(&mut out, &header);
    let mut dashes: Vec<Vec<char>> = Vec::new();
    let mut c: usize = 0;
    while c < w
        invariant
            c <= w,
            dashes.deep_view() == Seq::new(c as nat, |m: int| "---"@),
        decreases w - c,
    {
        let ghost before = dashes.deep_view();
        let d = chars_of("---");
        let ghost dv = d@;
        dashes.push(d);
        proof {
            assert forall|m: int| 0 <= m < before.len() implies #[trigger] dashes@[m].deep_view() == before[m] by {
            }
            crate::text::lemma_push_deep(before, &dashes, dv);
            assert(dashes.deep_view() =~= Seq::new((c + 1) as nat, |m: int| "---"@));
        }
        c += 1;
    }
    push_table_row(&mut out, &dashes);
    let ghost head_text = out@;
    let mut b: usize = 1;
    proof {
        assert(fv.drop_first().take(0) =~= Seq::<Seq<Seq<char>>>::empty());
    }
    while b < f_rows.len()
        invariant
            1 <= b <= f_rows.len(),
            fv == f_rows@.map_values(|r: &Vec<Vec<char>>| r.deep_view()),
            out@ == head_text + body_rows_text(fv.drop_first().take(b - 1), w as nat),
        decreases f_rows.len() - b,
    {
        proof {
            assert(fv.drop_first().take(b as int).drop_last() =~= fv.drop_first().take(b - 1));
            assert(fv.drop_first().take(b as int).last() == f_rows@[b as int].deep_view());
        }
        let row = pad_row_exec(f_rows[b], w);
        push_table_row(&mut out, &row);
        b += 1;
    }
    proof {
        assert(fv.drop_first().take(f_rows.len() - 1) =~= fv.drop_first());
    }
    let t = trim_end_chars(&out);
    markdown_block(&t)
}


// ---------------------------------------------------------------------------
// Rendering, executed.
// ---------------------------------------------------------------------------

/// `r` and the requests added to `reqs` are what the spec `s` renders.
pub open spec fn renders(old_reqs: Seq<HtmlRequest>, new_reqs: Seq<HtmlRequest>, r: Seq<char>, s: Rendered) -> bool {
    r == s.0 && reqv(new_reqs) == reqv(old_reqs) + s.1
}

fn push_request(reqs: &mut Vec<HtmlRequest>, link: bool, href: &Vec<char>, label: &Vec<char>)
    ensures
        reqv(final(reqs)@) == reqv(old(reqs)@).push((link, href@, label@)),
{
    reqs.push(HtmlRequest { link, href: string_of(href), label: string_of(label) });
    proof {
        assert(reqv(reqs@) =~= reqv(old(reqs)@).push((link, href@, label@)));
    }
}

fn is_container_exec(n: &Vec<char>) -> (r: bool)
    ensures
        r == is_container_name(n@),
{
    eq_str(n, "html") || eq_str(n, "body") || eq_str(n, "main") || eq_str(n, "article") || eq_str(
        n,
        "section",
    ) || eq_str(n, "header") || eq_str(n, "footer") || eq_str(n, "nav") || eq_str(n, "div")
        || eq_str(n, "center") || eq_str(n, "figure") || eq_str(n, "figcaption")
}

fn is_heading_exec(n: &Vec<char>) -> (r: bool)
    ensures
        r == is_heading_name(n@),
{
    eq_str(n, "h1") || eq_str(n, "h2") || eq_str(n, "h3") || eq_str(n, "h4") || eq_str(n, "h5")
        || eq_str(n, "h6")
}

fn is_special_inline_exec(n: &Vec<char>) -> (r: bool)
    ensures
        r == is_special_inline(n@),
{
    eq_str(n, "br") || eq_str(n, "img") || eq_str(n, "image") || eq_str(n, "strong") || eq_str(n, "b")
        || eq_str(n, "em") || eq_str(n, "i") || eq_str(n, "cite") || eq_str(n, "s") || eq_str(
        n,
        "strike",
    ) || eq_str(n, "del") || eq_str(n, "sub") || eq_str(n, "sup") || eq_str(n, "code") || eq_str(
        n,
        "kbd",
    ) || eq_str(n, "samp") || eq_str(n, "a") || eq_str(n, "span") || eq_str(n, "small") || eq_str(
        n,
        "mark",
    ) || eq_str(n, "u")
}

fn hashes_exec(n: usize) -> (r: Vec<char>)
    ensures
        r@ == hashes(n as nat),
{
    let mut out: Vec<char> = Vec::new();
    let mut c: usize = 0;
    while c < n
        invariant
            c <= n,
            out@ == hashes(c as nat),
        decreases n - c,
    {
        out.push('#');
        proof {
            reveal_strlit("#");
            assert(out@ =~= hashes(c as nat) + "#"@);
        }
        c += 1;
    }
    out
}

fn heading_level_exec(n: &Vec<char>) -> (r: usize)
    ensures
        r as nat == heading_level(n@),
        r <= 6,
{
    if n.len() == 2 && n[0] == 'h' && '1' <= n[1] && n[1] <= '6' {
        (n[1] as u32 - '0' as u32) as usize
    } else {
        1
    }
}

fn render_text_markdown(t: &Vec<char>) -> (r: Vec<char>)
    ensures
        r@ == text_markdown(t@),
{
    let nt = normalize_html_text(t);
    escape_markdown_html_text(&nt)
}

fn render_children_blocks(ev: &Vec<HtmlEvent>, j: usize, md: RenderMode, ans: &Vec<Option<String>>, reqs: &mut Vec<HtmlRequest>) -> (r: Vec<char>)
    ensures
        renders(old(reqs)@, final(reqs)@, r@, r_children_blocks(evv(ev@), j as int, md, ansv(ans@), old(reqs)@.len() as int)),
    decreases ev.len() - j, 50int,
{
    let ghost e = evv(ev@);
    let ghost a = ansv(ans@);
    let ghost start = reqv(reqs@);
    let ghost full = r_children_blocks(e, j as int, md, a, reqs@.len() as int);
    let mut out: Vec<char> = Vec::new();
    let mut p = j;
    proof {
        assert(reqv(reqs@) + Seq::<ReqView>::empty() =~= reqv(reqs@));
        assert(start + full.1 =~= reqv(reqs@) + full.1);
    }
    while has_child_at_exec(ev, p)
        invariant
            j <= p,
            e == evv(ev@),
            a == ansv(ans@),
            full == r_children_blocks(e, j as int, md, a, old(reqs)@.len() as int),
            start == reqv(old(reqs)@),
            full.0 == out@ + r_children_blocks(e, p as int, md, a, reqs@.len() as int).0,
            start + full.1 == reqv(reqs@) + r_children_blocks(e, p as int, md, a, reqs@.len() as int).1,
        decreases ev.len() - p,
    {
        let ghost before_out = out@;
        let ghost before_reqs = reqv(reqs@);
        let ghost k = reqs@.len() as int;
        let kind = kind_exec(ev, p);
        if kind == 2 {
            let t = text_exec(ev, p);
            let m = markdown_block(&render_text_markdown(&t));
            push_all(&mut out, &m);
        } else if kind == 1 {
            let b = render_element_block(ev, p, md, ans, reqs);
            push_all(&mut out, &b);
        }
        let n = skip_exec(ev, p);
        proof {
            let first: Rendered = if kind_at(e, p as int) == 2 {
                (md_block(text_markdown(text_at(e, p as int))), Seq::empty())
            } else if kind_at(e, p as int) == 1 {
                r_element_block(e, p as int, md, a, k)
            } else {
                (Seq::empty(), Seq::empty())
            };
            assert(out@ == before_out + first.0);
            assert(reqv(reqs@) == before_reqs + first.1);
            if n <= p || n > ev.len() {
                assert(r_children_blocks(e, p as int, md, a, k) == first);
            } else {
                let rest = r_children_blocks(e, n as int, md, a, k + first.1.len());
                assert(r_children_blocks(e, p as int, md, a, k) == (first.0 + rest.0, first.1 + rest.1));
                assert(full.0 == out@ + rest.0);
                assert(start + full.1 =~= reqv(reqs@) + rest.1);
            }
        }
        if n <= p || n > ev.len() {
            proof {
                assert(full.0 =~= out@);
                assert(start + full.1 =~= reqv(reqs@));
            }
            return out;
        }
        p = n;
    }
    proof {
        assert(full.0 =~= out@);
        assert(start + full.1 =~= reqv(reqs@));
    }
    out
}


fn render_inline_raw(ev: &Vec<HtmlEvent>, j: usize, md: RenderMode, ans: &Vec<Option<String>>, reqs: &mut Vec<HtmlRequest>) -> (r: Vec<char>)
    ensures
        renders(old(reqs)@, final(reqs)@, r@, r_inline_raw(evv(ev@), j as int, md, ansv(ans@), old(reqs)@.len() as int)),
    decreases ev.len() - j, 50int,
{
    let ghost e = evv(ev@);
    let ghost a = ansv(ans@);
    let ghost start = reqv(reqs@);
    let ghost full = r_inline_raw(e, j as int, md, a, reqs@.len() as int);
    let mut out: Vec<char> = Vec::new();
    let mut p = j;
    proof {
        assert(start + full.1 =~= reqv(reqs@) + full.1);
    }
    while has_child_at_exec(ev, p)
        invariant
            j <= p,
            e == evv(ev@),
            a == ansv(ans@),
            full == r_inline_raw(e, j as int, md, a, old(reqs)@.len() as int),
            start == reqv(old(reqs)@),
            full.0 == out@ + r_inline_raw(e, p as int, md, a, reqs@.len() as int).0,
            start + full.1 == reqv(reqs@) + r_inline_raw(e, p as int, md, a, reqs@.len() as int).1,
        decreases ev.len() - p,
    {
        let ghost before_out = out@;
        let ghost before_reqs = reqv(reqs@);
        let ghost k = reqs@.len() as int;
        let kind = kind_exec(ev, p);
        if kind == 2 {
            let t = text_exec(ev, p);
            let m = render_text_markdown(&t);
            push_all(&mut out, &m);
        } else if kind == 1 {
            let b = render_element_inline(ev, p, md, ans, reqs);
            push_all(&mut out, &b);
        }
        let n = skip_exec(ev, p);
        proof {
            let first: Rendered = if kind_at(e, p as int) == 2 {
                (text_markdown(text_at(e, p as int)), Seq::empty())
            } else if kind_at(e, p as int) == 1 {
                r_element_inline(e, p as int, md, a, k)
            } else {
                (Seq::empty(), Seq::empty())
            };
            assert(out@ == before_out + first.0);
            assert(reqv(reqs@) == before_reqs + first.1);
            if n <= p || n > ev.len() {
                assert(r_inline_raw(e, p as int, md, a, k) == first);
            } else {
                let rest = r_inline_raw(e, n as int, md, a, k + first.1.len());
                assert(r_inline_raw(e, p as int, md, a, k) == (first.0 + rest.0, first.1 + rest.1));
                assert(full.0 == out@ + rest.0);
                assert(start + full.1 =~= reqv(reqs@) + rest.1);
            }
        }
        if n <= p || n > ev.len() {
            proof {
                assert(full.0 =~= out@);
                assert(start + full.1 =~= reqv(reqs@));
            }
            return out;
        }
        p = n;
    }
    proof {
        assert(full.0 =~= out@);
        assert(start + full.1 =~= reqv(reqs@));
    }
    out
}

fn render_children_inline(ev: &Vec<HtmlEvent>, i: usize, md: RenderMode, ans: &Vec<Option<String>>, reqs: &mut Vec<HtmlRequest>) -> (r: Vec<char>)
    ensures
        renders(old(reqs)@, final(reqs)@, r@, r_children_inline(evv(ev@), i as int, md, ansv(ans@), old(reqs)@.len() as int)),
    decreases ev.len() - i, 2int,
{
    if i >= ev.len() {
        proof {
            assert(reqv(reqs@) + Seq::<ReqView>::empty() =~= reqv(reqs@));
        }
        return Vec::new();
    }
    let raw = render_inline_raw(ev, i + 1, md, ans, reqs);
    clean_inline_markdown(&raw)
}

fn render_image(ev: &Vec<HtmlEvent>, i: usize, md: RenderMode, ans: &Vec<Option<String>>, reqs: &mut Vec<HtmlRequest>) -> (r: Vec<char>)
    ensures
        renders(old(reqs)@, final(reqs)@, r@, r_image(evv(ev@), i as int, md, ansv(ans@), old(reqs)@.len() as int)),
{
    let href = match attr_exec(ev, i, ATTR_SRC) {
        Some(h) => Some(h),
        None => match attr_exec(ev, i, ATTR_HREF) {
            Some(h) => Some(h),
            None => attr_exec(ev, i, ATTR_XLINK_HREF),
        },
    };
    let alt0 = match attr_exec(ev, i, ATTR_ALT) {
        Some(al) => clean_block_chars(&al),
        None => Vec::new(),
    };
    let alt = if alt0.len() > 0 { alt0 } else { chars_of("Image") };
    match href {
        None => {
            proof {
                assert(reqv(reqs@) + Seq::<ReqView>::empty() =~= reqv(reqs@));
            }
            Vec::new()
        },
        Some(h) => {
            if !md.ask_assets {
                proof {
                    assert(reqv(reqs@) + Seq::<ReqView>::empty() =~= reqv(reqs@));
                }
                return Vec::new();
            }
            let answer = ans_exec(ans, reqs.len());
            push_request(reqs, false, &h, &Vec::new());
            proof {
                assert(reqv(reqs@) =~= reqv(old(reqs)@) + seq![(false, h@, Seq::<char>::empty())]);
            }
            match answer {
                Some(path) => {
                    let mut out = chars_of("![");
                    let esc = escape_markdown_image_alt(&alt);
                    push_all(&mut out, &esc);
                    push_str(&mut out, "](");
                    push_all(&mut out, &path);
                    push_str(&mut out, ")");
                    out
                },
                None => Vec::new(),
            }
        },
    }
}

fn render_anchor(ev: &Vec<HtmlEvent>, i: usize, md: RenderMode, ans: &Vec<Option<String>>, reqs: &mut Vec<HtmlRequest>) -> (r: Vec<char>)
    ensures
        renders(old(reqs)@, final(reqs)@, r@, r_anchor(evv(ev@), i as int, md, ansv(ans@), old(reqs)@.len() as int)),
    decreases ev.len() - i, 3int,
{
    let label = render_children_inline(ev, i, md, ans, reqs);
    if label.len() == 0 {
        return label;
    }
    match attr_exec(ev, i, ATTR_HREF) {
        None => label,
        Some(h) => {
            if !md.ask_links {
                let hs = string_of(&h);
                let ls = string_of(&label);
                return match crate::books::clean::rewrite_html_link(hs.as_str(), ls.as_str()) {
                    Some(x) => chars_of(x.as_str()),
                    None => label,
                };
            }
            let ghost mid = reqv(reqs@);
            let answer = ans_exec(ans, reqs.len());
            push_request(reqs, true, &h, &label);
            proof {
                assert(reqv(reqs@) =~= reqv(old(reqs)@) + (mid.subrange(old(reqs)@.len() as int, mid.len() as int)).push((true, h@, label@)));
            }
            match answer {
                Some(x) => x,
                None => label,
            }
        },
    }
}

fn render_inline_nonblock(ev: &Vec<HtmlEvent>, i: usize, md: RenderMode, ans: &Vec<Option<String>>, reqs: &mut Vec<HtmlRequest>) -> (r: Vec<char>)
    ensures
        renders(old(reqs)@, final(reqs)@, r@, r_inline_nonblock(evv(ev@), i as int, md, ansv(ans@), old(reqs)@.len() as int)),
    decreases ev.len() - i, 20int,
{
    let n = text_exec(ev, i);
    if eq_str(&n, "br") {
        proof {
            assert(reqv(reqs@) + Seq::<ReqView>::empty() =~= reqv(reqs@));
        }
        chars_of("\n")
    } else if eq_str(&n, "img") || eq_str(&n, "image") {
        render_image(ev, i, md, ans, reqs)
    } else if eq_str(&n, "strong") || eq_str(&n, "b") {
        let c = render_children_inline(ev, i, md, ans, reqs);
        wrap_inline("**", &c)
    } else if eq_str(&n, "em") || eq_str(&n, "i") || eq_str(&n, "cite") {
        let c = render_children_inline(ev, i, md, ans, reqs);
        wrap_inline("*", &c)
    } else if eq_str(&n, "s") || eq_str(&n, "strike") || eq_str(&n, "del") {
        let c = render_children_inline(ev, i, md, ans, reqs);
        wrap_inline("~~", &c)
    } else if eq_str(&n, "sub") {
        let c = render_children_inline(ev, i, md, ans, reqs);
        let mut out = chars_of("<sub>");
        push_all(&mut out, &c);
        push_str(&mut out, "</sub>");
        out
    } else if eq_str(&n, "sup") {
        let c = render_children_inline(ev, i, md, ans, reqs);
        let mut out = chars_of("<sup>");
        push_all(&mut out, &c);
        push_str(&mut out, "</sup>");
        out
    } else if eq_str(&n, "code") || eq_str(&n, "kbd") || eq_str(&n, "samp") {
        proof {
            assert(reqv(reqs@) + Seq::<ReqView>::empty() =~= reqv(reqs@));
        }
        inline_code(&node_text_exec(ev, i))
    } else if eq_str(&n, "a") {
        render_anchor(ev, i, md, ans, reqs)
    } else {
        render_children_inline(ev, i, md, ans, reqs)
    }
}

fn render_element_inline(ev: &Vec<HtmlEvent>, i: usize, md: RenderMode, ans: &Vec<Option<String>>, reqs: &mut Vec<HtmlRequest>) -> (r: Vec<char>)
    ensures
        renders(old(reqs)@, final(reqs)@, r@, r_element_inline(evv(ev@), i as int, md, ansv(ans@), old(reqs)@.len() as int)),
    decreases ev.len() - i, 40int,
{
    let n = text_exec(ev, i);
    if is_ignored_html_element(&n) {
        proof {
            assert(reqv(reqs@) + Seq::<ReqView>::empty() =~= reqv(reqs@));
        }
        Vec::new()
    } else if is_special_inline_exec(&n) {
        render_inline_nonblock(ev, i, md, ans, reqs)
    } else if is_block_html_element(&n) {
        let b = render_element_block(ev, i, md, ans, reqs);
        let t = trim_chars(&b);
        proof {
            reveal_strlit("\n\n");
        }
        replace_str(&t, "\n\n", "\n")
    } else {
        render_children_inline(ev, i, md, ans, reqs)
    }
}

fn render_container(ev: &Vec<HtmlEvent>, i: usize, md: RenderMode, ans: &Vec<Option<String>>, reqs: &mut Vec<HtmlRequest>) -> (r: Vec<char>)
    ensures
        renders(old(reqs)@, final(reqs)@, r@, r_container(evv(ev@), i as int, md, ansv(ans@), old(reqs)@.len() as int)),
    decreases ev.len() - i, 10int,
{
    if i >= ev.len() {
        proof {
            assert(reqv(reqs@) + Seq::<ReqView>::empty() =~= reqv(reqs@));
        }
        return Vec::new();
    }
    if !has_block_child_exec(ev, i + 1) {
        let c = render_children_inline(ev, i, md, ans, reqs);
        return markdown_block(&c);
    }
    let ghost k0 = reqs@.len() as int;
    let b = render_children_blocks(ev, i + 1, md, ans, reqs);
    if trim_chars(&b).len() > 0 {
        return b;
    }
    let ghost sb = r_children_blocks(evv(ev@), i + 1, md, ansv(ans@), k0);
    let ghost mid = reqs@;
    proof {
        assert(reqv(mid).len() == mid.len());
        assert(mid.len() == k0 + sb.1.len());
    }
    let c = render_children_inline(ev, i, md, ans, reqs);
    proof {
        let sc = r_children_inline(evv(ev@), i as int, md, ansv(ans@), k0 + sb.1.len());
        assert(reqv(reqs@) =~= reqv(old(reqs)@) + (sb.1 + sc.1));
    }
    markdown_block(&c)
}

fn render_paragraph(ev: &Vec<HtmlEvent>, i: usize, md: RenderMode, ans: &Vec<Option<String>>, reqs: &mut Vec<HtmlRequest>) -> (r: Vec<char>)
    ensures
        renders(old(reqs)@, final(reqs)@, r@, r_paragraph(evv(ev@), i as int, md, ansv(ans@), old(reqs)@.len() as int)),
    decreases ev.len() - i, 10int,
{
    let text = render_children_inline(ev, i, md, ans, reqs);
    if trim_chars(&text).len() == 0 {
        return Vec::new();
    }
    if is_decorative_separator(&text) {
        return markdown_block(&chars_of("---"));
    }
    match styled_book_heading_level(ev, i, &text) {
        Some(level) => {
            let mut h = hashes_exec(level);
            push_str(&mut h, " ");
            let stripped = strip_outer_markdown_emphasis(&text);
            push_all(&mut h, &stripped);
            markdown_block(&h)
        },
        None => markdown_block(&text),
    }
}

fn quote_lines(body: &Vec<char>) -> (r: Vec<char>)
    ensures
        r@ == join(lines(trim(body@)).map_values(|l: Seq<char>| quote_line(l)), "\n"@),
{
    let t = trim_chars(body);
    let ls = lines_exec(&t);
    let mut out: Vec<Vec<char>> = Vec::new();
    let mut c: usize = 0;
    while c < ls.len()
        invariant
            c <= ls.len(),
            ls.deep_view() == lines(trim(body@)),
            out.deep_view() == ls.deep_view().take(c as int).map_values(|l: Seq<char>| quote_line(l)),
        decreases ls.len() - c,
    {
        proof {
            crate::text::lemma_chars_deep(&ls@[c as int]);
        }
        let l = &ls[c];
        let q = if trim_chars(l).len() == 0 {
            chars_of(">")
        } else {
            let mut x = chars_of("> ");
            let te = trim_end_chars(l);
            push_all(&mut x, &te);
            x
        };
        let ghost before = out.deep_view();
        let ghost qv = q@;
        let ghost before_v = out@;
        out.push(q);
        proof {
            assert forall|m: int| 0 <= m < before.len() implies #[trigger] out@[m].deep_view() == before[m] by {
                assert(out@[m] == before_v[m]);
            }
            crate::text::lemma_push_deep(before, &out, qv);
            assert(ls.deep_view().take(c + 1) =~= ls.deep_view().take(c as int).push(ls.deep_view()[c as int]));
            assert(out.deep_view() =~= ls.deep_view().take(c + 1).map_values(|l: Seq<char>| quote_line(l)));
        }
        c += 1;
    }
    proof {
        assert(ls.deep_view().take(ls.len() as int) =~= ls.deep_view());
    }
    let nl = chars_of("\n");
    join_exec(&out, &nl)
}

fn render_blockquote(ev: &Vec<HtmlEvent>, i: usize, md: RenderMode, ans: &Vec<Option<String>>, reqs: &mut Vec<HtmlRequest>) -> (r: Vec<char>)
    ensures
        renders(old(reqs)@, final(reqs)@, r@, r_blockquote(evv(ev@), i as int, md, ansv(ans@), old(reqs)@.len() as int)),
    decreases ev.len() - i, 10int,
{
    if i >= ev.len() {
        proof {
            assert(reqv(reqs@) + Seq::<ReqView>::empty() =~= reqv(reqs@));
        }
        return Vec::new();
    }
    let ghost k0 = reqs@.len() as int;
    let b = render_children_blocks(ev, i + 1, md, ans, reqs);
    let ghost sb = r_children_blocks(evv(ev@), i + 1, md, ansv(ans@), k0);
    let body = if trim_chars(&b).len() == 0 {
        let ghost mid = reqs@;
        proof {
            assert(reqv(mid).len() == mid.len());
            assert(mid.len() == k0 + sb.1.len());
        }
        let c = render_children_inline(ev, i, md, ans, reqs);
        proof {
            let sc = r_children_inline(evv(ev@), i as int, md, ansv(ans@), k0 + sb.1.len());
            assert(reqv(reqs@) =~= reqv(old(reqs)@) + (sb.1 + sc.1));
        }
        c
    } else {
        b
    };
    let q = quote_lines(&body);
    markdown_block(&q)
}

fn render_pre(ev: &Vec<HtmlEvent>, i: usize) -> (r: Vec<char>)
    ensures
        r@ == pre_block_spec(evv(ev@), i as int),
{
    let nl = vec!['\n'];
    proof {
        assert(nl@ =~= seq!['\n']);
    }
    let t = trim_set_chars(&node_text_exec(ev, i), &nl);
    if t.len() == 0 {
        return Vec::new();
    }
    let mut x = chars_of("```\n");
    push_all(&mut x, &t);
    push_str(&mut x, "\n```");
    markdown_block(&x)
}


fn push_line(v: &mut Vec<Vec<char>>, x: Vec<char>)
    ensures
        final(v).deep_view() == old(v).deep_view().push(x@),
{
    let ghost before = v.deep_view();
    let ghost xv = x@;
    v.push(x);
    proof {
        assert forall|m: int| 0 <= m < before.len() implies #[trigger] v@[m].deep_view() == before[m] by {
            assert(v@[m] == old(v)@[m]);
        }
        crate::text::lemma_push_deep(before, v, xv);
    }
}

fn render_list_item(ev: &Vec<HtmlEvent>, i: usize, md: RenderMode, ans: &Vec<Option<String>>, reqs: &mut Vec<HtmlRequest>) -> (r: Vec<char>)
    ensures
        renders(old(reqs)@, final(reqs)@, r@, r_list_item(evv(ev@), i as int, md, ansv(ans@), old(reqs)@.len() as int)),
    decreases ev.len() - i, 4int,
{
    if i >= ev.len() {
        proof {
            assert(reqv(reqs@) + Seq::<ReqView>::empty() =~= reqv(reqs@));
        }
        return Vec::new();
    }
    let ghost e = evv(ev@);
    let ghost a = ansv(ans@);
    let ghost start = reqv(reqs@);
    let ghost full = r_list_item_from(e, i + 1, Seq::empty(), Seq::empty(), md, a, reqs@.len() as int);
    let mut parts: Vec<Vec<char>> = Vec::new();
    let mut inline: Vec<char> = Vec::new();
    let mut p = i + 1;
    proof {
        assert(parts.deep_view() =~= Seq::<Seq<char>>::empty());
        assert(inline@ =~= Seq::<char>::empty());
        assert(start + full.2 =~= reqv(reqs@) + full.2);
    }
    while has_child_at_exec(ev, p)
        invariant_except_break
            ({
                let cur = r_list_item_from(e, p as int, parts.deep_view(), inline@, md, a, reqs@.len() as int);
                &&& full.0 == cur.0
                &&& full.1 == cur.1
                &&& start + full.2 == reqv(reqs@) + cur.2
            }),
        invariant
            i < p,
            i < ev.len(),
            e == evv(ev@),
            a == ansv(ans@),
            full == r_list_item_from(e, i + 1, Seq::empty(), Seq::empty(), md, a, old(reqs)@.len() as int),
            start == reqv(old(reqs)@),
        ensures
            full.0 == parts.deep_view(),
            full.1 == inline@,
            start + full.2 == reqv(reqs@),
        decreases ev.len() - p,
    {
        let ghost bp = parts.deep_view();
        let ghost bi = inline@;
        let ghost br = reqv(reqs@);
        let ghost k = reqs@.len() as int;
        let kind = kind_exec(ev, p);
        if kind == 2 {
            let t = text_exec(ev, p);
            let m = render_text_markdown(&t);
            push_all(&mut inline, &m);
        } else if kind == 1 {
            let name = text_exec(ev, p);
            if is_block_html_element(&name) {
                let t = clean_inline_markdown(&inline);
                if t.len() > 0 {
                    push_line(&mut parts, t);
                    inline = Vec::new();
                }
                let b = render_element_block(ev, p, md, ans, reqs);
                let tb = trim_chars(&b);
                if tb.len() > 0 {
                    push_line(&mut parts, tb);
                }
            } else {
                let x = render_element_inline(ev, p, md, ans, reqs);
                push_all(&mut inline, &x);
            }
        }
        let n = skip_exec(ev, p);
        proof {
            let step = if kind_at(e, p as int) == 2 {
                (bp, bi + text_markdown(text_at(e, p as int)), Seq::<ReqView>::empty())
            } else if kind_at(e, p as int) == 1 {
                if is_block_name(text_at(e, p as int)) {
                    let t = clean_inline_spec(bi);
                    let p1 = if t.len() > 0 { bp.push(t) } else { bp };
                    let i1 = if t.len() > 0 { Seq::<char>::empty() } else { bi };
                    let b = r_element_block(e, p as int, md, a, k);
                    let p2 = if trim(b.0).len() > 0 { p1.push(trim(b.0)) } else { p1 };
                    (p2, i1, b.1)
                } else {
                    let x = r_element_inline(e, p as int, md, a, k);
                    (bp, bi + x.0, x.1)
                }
            } else {
                (bp, bi, Seq::<ReqView>::empty())
            };
            assert(parts.deep_view() == step.0);
            assert(inline@ == step.1);
            assert(reqv(reqs@) == br + step.2);
            if n <= p || n > ev.len() {
                assert(r_list_item_from(e, p as int, bp, bi, md, a, k) == step);
            } else {
                let rest = r_list_item_from(e, n as int, step.0, step.1, md, a, k + step.2.len());
                assert(r_list_item_from(e, p as int, bp, bi, md, a, k) == (rest.0, rest.1, step.2 + rest.2));
                assert(start + full.2 =~= reqv(reqs@) + rest.2);
            }
        }
        if n <= p || n > ev.len() {
            proof {
                assert(start + full.2 =~= reqv(reqs@));
            }
            break;
        }
        p = n;
    }
    let t = clean_inline_markdown(&inline);
    if t.len() > 0 {
        push_line(&mut parts, t);
    }
    let nl = chars_of("\n");
    join_exec(&parts, &nl)
}


fn item_lines_exec(item: &Vec<char>, prefix: &Vec<char>) -> (r: Vec<Vec<char>>)
    ensures
        r.deep_view() == item_lines(item@, prefix@),
{
    let ls = lines_exec(item);
    let mut out: Vec<Vec<char>> = Vec::new();
    let mut c: usize = 0;
    while c < ls.len()
        invariant
            c <= ls.len(),
            ls.deep_view() == lines(item@),
            out.deep_view() == item_lines(item@, prefix@).take(c as int),
        decreases ls.len() - c,
    {
        proof {
            crate::text::lemma_chars_deep(&ls@[c as int]);
            crate::text::lemma_chars_deep(&ls@[0]);
        }
        let x = if c == 0 {
            let mut x = prefix.clone();
            let t = trim_chars(&ls[0]);
            push_all(&mut x, &t);
            x
        } else {
            let mut x = chars_of("  ");
            let t = trim_end_chars(&ls[c]);
            push_all(&mut x, &t);
            x
        };
        push_line(&mut out, x);
        proof {
            assert(out.deep_view() =~= item_lines(item@, prefix@).take(c + 1));
        }
        c += 1;
    }
    proof {
        assert(item_lines(item@, prefix@).take(ls.len() as int) =~= item_lines(item@, prefix@));
    }
    out
}

fn push_lines(v: &mut Vec<Vec<char>>, xs: Vec<Vec<char>>)
    ensures
        final(v).deep_view() == old(v).deep_view() + xs.deep_view(),
{
    let mut c: usize = 0;
    let ghost start = v.deep_view();
    proof {
        assert(xs.deep_view().take(0) =~= Seq::<Seq<char>>::empty());
        assert(start + xs.deep_view().take(0) =~= start);
    }
    while c < xs.len()
        invariant
            c <= xs.len(),
            v.deep_view() == start + xs.deep_view().take(c as int),
        decreases xs.len() - c,
    {
        proof {
            crate::text::lemma_chars_deep(&xs@[c as int]);
        }
        push_line(v, xs[c].clone());
        proof {
            assert(v.deep_view() =~= start + xs.deep_view().take(c + 1));
        }
        c += 1;
    }
    proof {
        assert(xs.deep_view().take(xs.len() as int) =~= xs.deep_view());
    }
}

/// The item at `p` when it is an `li`, and the lines it adds.
pub open spec fn list_entry(ev: Seq<EvView>, p: int, ordered: bool, index: nat, md: RenderMode, ans: Seq<Option<Seq<char>>>, k: int) -> (Seq<Seq<char>>, Seq<ReqView>, nat) {
    let is_li = kind_at(ev, p) == 1 && text_at(ev, p) == "li"@;
    let item: Rendered = if is_li { r_list_item(ev, p, md, ans, k) } else { (Seq::empty(), Seq::empty()) };
    let here = if is_li && item.0.len() > 0 { item_lines(item.0, list_prefix(ordered, index)) } else { Seq::empty() };
    let next_index = if is_li && item.0.len() > 0 { index + 1 } else { index };
    (here, item.1, next_index)
}

proof fn lemma_list_items_step(ev: Seq<EvView>, p: int, ordered: bool, index: nat, md: RenderMode, ans: Seq<Option<Seq<char>>>, k: int)
    requires
        0 <= p,
        has_child_at(ev, p),
    ensures
        ({
            let st = list_entry(ev, p, ordered, index, md, ans, k);
            let n = skip(ev, p);
            &&& (n <= p || n > ev.len()) ==> r_list_items_from(ev, p, ordered, index, md, ans, k) == (st.0, st.1)
            &&& !(n <= p || n > ev.len()) ==> r_list_items_from(ev, p, ordered, index, md, ans, k) == (
                st.0 + r_list_items_from(ev, n, ordered, st.2, md, ans, k + st.1.len()).0,
                st.1 + r_list_items_from(ev, n, ordered, st.2, md, ans, k + st.1.len()).1,
            )
        }),
{
}

fn render_list_entry(
    ev: &Vec<HtmlEvent>,
    p: usize,
    ordered: bool,
    index: usize,
    md: RenderMode,
    ans: &Vec<Option<String>>,
    reqs: &mut Vec<HtmlRequest>,
    lines_out: &mut Vec<Vec<char>>,
) -> (next: usize)
    requires
        p < ev.len(),
        index < usize::MAX,
    ensures
        ({
            let st = list_entry(evv(ev@), p as int, ordered, index as nat, md, ansv(ans@), old(reqs)@.len() as int);
            &&& final(lines_out).deep_view() == old(lines_out).deep_view() + st.0
            &&& reqv(final(reqs)@) == reqv(old(reqs)@) + st.1
            &&& next as nat == st.2
            &&& next <= index + 1
        }),
    decreases ev.len() - p, 9int,
{
    let is_li = kind_exec(ev, p) == 1 && eq_str(&text_exec(ev, p), "li");
    let item: Vec<char> = if is_li { render_list_item(ev, p, md, ans, reqs) } else {
        proof {
            assert(reqv(reqs@) + Seq::<ReqView>::empty() =~= reqv(reqs@));
        }
        Vec::new()
    };
    if is_li && item.len() > 0 {
        let prefix = if ordered {
            let mut x = decimal_exec(index as u64);
            push_str(&mut x, ". ");
            x
        } else {
            chars_of("- ")
        };
        let ls = item_lines_exec(&item, &prefix);
        push_lines(lines_out, ls);
        index + 1
    } else {
        proof {
            assert(lines_out.deep_view() + Seq::<Seq<char>>::empty() =~= lines_out.deep_view());
        }
        index
    }
}

fn render_list(ev: &Vec<HtmlEvent>, i: usize, ordered: bool, md: RenderMode, ans: &Vec<Option<String>>, reqs: &mut Vec<HtmlRequest>) -> (r: Vec<char>)
    ensures
        renders(old(reqs)@, final(reqs)@, r@, r_list(evv(ev@), i as int, ordered, md, ansv(ans@), old(reqs)@.len() as int)),
    decreases ev.len() - i, 10int,
{
    if i >= ev.len() {
        proof {
            assert(reqv(reqs@) + Seq::<ReqView>::empty() =~= reqv(reqs@));
        }
        return Vec::new();
    }
    let ghost e = evv(ev@);
    let ghost a = ansv(ans@);
    let ghost start = reqv(reqs@);
    let ghost full = r_list_items_from(e, i + 1, ordered, 1, md, a, reqs@.len() as int);
    let mut lines_out: Vec<Vec<char>> = Vec::new();
    let mut index: usize = 1;
    let mut p = i + 1;
    proof {
        assert(lines_out.deep_view() + full.0 =~= full.0);
        assert(start + full.1 =~= reqv(reqs@) + full.1);
    }
    while has_child_at_exec(ev, p)
        invariant_except_break
            1 <= index <= p,
            ({
                let cur = r_list_items_from(e, p as int, ordered, index as nat, md, a, reqs@.len() as int);
                &&& full.0 == lines_out.deep_view() + cur.0
                &&& start + full.1 == reqv(reqs@) + cur.1
            }),
        invariant
            i < p,
            i < ev.len(),
            e == evv(ev@),
            a == ansv(ans@),
            full == r_list_items_from(e, i + 1, ordered, 1, md, a, old(reqs)@.len() as int),
            start == reqv(old(reqs)@),
        ensures
            full.0 == lines_out.deep_view(),
            start + full.1 == reqv(reqs@),
        decreases ev.len() - p,
    {
        let ghost bl = lines_out.deep_view();
        let ghost br = reqv(reqs@);
        let ghost k = reqs@.len() as int;
        let ghost bidx = index as nat;
        let next_index = render_list_entry(ev, p, ordered, index, md, ans, reqs, &mut lines_out);
        let n = skip_exec(ev, p);
        proof {
            lemma_list_items_step(e, p as int, ordered, bidx, md, a, k);
            let st = list_entry(e, p as int, ordered, bidx, md, a, k);
            if n <= p || n > ev.len() {
                assert(full.0 =~= lines_out.deep_view());
                assert(start + full.1 =~= reqv(reqs@));
            } else {
                let rest = r_list_items_from(e, n as int, ordered, st.2, md, a, k + st.1.len());
                assert(full.0 =~= lines_out.deep_view() + rest.0);
                assert(start + full.1 =~= reqv(reqs@) + rest.1);
            }
        }
        index = next_index;
        if n <= p || n > ev.len() {
            break;
        }
        p = n;
    }
    let nl = chars_of("\n");
    let joined = join_exec(&lines_out, &nl);
    markdown_block(&joined)
}

fn render_cells(ev: &Vec<HtmlEvent>, j: usize, md: RenderMode, ans: &Vec<Option<String>>, reqs: &mut Vec<HtmlRequest>) -> (r: Vec<Vec<char>>)
    ensures
        ({
            let s = r_cells_from(evv(ev@), j as int, md, ansv(ans@), old(reqs)@.len() as int);
            &&& r.deep_view() == s.0
            &&& reqv(final(reqs)@) == reqv(old(reqs)@) + s.1
        }),
    decreases ev.len() - j, 50int,
{
    let ghost e = evv(ev@);
    let ghost a = ansv(ans@);
    let ghost start = reqv(reqs@);
    let ghost full = r_cells_from(e, j as int, md, a, reqs@.len() as int);
    let mut cells: Vec<Vec<char>> = Vec::new();
    let mut p = j;
    proof {
        assert(cells.deep_view() + full.0 =~= full.0);
        assert(start + full.1 =~= reqv(reqs@) + full.1);
    }
    while has_child_at_exec(ev, p)
        invariant_except_break
            ({
                let cur = r_cells_from(e, p as int, md, a, reqs@.len() as int);
                &&& full.0 == cells.deep_view() + cur.0
                &&& start + full.1 == reqv(reqs@) + cur.1
            }),
        invariant
            j <= p,
            e == evv(ev@),
            a == ansv(ans@),
            full == r_cells_from(e, j as int, md, a, old(reqs)@.len() as int),
            start == reqv(old(reqs)@),
        ensures
            full.0 == cells.deep_view(),
            start + full.1 == reqv(reqs@),
        decreases ev.len() - p,
    {
        let ghost bc = cells.deep_view();
        let ghost br = reqv(reqs@);
        let ghost k = reqs@.len() as int;
        let name = text_exec(ev, p);
        let is_cell = kind_exec(ev, p) == 1 && (eq_str(&name, "td") || eq_str(&name, "th"));
        if is_cell {
            let c = render_children_inline(ev, p, md, ans, reqs);
            push_line(&mut cells, c);
        }
        let n = skip_exec(ev, p);
        proof {
            let cell: Rendered = if is_cell { r_children_inline(e, p as int, md, a, k) } else { (Seq::empty(), Seq::empty()) };
            let here = if is_cell { seq![cell.0] } else { Seq::<Seq<char>>::empty() };
            assert(cells.deep_view() =~= bc + here);
            if !is_cell {
                assert(reqv(reqs@) =~= br + cell.1);
            }
            if n <= p || n > ev.len() {
                assert(full.0 =~= cells.deep_view());
                assert(start + full.1 =~= reqv(reqs@));
            } else {
                let rest = r_cells_from(e, n as int, md, a, k + cell.1.len());
                assert(full.0 =~= cells.deep_view() + rest.0);
                assert(start + full.1 =~= reqv(reqs@) + rest.1);
            }
        }
        if n <= p || n > ev.len() {
            break;
        }
        p = n;
    }
    cells
}

fn push_rows(v: &mut Vec<Vec<Vec<char>>>, xs: Vec<Vec<Vec<char>>>)
    ensures
        rows_view(final(v)@) == rows_view(old(v)@) + rows_view(xs@),
{
    let mut ys = xs;
    v.append(&mut ys);
    proof {
        assert(rows_view(v@) =~= rows_view(old(v)@) + rows_view(xs@));
    }
}

fn render_rows(ev: &Vec<HtmlEvent>, j: usize, md: RenderMode, ans: &Vec<Option<String>>, reqs: &mut Vec<HtmlRequest>) -> (r: Vec<Vec<Vec<char>>>)
    ensures
        ({
            let s = r_rows_from(evv(ev@), j as int, md, ansv(ans@), old(reqs)@.len() as int);
            &&& rows_view(r@) == s.0
            &&& reqv(final(reqs)@) == reqv(old(reqs)@) + s.1
        }),
    decreases ev.len() - j, 50int,
{
    let ghost e = evv(ev@);
    let ghost a = ansv(ans@);
    let ghost start = reqv(reqs@);
    let ghost full = r_rows_from(e, j as int, md, a, reqs@.len() as int);
    let mut rows: Vec<Vec<Vec<char>>> = Vec::new();
    let mut p = j;
    proof {
        assert(rows_view(rows@) + full.0 =~= full.0);
        assert(start + full.1 =~= reqv(reqs@) + full.1);
    }
    while has_child_at_exec(ev, p)
        invariant_except_break
            ({
                let cur = r_rows_from(e, p as int, md, a, reqs@.len() as int);
                &&& full.0 == rows_view(rows@) + cur.0
                &&& start + full.1 == reqv(reqs@) + cur.1
            }),
        invariant
            j <= p,
            e == evv(ev@),
            a == ansv(ans@),
            full == r_rows_from(e, j as int, md, a, old(reqs)@.len() as int),
            start == reqv(old(reqs)@),
        ensures
            full.0 == rows_view(rows@),
            start + full.1 == reqv(reqs@),
        decreases ev.len() - p,
    {
        let ghost bro = rows_view(rows@);
        let ghost br = reqv(reqs@);
        let ghost k = reqs@.len() as int;
        let name = text_exec(ev, p);
        let kind = kind_exec(ev, p);
        if kind != 1 {
        } else if eq_str(&name, "tr") {
            let cells = render_cells(ev, p + 1, md, ans, reqs);
            if cells.len() > 0 {
                let ghost cv = cells.deep_view();
                rows.push(cells);
                proof {
                    assert(rows_view(rows@) =~= bro + seq![cv]);
                }
            }
        } else if eq_str(&name, "thead") || eq_str(&name, "tbody") || eq_str(&name, "tfoot") || eq_str(&name, "table") {
            let inner = render_rows(ev, p + 1, md, ans, reqs);
            push_rows(&mut rows, inner);
        }
        let n = skip_exec(ev, p);
        proof {
            let nm = text_at(e, p as int);
            let here: (Seq<Seq<Seq<char>>>, Seq<ReqView>) = if kind_at(e, p as int) != 1 {
                (Seq::empty(), Seq::empty())
            } else if nm == "tr"@ {
                let c = r_cells_from(e, p + 1, md, a, k);
                (if c.0.len() > 0 { seq![c.0] } else { Seq::empty() }, c.1)
            } else if nm == "thead"@ || nm == "tbody"@ || nm == "tfoot"@ || nm == "table"@ {
                r_rows_from(e, p + 1, md, a, k)
            } else {
                (Seq::empty(), Seq::empty())
            };
            assert(rows_view(rows@) =~= bro + here.0);
            assert(reqv(reqs@) =~= br + here.1);
            if n <= p || n > ev.len() {
                assert(full.0 =~= rows_view(rows@));
                assert(start + full.1 =~= reqv(reqs@));
            } else {
                let rest = r_rows_from(e, n as int, md, a, k + here.1.len());
                assert(full.0 =~= rows_view(rows@) + rest.0);
                assert(start + full.1 =~= reqv(reqs@) + rest.1);
            }
        }
        if n <= p || n > ev.len() {
            break;
        }
        p = n;
    }
    rows
}

fn render_table(ev: &Vec<HtmlEvent>, i: usize, md: RenderMode, ans: &Vec<Option<String>>, reqs: &mut Vec<HtmlRequest>) -> (r: Vec<char>)
    ensures
        renders(old(reqs)@, final(reqs)@, r@, r_table(evv(ev@), i as int, md, ansv(ans@), old(reqs)@.len() as int)),
    decreases ev.len() - i, 10int,
{
    if i >= ev.len() {
        proof {
            assert(reqv(reqs@) + Seq::<ReqView>::empty() =~= reqv(reqs@));
        }
        return Vec::new();
    }
    let rows = render_rows(ev, i + 1, md, ans, reqs);
    table_markdown_exec(&rows)
}

fn render_element_block(ev: &Vec<HtmlEvent>, i: usize, md: RenderMode, ans: &Vec<Option<String>>, reqs: &mut Vec<HtmlRequest>) -> (r: Vec<char>)
    ensures
        renders(old(reqs)@, final(reqs)@, r@, r_element_block(evv(ev@), i as int, md, ansv(ans@), old(reqs)@.len() as int)),
    decreases ev.len() - i, 30int,
{
    let n = text_exec(ev, i);
    if is_ignored_html_element(&n) {
        proof {
            assert(reqv(reqs@) + Seq::<ReqView>::empty() =~= reqv(reqs@));
        }
        return Vec::new();
    }
    if is_container_exec(&n) {
        return render_container(ev, i, md, ans, reqs);
    }
    if is_heading_exec(&n) {
        let c = render_children_inline(ev, i, md, ans, reqs);
        let mut h = hashes_exec(heading_level_exec(&n));
        push_str(&mut h, " ");
        push_all(&mut h, &c);
        return markdown_block(&h);
    }
    if eq_str(&n, "p") {
        return render_paragraph(ev, i, md, ans, reqs);
    }
    if eq_str(&n, "br") {
        proof {
            assert(reqv(reqs@) + Seq::<ReqView>::empty() =~= reqv(reqs@));
        }
        return chars_of("\n");
    }
    if eq_str(&n, "hr") {
        proof {
            assert(reqv(reqs@) + Seq::<ReqView>::empty() =~= reqv(reqs@));
        }
        return markdown_block(&chars_of("---"));
    }
    if eq_str(&n, "blockquote") {
        return render_blockquote(ev, i, md, ans, reqs);
    }
    if eq_str(&n, "pre") {
        proof {
            assert(reqv(reqs@) + Seq::<ReqView>::empty() =~= reqv(reqs@));
        }
        return render_pre(ev, i);
    }
    if eq_str(&n, "ul") {
        return render_list(ev, i, false, md, ans, reqs);
    }
    if eq_str(&n, "ol") {
        return render_list(ev, i, true, md, ans, reqs);
    }
    if eq_str(&n, "table") {
        return render_table(ev, i, md, ans, reqs);
    }
    if eq_str(&n, "img") || eq_str(&n, "image") {
        let im = render_image(ev, i, md, ans, reqs);
        return markdown_block(&im);
    }
    if eq_str(&n, "li") {
        let c = render_children_inline(ev, i, md, ans, reqs);
        return markdown_block(&c);
    }
    if is_inline_html_element(&n) {
        let x = render_inline_nonblock(ev, i, md, ans, reqs);
        return markdown_block(&x);
    }
    render_container(ev, i, md, ans, reqs)
}

/// The Markdown of a document given as its edges (`render_spec`): the
/// children of its root element as blocks, blank lines reduced. `answers`
/// holds the caller's answers to the requests made so far, in order (a
/// request beyond them is answered "none"); the requests made are added to
/// `requests`, which starts empty.
pub fn render_html_events(ev: &Vec<HtmlEvent>, md: RenderMode, answers: &Vec<Option<String>>, requests: &mut Vec<HtmlRequest>) -> (r: String)
    requires
        old(requests)@.len() == 0,
    ensures
        r@ == render_spec(evv(ev@), md, ansv(answers@)).0,
        reqv(final(requests)@) == render_spec(evv(ev@), md, ansv(answers@)).1,
{
    let b = render_children_blocks(ev, 1, md, answers, requests);
    proof {
        assert(reqv(old(requests)@) =~= Seq::<ReqView>::empty());
        assert(Seq::<ReqView>::empty() + r_children_blocks(evv(ev@), 1, md, ansv(answers@), 0).1 =~= r_children_blocks(evv(ev@), 1, md, ansv(answers@), 0).1);
    }
    string_of(&clean_generated_markdown(&b))
}


// ---------------------------------------------------------------------------
// Parsing.
// ---------------------------------------------------------------------------

impl HtmlEvent {
    /// The opening edge of an element with the looked-up attributes.
    pub fn element(name: &str, attrs: Vec<Option<&str>>) -> (r: HtmlEvent)
        ensures
            ev_view(r) == (1u8, name@, attrs@.map_values(|a: Option<&str>| opt_str(a))),
    {
        let mut out: Vec<Option<Vec<char>>> = Vec::new();
        let mut i: usize = 0;
        while i < attrs.len()
            invariant
                i <= attrs.len(),
                out@.len() == i,
                forall|m: int| 0 <= m < i ==> opt_chars(#[trigger] out@[m]) == opt_str(attrs@[m]),
            decreases attrs.len() - i,
        {
            let a: Option<Vec<char>> = match attrs[i] {
                Some(v) => Some(chars_of(v)),
                None => None,
            };
            out.push(a);
            i += 1;
        }
        let r = HtmlEvent { kind: HtmlKind::Element, text: chars_of(name), attrs: out };
        proof {
            assert(r.attrs@.map_values(|a: Option<Vec<char>>| opt_chars(a)) =~= attrs@.map_values(|a: Option<&str>| opt_str(a)));
        }
        r
    }

    /// The opening edge of a text node.
    pub fn text(t: &str) -> (r: HtmlEvent)
        ensures
            ev_view(r) == (2u8, t@, Seq::<Option<Seq<char>>>::empty()),
    {
        let r = HtmlEvent { kind: HtmlKind::Text, text: chars_of(t), attrs: Vec::new() };
        proof {
            assert(r.attrs@.map_values(|a: Option<Vec<char>>| opt_chars(a)) =~= Seq::<Option<Seq<char>>>::empty());
        }
        r
    }

    /// The opening edge of another node (comment, doctype, …).
    pub fn other() -> (r: HtmlEvent)
        ensures
            ev_view(r) == (3u8, Seq::<char>::empty(), Seq::<Option<Seq<char>>>::empty()),
    {
        let r = HtmlEvent { kind: HtmlKind::Other, text: Vec::new(), attrs: Vec::new() };
        proof {
            assert(r.attrs@.map_values(|a: Option<Vec<char>>| opt_chars(a)) =~= Seq::<Option<Seq<char>>>::empty());
        }
        r
    }

    /// A closing edge.
    pub fn close() -> (r: HtmlEvent)
        ensures
            ev_view(r) == (0u8, Seq::<char>::empty(), Seq::<Option<Seq<char>>>::empty()),
    {
        let r = HtmlEvent { kind: HtmlKind::Close, text: Vec::new(), attrs: Vec::new() };
        proof {
            assert(r.attrs@.map_values(|a: Option<Vec<char>>| opt_chars(a)) =~= Seq::<Option<Seq<char>>>::empty());
        }
        r
    }
}

/// What `scraper::Html::parse_document` makes of a text, read as the edges
/// of its root element's subtree in document order (`traverse`): each
/// element's name with `Element::attr` of each of `attr_names`, each text,
/// every other node, and a closing edge for each.
pub uninterp spec fn spec_html_edges(html: Seq<char>, attr_names: Seq<Seq<char>>) -> Seq<EvView>;

/// `scraper::Html::parse_document`, then the edges of the root element's
/// subtree (`ego_tree` `traverse`), each converted one for one. The result
/// is named; the HTML5 parsing algorithm is not restated.
#[verifier::external_body]
fn parse_html_edges(html: &str, attr_names: &[&str]) -> (r: Vec<HtmlEvent>)
    ensures
        evv(r@) == spec_html_edges(html@, attr_names@.map_values(|a: &str| a@)),
{
    let doc = scraper::Html::parse_document(html);
    doc.root_element().traverse().map(|edge| match edge {
        ego_tree::iter::Edge::Open(n) => match n.value() {
            scraper::Node::Element(e) => HtmlEvent::element(e.name(), attr_names.iter().map(|a| e.attr(a)).collect()),
            scraper::Node::Text(t) => HtmlEvent::text(t),
            _ => HtmlEvent::other(),
        },
        ego_tree::iter::Edge::Close(_) => HtmlEvent::close(),
    }).collect()
}

/// Self-closing tags of elements that are not void in HTML (`<p/>`, `<a
/// id="x"/>`), which an HTML parser would leave open.
pub open spec fn xhtml_self_closing_re() -> Seq<char> {
    "(?is)<(a|abbr|b|bdi|bdo|big|blockquote|body|caption|center|cite|code|dd|del|dfn|div|dt|em|figcaption|figure|font|h[1-6]|html|i|li|main|nav|p|q|s|section|small|span|strong|sub|sup|td|th|title|u)(\\s[^<>]*?)\\s*/>"@
}

/// The attributes the renderer reads, in slot order.
pub open spec fn render_attr_names() -> Seq<Seq<char>> {
    seq!["href"@, "src"@, "xlink:href"@, "alt"@, "class"@, "style"@]
}

/// The edges of an (X)HTML text: self-closing non-void tags opened and
/// closed, then parsed.
pub open spec fn html_events_spec(html: Seq<char>) -> Seq<EvView> {
    spec_html_edges(spec_replace_all(xhtml_self_closing_re(), html, "<$1$2></$1>"@), render_attr_names())
}

pub fn html_events(html: &str) -> (r: Vec<HtmlEvent>)
    ensures
        evv(r@) == html_events_spec(html@),
{
    let normalized = replace_all(
        "(?is)<(a|abbr|b|bdi|bdo|big|blockquote|body|caption|center|cite|code|dd|del|dfn|div|dt|em|figcaption|figure|font|h[1-6]|html|i|li|main|nav|p|q|s|section|small|span|strong|sub|sup|td|th|title|u)(\\s[^<>]*?)\\s*/>",
        html,
        "<$1$2></$1>",
    );
    let names: [&str; 6] = ["href", "src", "xlink:href", "alt", "class", "style"];
    let r = parse_html_edges(normalized.as_str(), &names);
    proof {
        assert(names@.map_values(|a: &str| a@) =~= render_attr_names());
    }
    r
}

/// The mode of plain HTML import: images are not resolved and only
/// outside links are kept as links.
pub open spec fn plain_mode() -> RenderMode {
    RenderMode { ask_assets: false, ask_links: false }
}

/// The blocks of an HTML text with images left out and outside links kept
/// (`html_to_blocks` with no asset resolution).
pub open spec fn html_blocks_spec(html: Seq<char>) -> Seq<Seq<char>> {
    crate::books::markdown::markdown_to_blocks_spec(render_spec(html_events_spec(html), plain_mode(), Seq::empty()).0)
}

/// Convert an HTML text to Markdown blocks: headings, paragraphs (styled
/// chapter lines as headings), lists, quotations, code, tables and inline
/// emphasis; images are left out and only outside links stay links.
pub fn html_to_blocks(html: &str) -> (r: Vec<String>)
    ensures
        r.deep_view() == html_blocks_spec(html@),
{
    let ev = html_events(html);
    let answers: Vec<Option<String>> = Vec::new();
    let mut requests: Vec<HtmlRequest> = Vec::new();
    let md = RenderMode { ask_assets: false, ask_links: false };
    let text = render_html_events(&ev, md, &answers, &mut requests);
    proof {
        assert(ansv(answers@) =~= Seq::<Option<Seq<char>>>::empty());
    }
    crate::books::markdown::markdown_to_blocks(text.as_str())
}

/// The blocks of an HTML text rendered with the caller's `answers` to the
/// requests made so far (`render_spec`), and the requests made: the caller
/// answers the first unanswered request and renders again, until every
/// request is answered.
pub fn html_to_blocks_answered(html: &str, md: RenderMode, answers: &Vec<Option<String>>) -> (r: (Vec<String>, Vec<HtmlRequest>))
    ensures
        r.0.deep_view() == crate::books::markdown::markdown_to_blocks_spec(
            render_spec(html_events_spec(html@), md, ansv(answers@)).0,
        ),
        reqv(r.1@) == render_spec(html_events_spec(html@), md, ansv(answers@)).1,
{
    let ev = html_events(html);
    let mut requests: Vec<HtmlRequest> = Vec::new();
    let text = render_html_events(&ev, md, answers, &mut requests);
    (crate::books::markdown::markdown_to_blocks(text.as_str()), requests)
}

} // verus!
