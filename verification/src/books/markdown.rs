//! Markdown and plain-markup sources: splitting a Markdown file into
//! blocks, and finding the first heading or title of a document.
use vstd::prelude::*;
use crate::books::chapters::all_ascii_digits;
use crate::books::clean::{clean_title_chars, clean_title_spec};
use crate::books::pdf_text::{push_split_blocks, split_blocks_spec};
use crate::text::{
    chars_of, find, find_exec, is_digit, join, join_exec, lemma_find_from, lemma_push_deep,
    lines, lines_exec, matches_at, slice, starts_with, starts_with_exec, starts_with_str,
    string_of, trim, trim_chars, trim_end, trim_end_chars, trim_start, trim_start_chars,
    trim_start_set, trim_start_set_chars, eq_str,
};

verus! {

/// A numbered list line (`12. item`): digits, a dot, a space.
pub open spec fn is_ordered_list_line(t: Seq<char>) -> bool {
    match find(t, "."@) {
        Some(k) => k > 0 && all_ascii_digits(t.take(k)) && starts_with(t.skip(k + 1), " "@),
        None => false,
    }
}

/// A line that carries Markdown structure (table row, quote, list item):
/// such lines keep their line breaks when joined.
pub open spec fn is_structured_line(line: Seq<char>) -> bool {
    let t = trim_start(line);
    ||| starts_with(t, "|"@)
    ||| starts_with(t, "> "@)
    ||| t == ">"@
    ||| starts_with(t, "- "@)
    ||| starts_with(t, "* "@)
    ||| starts_with(t, "+ "@)
    ||| is_ordered_list_line(t)
}

/// The lines of one block joined: with line breaks inside a code fence or
/// when a line is structured, else with spaces.
pub open spec fn join_block_lines(ls: Seq<Seq<char>>, in_fence: bool) -> Seq<char> {
    if in_fence || exists|i: int| 0 <= i < ls.len() && is_structured_line(#[trigger] ls[i]) {
        join(ls, "\n"@)
    } else {
        join(ls, " "@)
    }
}

/// The scan state: blocks so far, lines of the open block, inside a fence.
pub type MdState = (Seq<Seq<char>>, Seq<Seq<char>>, bool);

/// One line of the scan: a fence line toggles the fence (closing one ends
/// the block), a blank line outside a fence ends the open block, any other
/// line joins it.
pub open spec fn md_step(st: MdState, line: Seq<char>) -> MdState {
    let (blocks, cur, fence) = st;
    let t = trim_end(line);
    if starts_with(trim_start(t), "```"@) {
        let cur2 = cur.push(t);
        if fence {
            (blocks + split_blocks_spec(join(cur2, "\n"@)), Seq::empty(), false)
        } else {
            (blocks, cur2, true)
        }
    } else if !fence && trim(t).len() == 0 {
        if cur.len() > 0 {
            (blocks + split_blocks_spec(join_block_lines(cur, fence)), Seq::empty(), fence)
        } else {
            st
        }
    } else {
        (blocks, cur.push(t), fence)
    }
}

pub open spec fn md_scan(ls: Seq<Seq<char>>) -> MdState
    decreases ls.len(),
{
    if ls.len() == 0 {
        (Seq::empty(), Seq::empty(), false)
    } else {
        md_step(md_scan(ls.drop_last()), ls.last())
    }
}

/// The blocks of a Markdown text.
pub open spec fn markdown_to_blocks_spec(raw: Seq<char>) -> Seq<Seq<char>> {
    let (blocks, cur, fence) = md_scan(lines(raw));
    if cur.len() > 0 {
        blocks + split_blocks_spec(join_block_lines(cur, fence))
    } else {
        blocks
    }
}

pub fn is_ordered_markdown_list_line(trimmed: &Vec<char>) -> (r: bool)
    ensures
        r == is_ordered_list_line(trimmed@),
{
    let dot = chars_of(".");
    let k = match find_exec(trimmed, &dot) {
        Some(k) => k,
        None => {
            return false;
        },
    };
    proof {
        reveal_strlit(".");
        lemma_find_from(trimmed@, dot@, 0);
        assert(matches_at(trimmed@, dot@, k as int));
    }
    if k == 0 {
        return false;
    }
    let mut i: usize = 0;
    while i < k
        invariant
            i <= k < trimmed.len(),
            find(trimmed@, "."@) == Some(k as int),
            forall|m: int| 0 <= m < i ==> #[trigger] is_digit(trimmed@[m]),
        decreases k - i,
    {
        if !('0' <= trimmed[i] && trimmed[i] <= '9') {
            proof {
                assert(!is_digit(trimmed@.take(k as int)[i as int]));
                assert(!all_ascii_digits(trimmed@.take(k as int)));
                assert(find(trimmed@, "."@) == Some(k as int));
            }
            return false;
        }
        i += 1;
    }
    proof {
        assert forall|m: int| 0 <= m < k implies #[trigger] is_digit(trimmed@.take(k as int)[m]) by {
            assert(trimmed@.take(k as int)[m] == trimmed@[m]);
        }
    }
    let rest = slice(trimmed, k + 1, trimmed.len());
    proof {
        assert(rest@ =~= trimmed@.skip(k + 1));
    }
    starts_with_str(&rest, " ")
}

pub fn is_structured_markdown_line(line: &Vec<char>) -> (r: bool)
    ensures
        r == is_structured_line(line@),
{
    let t = trim_start_chars(line);
    starts_with_str(&t, "|") || starts_with_str(&t, "> ") || eq_str(&t, ">") || starts_with_str(
        &t,
        "- ",
    ) || starts_with_str(&t, "* ") || starts_with_str(&t, "+ ") || is_ordered_markdown_list_line(&t)
}

pub fn join_markdown_block_lines(ls: &Vec<Vec<char>>, in_fence: bool) -> (r: Vec<char>)
    ensures
        r@ == join_block_lines(ls.deep_view(), in_fence),
{
    let mut structured = false;
    let mut i: usize = 0;
    while i < ls.len() && !structured
        invariant
            i <= ls.len(),
            structured ==> exists|m: int| 0 <= m < ls.len() && is_structured_line(#[trigger] ls.deep_view()[m]),
            !structured ==> forall|m: int| 0 <= m < i ==> !is_structured_line(#[trigger] ls.deep_view()[m]),
        decreases ls.len() - i,
    {
        proof {
            crate::text::lemma_chars_deep(&ls@[i as int]);
        }
        if is_structured_markdown_line(&ls[i]) {
            structured = true;
            proof {
                assert(is_structured_line(ls.deep_view()[i as int]));
            }
        }
        i += 1;
    }
    if in_fence || structured {
        let sep = chars_of("\n");
        join_exec(ls, &sep)
    } else {
        let sep = chars_of(" ");
        join_exec(ls, &sep)
    }
}

/// Push a line (its view recorded) onto the open block.
fn push_line(cur: &mut Vec<Vec<char>>, t: Vec<char>)
    ensures
        final(cur).deep_view() == old(cur).deep_view().push(t@),
{
    let ghost before = cur.deep_view();
    let ghost tv = t@;
    cur.push(t);
    proof {
        assert forall|i: int| 0 <= i < before.len() implies #[trigger] cur@[i].deep_view() == before[i] by {
            assert(cur@[i] == old(cur)@[i]);
        }
        lemma_push_deep(before, cur, tv);
    }
}

/// Split a Markdown text into blocks: blank lines separate blocks, code
/// fences stay whole, and the lines of a block are joined with spaces
/// unless the block holds a fence or a structured line.
pub fn markdown_to_blocks(raw: &str) -> (r: Vec<String>)
    ensures
        r.deep_view() == markdown_to_blocks_spec(raw@),
{
    let rc = chars_of(raw);
    let ls = lines_exec(&rc);
    let mut blocks: Vec<String> = Vec::new();
    let mut cur: Vec<Vec<char>> = Vec::new();
    let mut fence = false;
    let mut i: usize = 0;
    proof {
        assert(ls.deep_view().take(0) =~= Seq::<Seq<char>>::empty());
        assert(blocks.deep_view() =~= Seq::<Seq<char>>::empty());
        assert(cur.deep_view() =~= Seq::<Seq<char>>::empty());
    }
    while i < ls.len()
        invariant
            i <= ls.len(),
            ls.deep_view() == lines(raw@),
            md_scan(ls.deep_view().take(i as int)) == (blocks.deep_view(), cur.deep_view(), fence),
        decreases ls.len() - i,
    {
        proof {
            assert(ls.deep_view().take(i + 1).drop_last() =~= ls.deep_view().take(i as int));
            crate::text::lemma_chars_deep(&ls@[i as int]);
            assert(ls.deep_view().take(i + 1).last() == ls@[i as int]@);
        }
        let t = trim_end_chars(&ls[i]);
        let ts = trim_start_chars(&t);
        if starts_with_str(&ts, "```") {
            push_line(&mut cur, t);
            if fence {
                let sep = chars_of("\n");
                let joined = join_exec(&cur, &sep);
                push_split_blocks(&mut blocks, &joined);
                cur = Vec::new();
                fence = false;
                proof {
                    assert(cur.deep_view() =~= Seq::<Seq<char>>::empty());
                }
            } else {
                fence = true;
            }
        } else {
            let tt = trim_chars(&t);
            if !fence && tt.len() == 0 {
                if cur.len() > 0 {
                    let joined = join_markdown_block_lines(&cur, fence);
                    push_split_blocks(&mut blocks, &joined);
                    cur = Vec::new();
                    proof {
                        assert(cur.deep_view() =~= Seq::<Seq<char>>::empty());
                    }
                }
            } else {
                push_line(&mut cur, t);
            }
        }
        i += 1;
    }
    proof {
        assert(ls.deep_view().take(ls.len() as int) =~= ls.deep_view());
    }
    if cur.len() > 0 {
        let joined = join_markdown_block_lines(&cur, fence);
        push_split_blocks(&mut blocks, &joined);
    }
    blocks
}

// ---------------------------------------------------------------------------
// First headings.
// ---------------------------------------------------------------------------

/// The title a `#` heading line names, if the (trimmed) line is one.
pub open spec fn heading_title(line: Seq<char>) -> Option<Seq<char>> {
    let t = trim(line);
    if starts_with(t, "#"@) {
        Some(clean_title_spec(trim(trim_start_set(t, seq!['#']))))
    } else {
        None
    }
}

/// The title of the first heading among `items`.
pub open spec fn first_heading(items: Seq<Seq<char>>) -> Option<Seq<char>>
    decreases items.len(),
{
    if items.len() == 0 {
        None
    } else if heading_title(items[0]) is Some {
        heading_title(items[0])
    } else {
        first_heading(items.drop_first())
    }
}

fn heading_title_exec(line: &Vec<char>) -> (r: Option<Vec<char>>)
    ensures
        match r {
            Some(v) => heading_title(line@) == Some(v@),
            None => heading_title(line@) is None,
        },
{
    let t = trim_chars(line);
    if starts_with_str(&t, "#") {
        let hash = vec!['#'];
        proof {
            assert(hash@ =~= seq!['#']);
        }
        let inner = trim_chars(&trim_start_set_chars(&t, &hash));
        Some(clean_title_chars(&inner))
    } else {
        None
    }
}

fn first_heading_exec(items: &Vec<Vec<char>>) -> (r: Option<Vec<char>>)
    ensures
        match r {
            Some(v) => first_heading(items.deep_view()) == Some(v@),
            None => first_heading(items.deep_view()) is None,
        },
{
    let mut i: usize = 0;
    proof {
        assert(items.deep_view().skip(0) =~= items.deep_view());
    }
    while i < items.len()
        invariant
            i <= items.len(),
            first_heading(items.deep_view()) == first_heading(items.deep_view().skip(i as int)),
        decreases items.len() - i,
    {
        proof {
            crate::text::lemma_chars_deep(&items@[i as int]);
            assert(items.deep_view().skip(i as int)[0] == items@[i as int]@);
            assert(items.deep_view().skip(i as int).drop_first() =~= items.deep_view().skip(i + 1));
        }
        match heading_title_exec(&items[i]) {
            Some(t) => {
                return Some(t);
            },
            None => {},
        }
        i += 1;
    }
    proof {
        assert(items.deep_view().skip(i as int) =~= Seq::<Seq<char>>::empty());
    }
    None
}

/// The title of the first block that is a `#` heading.
pub fn first_heading_block(blocks: &[String]) -> (r: Option<String>)
    ensures
        match r {
            Some(v) => first_heading(blocks@.map_values(|b: String| b@)) == Some(v@),
            None => first_heading(blocks@.map_values(|b: String| b@)) is None,
        },
{
    let mut items: Vec<Vec<char>> = Vec::new();
    let mut i: usize = 0;
    proof {
        assert(items.deep_view() =~= blocks@.map_values(|b: String| b@).take(0));
    }
    while i < blocks.len()
        invariant
            i <= blocks.len(),
            items.deep_view() == blocks@.map_values(|b: String| b@).take(i as int),
        decreases blocks.len() - i,
    {
        let c = chars_of(blocks[i].as_str());
        let ghost before = items.deep_view();
        push_line(&mut items, c);
        proof {
            assert(items.deep_view() =~= blocks@.map_values(|b: String| b@).take(i + 1));
        }
        i += 1;
    }
    proof {
        assert(blocks@.map_values(|b: String| b@).take(blocks.len() as int) =~= blocks@.map_values(|b: String| b@));
    }
    match first_heading_exec(&items) {
        Some(v) => Some(string_of(&v)),
        None => None,
    }
}

/// The title of the first line of a Markdown text that is a `#` heading.
pub fn first_markdown_heading(raw: &str) -> (r: Option<String>)
    ensures
        match r {
            Some(v) => first_heading(lines(raw@)) == Some(v@),
            None => first_heading(lines(raw@)) is None,
        },
{
    let rc = chars_of(raw);
    let ls = lines_exec(&rc);
    match first_heading_exec(&ls) {
        Some(v) => Some(string_of(&v)),
        None => None,
    }
}

} // verus!
