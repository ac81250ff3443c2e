//! EPUB structure: entities and attributes in its XML, paths inside the
//! archive, and the table of contents of its NCX file.
use vstd::prelude::*;
use vstd::utf8::{
    decode_utf8, encode_scalar, encode_utf8, has_width_1_encoding, has_width_2_encoding,
    has_width_3_encoding, is_scalar, last_continuation_byte, leading_byte_width_2,
    leading_byte_width_3, leading_byte_width_4, second_last_continuation_byte,
    third_last_continuation_byte, valid_utf8,
};
use crate::books::clean::{clean_block_chars, clean_block_spec, clean_title_chars, clean_title_spec,
    is_external_href, is_external_href_spec, replace_str, tag_re};
use crate::patterns::{captures, capture_view, spec_captures, replace_all, spec_replace_all, CaptureMatch};
use crate::text::{
    chars_of, is_ws, join, join_exec, lemma_chars_deep, lemma_push_deep, matches_at,
    matches_at_exec, push_all, push_str, replace, rfind, rfind_exec, slice, split_char,
    split_char_exec, string_of, trim, trim_chars, trim_start_set, trim_start_set_chars, trim_end_set,
    trim_end_set_chars, lemma_rfind_to, find, find_exec, lemma_find_from,
};

verus! {

// ---------------------------------------------------------------------------
// Entities.
// ---------------------------------------------------------------------------

/// Whether `c` is an ASCII hexadecimal digit.
pub open spec fn is_hex(c: char) -> bool {
    ('0' <= c && c <= '9') || ('a' <= c && c <= 'f') || ('A' <= c && c <= 'F')
}

/// The value of an ASCII hexadecimal digit.
pub open spec fn hex_value(c: char) -> nat {
    if '0' <= c && c <= '9' {
        (c as u32 - '0' as u32) as nat
    } else if 'a' <= c && c <= 'f' {
        (c as u32 - 'a' as u32 + 10) as nat
    } else {
        (c as u32 - 'A' as u32 + 10) as nat
    }
}

/// Number of characters from `i` on that satisfy `hex` (hexadecimal) or
/// are ASCII digits.
pub open spec fn digit_run(s: Seq<char>, i: int, hex: bool) -> nat
    decreases s.len() - i,
{
    if i < 0 || i >= s.len() {
        0
    } else if (hex && is_hex(s[i])) || (!hex && '0' <= s[i] && s[i] <= '9') {
        1 + digit_run(s, i + 1, hex)
    } else {
        0
    }
}

/// The value of a run of digits in base 16 or 10.
pub open spec fn run_value(d: Seq<char>, hex: bool) -> nat
    decreases d.len(),
{
    if d.len() == 0 {
        0
    } else {
        run_value(d.drop_last(), hex) * (if hex {
            16nat
        } else {
            10nat
        }) + hex_value(d.last())
    }
}

/// The character a numeric value stands for: a Unicode scalar value fitting
/// in `u32`, not a surrogate.
pub open spec fn scalar_of(v: nat) -> Option<char> {
    if v < 0xD800 || (0xE000 <= v && v <= 0x10FFFF) {
        Some(v as char)
    } else {
        None
    }
}

/// A numeric character reference at `i` (`&#xHEX;` or `&#DEC;`): where it
/// ends and the character it stands for (none when the value is not a
/// character).
pub open spec fn numeric_entity_at(s: Seq<char>, i: int) -> Option<(int, Option<char>)> {
    if !matches_at(s, "&#"@, i) {
        None
    } else if i + 2 < s.len() && s[i + 2] == 'x' && digit_run(s, i + 3, true) > 0 && i + 3
        + digit_run(s, i + 3, true) < s.len() && s[i + 3 + digit_run(s, i + 3, true)] == ';' {
        let h = digit_run(s, i + 3, true);
        Some((i + 4 + h, scalar_of(run_value(s.subrange(i + 3, i + 3 + h), true))))
    } else if digit_run(s, i + 2, false) > 0 && i + 2 + digit_run(s, i + 2, false) < s.len() && s[i
        + 2 + digit_run(s, i + 2, false)] == ';' {
        let d = digit_run(s, i + 2, false);
        Some((i + 3 + d, scalar_of(run_value(s.subrange(i + 2, i + 2 + d), false))))
    } else {
        None
    }
}

/// The text from `i` on with every numeric character reference that names a
/// character replaced by it, left to right; one that does not is kept.
pub open spec fn decode_numeric_from(s: Seq<char>, i: int) -> Seq<char>
    decreases s.len() - i,
{
    if i < 0 || i >= s.len() {
        seq![]
    } else {
        match numeric_entity_at(s, i) {
            Some((end, value)) => {
                if end > i {
                    match value {
                        Some(c) => seq![c] + decode_numeric_from(s, end),
                        None => s.subrange(i, end) + decode_numeric_from(s, end),
                    }
                } else {
                    seq![s[i]] + decode_numeric_from(s, i + 1)
                }
            },
            None => seq![s[i]] + decode_numeric_from(s, i + 1),
        }
    }
}

/// Named entities decoded, then numeric character references.
pub open spec fn decode_entities_spec(s: Seq<char>) -> Seq<char> {
    let named = replace(
        replace(
            replace(
                replace(
                    replace(replace(replace(s, "&nbsp;"@, " "@), "&amp;"@, "&"@), "&lt;"@, "<"@),
                    "&gt;"@,
                    ">"@,
                ),
                "&quot;"@,
                "\""@,
            ),
            "&apos;"@,
            "'"@,
        ),
        "&#39;"@,
        "'"@,
    );
    decode_numeric_from(named, 0)
}

fn digit_run_exec(s: &Vec<char>, i: usize, hex: bool) -> (r: usize)
    requires
        i <= s.len(),
    ensures
        r == digit_run(s@, i as int, hex),
        i + r <= s.len(),
{
    let mut k = i;
    while k < s.len() && ((hex && (('0' <= s[k] && s[k] <= '9') || ('a' <= s[k] && s[k] <= 'f') || (
    'A' <= s[k] && s[k] <= 'F'))) || (!hex && '0' <= s[k] && s[k] <= '9'))
        invariant
            i <= k <= s.len(),
            digit_run(s@, i as int, hex) == (k - i) + digit_run(s@, k as int, hex),
        decreases s.len() - k,
    {
        k += 1;
    }
    k - i
}

fn scalar_from(v: u64) -> (r: Option<char>)
    ensures
        r == scalar_of(v as nat),
{
    if v < 0xD800 || (0xE000 <= v && v <= 0x10FFFF) {
        Some(crate::text::char_from_u32((v as u32)))
    } else {
        None
    }
}

/// The value of a digit run, or `None` above `u32::MAX`.
fn run_value_exec(d: &Vec<char>, from: usize, to: usize, hex: bool) -> (r: Option<u64>)
    requires
        from <= to <= d.len(),
        forall|k: int| from <= k < to ==> (hex ==> is_hex(#[trigger] d@[k])) && (!hex ==> '0' <= d@[k]
            && d@[k] <= '9'),
    ensures
        match r {
            Some(v) => v as nat == run_value(d@.subrange(from as int, to as int), hex) && v <= u32::MAX,
            None => run_value(d@.subrange(from as int, to as int), hex) > u32::MAX,
        },
{
    let base: u64 = if hex {
        16
    } else {
        10
    };
    let mut v: u64 = 0;
    let mut k = from;
    proof {
        assert(d@.subrange(from as int, from as int) =~= Seq::<char>::empty());
    }
    while k < to
        invariant
            from <= k <= to <= d.len(),
            base == if hex {
                16u64
            } else {
                10u64
            },
            forall|m: int| from <= m < to ==> (hex ==> is_hex(#[trigger] d@[m])) && (!hex ==> '0'
                <= d@[m] && d@[m] <= '9'),
            v as nat == run_value(d@.subrange(from as int, k as int), hex),
            v <= u32::MAX,
        decreases to - k,
    {
        let c = d[k];
        let h: u64 = if '0' <= c && c <= '9' {
            (c as u32 - '0' as u32) as u64
        } else if 'a' <= c && c <= 'f' {
            (c as u32 - 'a' as u32 + 10) as u64
        } else {
            (c as u32 - 'A' as u32 + 10) as u64
        };
        proof {
            let sub = d@.subrange(from as int, k + 1);
            assert(sub.drop_last() =~= d@.subrange(from as int, k as int));
            assert(sub.last() == c);
            assert(h == hex_value(c));
        }
        let next = v * base + h;
        if next > 0xFFFF_FFFF {
            proof {
                lemma_run_value_grows(d@, from as int, k + 1, to as int, hex);
            }
            return None;
        }
        v = next;
        k += 1;
    }
    Some(v)
}

/// A longer run of digits is worth at least as much.
proof fn lemma_run_value_grows(d: Seq<char>, from: int, k: int, to: int, hex: bool)
    requires
        0 <= from <= k <= to <= d.len(),
    ensures
        run_value(d.subrange(from, k), hex) <= run_value(d.subrange(from, to), hex),
    decreases to - k,
{
    if k < to {
        lemma_run_value_grows(d, from, k + 1, to, hex);
        let sub = d.subrange(from, k + 1);
        assert(sub.drop_last() =~= d.subrange(from, k));
        assert(run_value(sub, hex) >= run_value(d.subrange(from, k), hex)) by (nonlinear_arith)
            requires
                run_value(sub, hex) == run_value(d.subrange(from, k), hex) * (if hex {
                    16nat
                } else {
                    10nat
                }) + hex_value(sub.last()),
        {
        }
    }
}

/// Decode the numeric character references of `s`.
fn decode_numeric(s: &Vec<char>) -> (r: Vec<char>)
    ensures
        r@ == decode_numeric_from(s@, 0),
{
    proof {
        reveal_strlit("&#");
    }
    let amp = chars_of("&#");
    let mut out: Vec<char> = Vec::new();
    let mut i: usize = 0;
    proof {
        assert(out@ + decode_numeric_from(s@, 0) =~= decode_numeric_from(s@, 0));
    }
    while i < s.len()
        invariant
            i <= s.len(),
            amp@ == "&#"@,
            out@ + decode_numeric_from(s@, i as int) == decode_numeric_from(s@, 0),
        decreases s.len() - i,
    {
        proof {
            reveal_strlit("&#");
        }
        let ghost before = out@;
        let mut handled = false;
        if matches_at_exec(s, &amp, i) {
            let mut done = false;
            if i + 2 < s.len() && s[i + 2] == 'x' {
                let h = digit_run_exec(s, i + 3, true);
                if h > 0 && i + 3 + h < s.len() && s[i + 3 + h] == ';' {
                    proof {
                        assert forall|k: int| i + 3 <= k < i + 3 + h implies is_hex(#[trigger] s@[k]) by {
                            lemma_digit_run(s@, i + 3, true, k);
                        }
                    }
                    let v = run_value_exec(s, i + 3, i + 3 + h, true);
                    let c = match v {
                        Some(v) => scalar_from(v),
                        None => None,
                    };
                    proof {
                        assert(numeric_entity_at(s@, i as int) == Some(((i + 4 + h) as int, c)));
                    }
                    match c {
                        Some(ch) => out.push(ch),
                        None => {
                            let raw = slice(s, i, i + 4 + h);
                            push_all(&mut out, &raw);
                        },
                    }
                    proof {
                        assert(out@ + decode_numeric_from(s@, i + 4 + h) =~= before + decode_numeric_from(s@, i as int));
                    }
                    i = i + 4 + h;
                    done = true;
                }
            }
            if !done {
                let d = digit_run_exec(s, i + 2, false);
                if d > 0 && i + 2 + d < s.len() && s[i + 2 + d] == ';' {
                    proof {
                        assert forall|k: int| i + 2 <= k < i + 2 + d implies ('0' <= #[trigger] s@[k] && s@[k] <= '9') by {
                            lemma_digit_run(s@, i + 2, false, k);
                        }
                        if i + 2 < s.len() && s@[i + 2] == 'x' {
                            assert(digit_run(s@, i + 3, true) == 0 || !(i + 3 + digit_run(s@, i + 3, true) < s.len()
                                && s@[i + 3 + digit_run(s@, i + 3, true)] == ';'));
                        }
                    }
                    let v = run_value_exec(s, i + 2, i + 2 + d, false);
                    let c = match v {
                        Some(v) => scalar_from(v),
                        None => None,
                    };
                    proof {
                        assert(numeric_entity_at(s@, i as int) == Some(((i + 3 + d) as int, c)));
                    }
                    match c {
                        Some(ch) => out.push(ch),
                        None => {
                            let raw = slice(s, i, i + 3 + d);
                            push_all(&mut out, &raw);
                        },
                    }
                    proof {
                        assert(out@ + decode_numeric_from(s@, i + 3 + d) =~= before + decode_numeric_from(s@, i as int));
                    }
                    i = i + 3 + d;
                    done = true;
                }
            }
            handled = done;
        }
        if !handled {
            proof {
                assert(numeric_entity_at(s@, i as int) is None);
            }
            out.push(s[i]);
            proof {
                assert(out@ + decode_numeric_from(s@, i + 1) =~= before + decode_numeric_from(s@, i as int));
            }
            i = i + 1;
        }
    }
    proof {
        assert(out@ + Seq::<char>::empty() =~= out@);
    }
    out
}

proof fn lemma_digit_run(s: Seq<char>, i: int, hex: bool, k: int)
    requires
        0 <= i <= k < i + digit_run(s, i, hex),
    ensures
        hex ==> is_hex(s[k]),
        !hex ==> '0' <= s[k] && s[k] <= '9',
    decreases k - i,
{
    if k > i {
        lemma_digit_run(s, i + 1, hex, k);
    }
}

/// Decode the entities of XML text: the common named ones, then numeric
/// character references.
pub fn decode_entities(input: &Vec<char>) -> (r: Vec<char>)
    ensures
        r@ == decode_entities_spec(input@),
{
    proof {
        reveal_strlit("&nbsp;");
        reveal_strlit("&amp;");
        reveal_strlit("&lt;");
        reveal_strlit("&gt;");
        reveal_strlit("&quot;");
        reveal_strlit("&apos;");
        reveal_strlit("&#39;");
    }
    let a = replace_str(input, "&nbsp;", " ");
    let b = replace_str(&a, "&amp;", "&");
    let c = replace_str(&b, "&lt;", "<");
    let d = replace_str(&c, "&gt;", ">");
    let e = replace_str(&d, "&quot;", "\"");
    let f = replace_str(&e, "&apos;", "'");
    let g = replace_str(&f, "&#39;", "'");
    decode_numeric(&g)
}

// ---------------------------------------------------------------------------
// Paths inside the archive.
// ---------------------------------------------------------------------------

/// One path segment applied to the segments so far: `` and `.` change
/// nothing, `..` drops the last one (there must be one), anything else is
/// appended.
pub open spec fn path_step(parts: Option<Seq<Seq<char>>>, seg: Seq<char>) -> Option<Seq<Seq<char>>> {
    match parts {
        None => None,
        Some(ps) => if seg.len() == 0 || seg == "."@ {
            Some(ps)
        } else if seg == ".."@ {
            if ps.len() == 0 {
                None
            } else {
                Some(ps.drop_last())
            }
        } else {
            Some(ps.push(seg))
        },
    }
}

pub open spec fn path_steps(start: Seq<Seq<char>>, segs: Seq<Seq<char>>) -> Option<Seq<Seq<char>>>
    decreases segs.len(),
{
    if segs.len() == 0 {
        Some(start)
    } else {
        path_step(path_steps(start, segs.drop_last()), segs.last())
    }
}

/// The non-empty pieces of a `/`-separated path.
pub open spec fn nonempty_segments(segs: Seq<Seq<char>>) -> Seq<Seq<char>>
    decreases segs.len(),
{
    if segs.len() == 0 {
        seq![]
    } else if segs.last().len() == 0 {
        nonempty_segments(segs.drop_last())
    } else {
        nonempty_segments(segs.drop_last()).push(segs.last())
    }
}

/// `href` resolved against the directory `base_dir` inside the archive
/// (leading `/` ignored); `None` when `..` climbs above the root.
pub open spec fn join_epub_path_spec(base_dir: Seq<char>, href: Seq<char>) -> Option<Seq<char>> {
    let h = trim_start_set(href, seq!['/']);
    match path_steps(nonempty_segments(split_char(base_dir, '/')), split_char(h, '/')) {
        Some(ps) => Some(join(ps, "/"@)),
        None => None,
    }
}

pub fn join_epub_path(base_dir: &Vec<char>, href: &Vec<char>) -> (r: Option<Vec<char>>)
    ensures
        match r {
            Some(p) => join_epub_path_spec(base_dir@, href@) == Some(p@),
            None => join_epub_path_spec(base_dir@, href@) is None,
        },
{
    let mut slash: Vec<char> = Vec::new();
    slash.push('/');
    proof {
        assert(slash@ =~= seq!['/']);
    }
    let h = trim_start_set_chars(href, &slash);
    let base_parts = split_char_exec(base_dir, '/');
    let mut parts: Vec<Vec<char>> = Vec::new();
    let mut i: usize = 0;
    proof {
        assert(parts.deep_view() =~= nonempty_segments(base_parts.deep_view().take(0)));
    }
    while i < base_parts.len()
        invariant
            i <= base_parts.len(),
            parts.deep_view() == nonempty_segments(base_parts.deep_view().take(i as int)),
        decreases base_parts.len() - i,
    {
        proof {
            lemma_chars_deep(&base_parts@[i as int]);
            assert(base_parts.deep_view().take(i + 1).drop_last() =~= base_parts.deep_view().take(i as int));
            assert(base_parts.deep_view().take(i + 1).last() == base_parts@[i as int]@);
        }
        if base_parts[i].len() > 0 {
            let seg = slice(&base_parts[i], 0, base_parts[i].len());
            let ghost before = parts.deep_view();
            let ghost sv = seg@;
            parts.push(seg);
            proof {
                lemma_push_deep(before, &parts, sv);
                assert(sv =~= base_parts@[i as int]@);
            }
        }
        i += 1;
    }
    proof {
        assert(base_parts.deep_view().take(i as int) =~= base_parts.deep_view());
    }
    let ghost start = parts.deep_view();
    proof {
        assert(h@ == trim_start_set(href@, seq!['/']));
    }
    let segs = split_char_exec(&h, '/');
    let mut j: usize = 0;
    proof {
        assert(segs.deep_view().take(0) =~= Seq::<Seq<char>>::empty());
    }
    while j < segs.len()
        invariant
            j <= segs.len(),
            start == nonempty_segments(split_char(base_dir@, '/')),
            segs.deep_view() == split_char(trim_start_set(href@, seq!['/']), '/'),
            path_steps(start, segs.deep_view().take(j as int)) == Some(parts.deep_view()),
        decreases segs.len() - j,
    {
        proof {
            lemma_chars_deep(&segs@[j as int]);
            assert(segs.deep_view().take(j + 1).drop_last() =~= segs.deep_view().take(j as int));
            assert(segs.deep_view().take(j + 1).last() == segs@[j as int]@);
        }
        let seg = &segs[j];
        if seg.len() == 0 || crate::text::eq_str(seg, ".") {
        } else if crate::text::eq_str(seg, "..") {
            if parts.len() == 0 {
                proof {
                    assert(path_steps(start, segs.deep_view().take(j + 1)) is None);
                    lemma_path_steps_none(start, segs.deep_view(), j + 1);
                    assert(segs.deep_view().take(segs.len() as int) =~= segs.deep_view());
                }
                return None;
            }
            let ghost before = parts.deep_view();
            parts.pop();
            proof {
                assert(parts.deep_view() =~= before.drop_last());
            }
        } else {
            let ghost before = parts.deep_view();
            let s2 = slice(seg, 0, seg.len());
            let ghost sv = s2@;
            parts.push(s2);
            proof {
                lemma_push_deep(before, &parts, sv);
                assert(sv =~= segs@[j as int]@);
            }
        }
        j += 1;
    }
    proof {
        assert(segs.deep_view().take(j as int) =~= segs.deep_view());
    }
    let sep = chars_of("/");
    Some(join_exec(&parts, &sep))
}

/// Once climbing above the root fails, later segments cannot repair it.
proof fn lemma_path_steps_none(start: Seq<Seq<char>>, segs: Seq<Seq<char>>, k: int)
    requires
        0 <= k <= segs.len(),
        path_steps(start, segs.take(k)) is None,
    ensures
        path_steps(start, segs) is None,
    decreases segs.len() - k,
{
    if k < segs.len() {
        assert(segs.take(k + 1).drop_last() =~= segs.take(k));
        lemma_path_steps_none(start, segs, k + 1);
    } else {
        assert(segs.take(k) =~= segs);
    }
}

/// The key a table-of-contents target is identified by: `href#fragment`,
/// or the `href` alone without a (non-blank) fragment.
pub open spec fn target_key_spec(href: Seq<char>, fragment: Option<Seq<char>>) -> Seq<char> {
    match fragment {
        Some(f) => if trim(f).len() > 0 {
            href + "#"@ + f
        } else {
            href
        },
        None => href,
    }
}

pub fn epub_target_key(href: &str, fragment: Option<&str>) -> (r: String)
    ensures
        r@ == target_key_spec(href@, match fragment {
            Some(f) => Some(f@),
            None => None,
        }),
{
    let mut out = chars_of(href);
    match fragment {
        Some(f) => {
            let fc = chars_of(f);
            let t = trim_chars(&fc);
            if t.len() > 0 {
                push_str(&mut out, "#");
                push_all(&mut out, &fc);
            }
        },
        None => {},
    }
    string_of(&out)
}

// ---------------------------------------------------------------------------
// Percent-decoding.
// ---------------------------------------------------------------------------

/// What `String::from_utf8_lossy` makes of a byte sequence.
pub uninterp spec fn spec_utf8_lossy(b: Seq<u8>) -> Seq<char>;

/// `String::from_utf8_lossy`, owned: the text the bytes encode, with
/// invalid sequences replaced by U+FFFD. Its result is named; the contract
/// claims beyond that only what the documentation states, that valid UTF-8
/// comes back as the text it encodes.
#[verifier::external_body]
pub(crate) fn utf8_lossy(b: &[u8]) -> (r: String)
    ensures
        r@ == spec_utf8_lossy(b@),
        valid_utf8(b@) ==> r@ == decode_utf8(b@),
{
    String::from_utf8_lossy(b).into_owned()
}

/// Whether a byte is an ASCII hexadecimal digit.
pub open spec fn is_hex_byte(b: u8) -> bool {
    (0x30 <= b && b <= 0x39) || (0x61 <= b && b <= 0x66) || (0x41 <= b && b <= 0x46)
}

pub open spec fn hex_byte_value(b: u8) -> nat {
    if 0x30 <= b && b <= 0x39 {
        (b - 0x30) as nat
    } else if 0x61 <= b && b <= 0x66 {
        (b - 0x61 + 10) as nat
    } else {
        (b - 0x41 + 10) as nat
    }
}

/// Two bytes read as a hexadecimal `u8` (`u8::from_str_radix(_, 16)`,
/// which also takes a leading `+`).
pub open spec fn hex_pair(b1: u8, b2: u8) -> Option<u8> {
    if b1 == 0x2B && is_hex_byte(b2) {
        Some(hex_byte_value(b2) as u8)
    } else if is_hex_byte(b1) && is_hex_byte(b2) {
        Some((hex_byte_value(b1) * 16 + hex_byte_value(b2)) as u8)
    } else {
        None
    }
}

/// Whether a byte continues a multi-byte UTF-8 sequence.
pub open spec fn is_continuation(b: u8) -> bool {
    0x80 <= b && b < 0xC0
}

/// The bytes from `i` on with every `%` followed by two hexadecimal digits
/// replaced by the byte they name.
pub open spec fn percent_scan(b: Seq<u8>, i: int) -> Seq<u8>
    decreases b.len() - i,
{
    if i < 0 || i >= b.len() {
        seq![]
    } else if b[i] == 0x25 && i + 2 < b.len() && hex_pair(b[i + 1], b[i + 2]) is Some {
        seq![hex_pair(b[i + 1], b[i + 2])->0] + percent_scan(b, i + 3)
    } else {
        seq![b[i]] + percent_scan(b, i + 1)
    }
}

/// The two characters after every `%` the scan reaches can be cut out of
/// the text: they start and end on character boundaries.
pub open spec fn percent_ok(b: Seq<u8>, i: int) -> bool
    decreases b.len() - i,
{
    if i < 0 || i >= b.len() {
        true
    } else if b[i] == 0x25 && i + 2 < b.len() {
        !is_continuation(b[i + 1]) && (i + 3 >= b.len() || !is_continuation(b[i + 3])) && if hex_pair(
            b[i + 1],
            b[i + 2],
        ) is Some {
            percent_ok(b, i + 3)
        } else {
            percent_ok(b, i + 1)
        }
    } else {
        percent_ok(b, i + 1)
    }
}

/// Percent-decoding of a text, its bytes read back as UTF-8 with invalid
/// sequences replaced.
pub open spec fn percent_decode_spec(input: Seq<char>) -> Seq<char> {
    spec_utf8_lossy(percent_scan(encode_utf8(input), 0))
}

fn is_hex_byte_exec(b: u8) -> (r: bool)
    ensures
        r == is_hex_byte(b),
{
    (0x30 <= b && b <= 0x39) || (0x61 <= b && b <= 0x66) || (0x41 <= b && b <= 0x46)
}

fn hex_byte_value_exec(b: u8) -> (r: u8)
    requires
        is_hex_byte(b),
    ensures
        r as nat == hex_byte_value(b),
        r < 16,
{
    if 0x30 <= b && b <= 0x39 {
        b - 0x30
    } else if 0x61 <= b && b <= 0x66 {
        b - 0x61 + 10
    } else {
        b - 0x41 + 10
    }
}

fn hex_pair_exec(b1: u8, b2: u8) -> (r: Option<u8>)
    ensures
        r == hex_pair(b1, b2),
{
    if b1 == 0x2B && is_hex_byte_exec(b2) {
        Some(hex_byte_value_exec(b2))
    } else if is_hex_byte_exec(b1) && is_hex_byte_exec(b2) {
        Some(hex_byte_value_exec(b1) * 16 + hex_byte_value_exec(b2))
    } else {
        None
    }
}

/// No byte of the encoding of a scalar other than `%` is `%`.
proof fn lemma_scalar_no_percent(u: u32)
    requires
        is_scalar(u),
        u != 0x25,
    ensures
        forall|k: int| 0 <= k < encode_scalar(u).len() ==> encode_scalar(u)[k] != 0x25,
{
    let e = encode_scalar(u);
    if has_width_1_encoding(u) {
        assert((u & 0x7F) as u8 != 0x25u8) by (bit_vector)
            requires
                u <= 0x7F,
                u != 0x25,
        ;
    } else {
        assert(forall|y: u8| #[trigger] (0x80u8 | y) != 0x25u8) by (bit_vector);
        assert(forall|y: u8| #[trigger] (0xC0u8 | y) != 0x25u8) by (bit_vector);
        assert(forall|y: u8| #[trigger] (0xE0u8 | y) != 0x25u8) by (bit_vector);
        assert(forall|y: u8| #[trigger] (0xF0u8 | y) != 0x25u8) by (bit_vector);
        assert forall|k: int| 0 <= k < e.len() implies e[k] != 0x25 by {
            if has_width_2_encoding(u) {
                assert(e[k] == leading_byte_width_2(u) || e[k] == last_continuation_byte(u));
            } else if has_width_3_encoding(u) {
                assert(e[k] == leading_byte_width_3(u) || e[k] == second_last_continuation_byte(u)
                    || e[k] == last_continuation_byte(u));
            } else {
                assert(e[k] == leading_byte_width_4(u) || e[k] == third_last_continuation_byte(u)
                    || e[k] == second_last_continuation_byte(u) || e[k] == last_continuation_byte(u));
            }
        }
    }
}

/// A text without `%` encodes to bytes without `%`.
proof fn lemma_encode_no_percent(s: Seq<char>)
    requires
        !s.contains('%'),
    ensures
        forall|k: int| 0 <= k < encode_utf8(s).len() ==> encode_utf8(s)[k] != 0x25,
    decreases s.len(),
{
    if s.len() > 0 {
        let rest = s.drop_first();
        assert(!rest.contains('%')) by {
            if rest.contains('%') {
                let k = choose|k: int| 0 <= k < rest.len() && rest[k] == '%';
                assert(s[k + 1] == '%');
            }
        }
        lemma_encode_no_percent(rest);
        assert(s[0] != '%');
        let u = s[0] as u32;
        vstd::utf8::char_is_scalar(s[0]);
        vstd::utf8::char_u32_cast(s[0], u);
        assert(('%' as u32) == 0x25);
        assert(u != 0x25) by {
            if u == 0x25 {
                vstd::utf8::char_u32_cast('%', 0x25);
            }
        }
        lemma_scalar_no_percent(u);
        let head = encode_scalar(u);
        let tail = encode_utf8(rest);
        assert(encode_utf8(s) == head + tail);
        assert forall|k: int| 0 <= k < (head + tail).len() implies (head + tail)[k] != 0x25 by {
            if k >= head.len() {
                assert((head + tail)[k] == tail[k - head.len()]);
            } else {
                assert((head + tail)[k] == head[k]);
            }
        }
    }
}

/// Bytes without `%` decode to themselves.
proof fn lemma_scan_identity(b: Seq<u8>, i: int)
    requires
        0 <= i <= b.len(),
        forall|k: int| 0 <= k < b.len() ==> b[k] != 0x25,
    ensures
        percent_scan(b, i) == b.skip(i),
        percent_ok(b, i),
    decreases b.len() - i,
{
    if i < b.len() {
        lemma_scan_identity(b, i + 1);
        assert(seq![b[i]] + b.skip(i + 1) =~= b.skip(i));
    } else {
        assert(b.skip(i) =~= Seq::<u8>::empty());
    }
}

/// Decode `%XX` escapes in a text; the bytes are read back as UTF-8, with
/// invalid sequences replaced. A text without `%` comes back unchanged.
pub fn percent_decode_lossy(input: &str) -> (r: String)
    requires
        percent_ok(encode_utf8(input@), 0),
    ensures
        r@ == percent_decode_spec(input@),
        !input@.contains('%') ==> r@ == input@,
{
    let bytes = input.as_bytes();
    let mut out: Vec<u8> = Vec::new();
    let mut i: usize = 0;
    proof {
        assert(out@ + percent_scan(bytes@, 0) =~= percent_scan(bytes@, 0));
    }
    while i < bytes.len()
        invariant
            i <= bytes.len(),
            out@ + percent_scan(bytes@, i as int) == percent_scan(bytes@, 0),
        decreases bytes.len() - i,
    {
        let ghost before = out@;
        if bytes[i] == 0x25 && bytes.len() - i > 2 {
            match hex_pair_exec(bytes[i + 1], bytes[i + 2]) {
                Some(v) => {
                    out.push(v);
                    proof {
                        assert(out@ + percent_scan(bytes@, i + 3) =~= before + percent_scan(bytes@, i as int));
                    }
                    i = i + 3;
                    continue;
                },
                None => {},
            }
        }
        out.push(bytes[i]);
        proof {
            assert(out@ + percent_scan(bytes@, i + 1) =~= before + percent_scan(bytes@, i as int));
        }
        i = i + 1;
    }
    proof {
        assert(out@ + Seq::<u8>::empty() =~= out@);
        if !input@.contains('%') {
            lemma_encode_no_percent(input@);
            lemma_scan_identity(bytes@, 0);
            assert(bytes@.skip(0) =~= bytes@);
            vstd::utf8::encode_utf8_decode_utf8(input@);
            vstd::utf8::encode_utf8_valid_utf8(input@);
        }
    }
    utf8_lossy(out.as_slice())
}


// ---------------------------------------------------------------------------
// Attributes of a tag.
// ---------------------------------------------------------------------------

/// ASCII white space (`u8::is_ascii_whitespace`): space, tab, line feed,
/// form feed and carriage return.
pub open spec fn is_ascii_ws(c: char) -> bool {
    c == ' ' || c == '\t' || c == '\n' || c == '\x0C' || c == '\r'
}

fn is_ascii_ws_exec(c: char) -> (r: bool)
    ensures
        r == is_ascii_ws(c),
{
    c == ' ' || c == '\t' || c == '\n' || c == '\x0C' || c == '\r'
}

/// Characters skipped before an attribute name.
pub open spec fn sep_pred() -> spec_fn(char) -> bool {
    |c: char| is_ascii_ws(c) || c == '/' || c == '<'
}

/// Characters of an attribute name.
pub open spec fn key_pred() -> spec_fn(char) -> bool {
    |c: char| crate::text::is_ascii_alnum(c) || c == ':' || c == '_' || c == '-' || c == '.'
}

pub open spec fn ws_pred() -> spec_fn(char) -> bool {
    |c: char| is_ascii_ws(c)
}

/// Characters of a quoted value closed by `q`.
pub open spec fn not_char_pred(q: char) -> spec_fn(char) -> bool {
    |c: char| c != q
}

/// Characters of an unquoted value.
pub open spec fn unquoted_pred() -> spec_fn(char) -> bool {
    |c: char| !is_ascii_ws(c) && c != '>'
}

/// The end of the run of characters from `i` on that satisfy `p`.
pub open spec fn run_end(s: Seq<char>, i: int, p: spec_fn(char) -> bool) -> int
    decreases s.len() - i,
{
    if i < 0 || i >= s.len() || !p(s[i]) {
        i
    } else {
        run_end(s, i + 1, p)
    }
}

pub proof fn lemma_run_end(s: Seq<char>, i: int, p: spec_fn(char) -> bool)
    requires
        0 <= i,
    ensures
        i <= run_end(s, i, p),
        i <= s.len() ==> run_end(s, i, p) <= s.len(),
        run_end(s, i, p) < s.len() ==> !p(s[run_end(s, i, p)]),
        forall|k: int| i <= k < run_end(s, i, p) ==> p(#[trigger] s[k]),
    decreases s.len() - i,
{
    if i < s.len() && p(s[i]) {
        lemma_run_end(s, i + 1, p);
    }
}

/// The (name, value) pairs of an attribute list from `i` on, in order, as
/// the scan meets them: names lower-cased, quoted values up to the closing
/// quote, unquoted values up to white space or `>` without trailing `/`,
/// values entity-decoded, a name without `=` paired with the empty value.
pub open spec fn attr_events(s: Seq<char>, i: int) -> Seq<(Seq<char>, Seq<char>)>
    decreases s.len() - i,
{
    if i < 0 {
        seq![]
    } else {
        proof {
            lemma_run_end(s, i, sep_pred());
        }
        let j = run_end(s, i, sep_pred());
        if j >= s.len() || s[j] == '>' {
            seq![]
        } else {
            proof {
                lemma_run_end(s, j, key_pred());
            }
            let k = run_end(s, j, key_pred());
            if k == j {
                attr_events(s, j + 1)
            } else {
                proof {
                    lemma_run_end(s, k, ws_pred());
                }
                let key = crate::text::ascii_lower_seq(s.subrange(j, k));
                let w = run_end(s, k, ws_pred());
                if w >= s.len() || s[w] != '=' {
                    seq![(key, Seq::<char>::empty())] + attr_events(s, w)
                } else {
                    proof {
                        lemma_run_end(s, w + 1, ws_pred());
                    }
                    let v0 = run_end(s, w + 1, ws_pred());
                    if v0 >= s.len() {
                        seq![(key, Seq::<char>::empty())]
                    } else if s[v0] == '"' || s[v0] == '\'' {
                        proof {
                            lemma_run_end(s, v0 + 1, not_char_pred(s[v0]));
                        }
                        let e = run_end(s, v0 + 1, not_char_pred(s[v0]));
                        let next = if e < s.len() { e + 1 } else { e };
                        seq![(key, decode_entities_spec(s.subrange(v0 + 1, e)))] + attr_events(s, next)
                    } else {
                        proof {
                            lemma_run_end(s, v0, unquoted_pred());
                        }
                        let e = run_end(s, v0, unquoted_pred());
                        seq![(key, decode_entities_spec(trim_end_set(s.subrange(v0, e), seq!['/'])))]
                            + attr_events(s, e)
                    }
                }
            }
        }
    }
}

/// The value of attribute `key`: the last pair with that name, as a map
/// keeps the last value inserted.
pub open spec fn attr_lookup(ev: Seq<(Seq<char>, Seq<char>)>, key: Seq<char>) -> Option<Seq<char>>
    decreases ev.len(),
{
    if ev.len() == 0 {
        None
    } else if ev.last().0 == key {
        Some(ev.last().1)
    } else {
        attr_lookup(ev.drop_last(), key)
    }
}

/// The attribute map of a raw attribute list, by name.
pub open spec fn parse_attrs_spec(raw: Seq<char>, key: Seq<char>) -> Option<Seq<char>> {
    attr_lookup(attr_events(raw, 0), key)
}

/// The pairs of a vector of attribute pairs, as sequences.
pub open spec fn pairs_view(v: Seq<(Vec<char>, Vec<char>)>) -> Seq<(Seq<char>, Seq<char>)> {
    v.map_values(|p: (Vec<char>, Vec<char>)| (p.0@, p.1@))
}

fn skip_sep(s: &Vec<char>, i: usize) -> (r: usize)
    requires
        i <= s.len(),
    ensures
        r == run_end(s@, i as int, sep_pred()),
{
    let mut j = i;
    while j < s.len() && (is_ascii_ws_exec(s[j]) || s[j] == '/' || s[j] == '<')
        invariant
            i <= j <= s.len(),
            run_end(s@, i as int, sep_pred()) == run_end(s@, j as int, sep_pred()),
        decreases s.len() - j,
    {
        j += 1;
    }
    j
}

fn skip_key(s: &Vec<char>, i: usize) -> (r: usize)
    requires
        i <= s.len(),
    ensures
        r == run_end(s@, i as int, key_pred()),
{
    let mut j = i;
    while j < s.len() && (('a' <= s[j] && s[j] <= 'z') || ('A' <= s[j] && s[j] <= 'Z') || ('0' <= s[j]
        && s[j] <= '9') || s[j] == ':' || s[j] == '_' || s[j] == '-' || s[j] == '.')
        invariant
            i <= j <= s.len(),
            run_end(s@, i as int, key_pred()) == run_end(s@, j as int, key_pred()),
        decreases s.len() - j,
    {
        j += 1;
    }
    j
}

fn skip_ws(s: &Vec<char>, i: usize) -> (r: usize)
    requires
        i <= s.len(),
    ensures
        r == run_end(s@, i as int, ws_pred()),
{
    let mut j = i;
    while j < s.len() && is_ascii_ws_exec(s[j])
        invariant
            i <= j <= s.len(),
            run_end(s@, i as int, ws_pred()) == run_end(s@, j as int, ws_pred()),
        decreases s.len() - j,
    {
        j += 1;
    }
    j
}

fn skip_to_char(s: &Vec<char>, i: usize, q: char) -> (r: usize)
    requires
        i <= s.len(),
    ensures
        r == run_end(s@, i as int, not_char_pred(q)),
{
    let mut j = i;
    while j < s.len() && s[j] != q
        invariant
            i <= j <= s.len(),
            run_end(s@, i as int, not_char_pred(q)) == run_end(s@, j as int, not_char_pred(q)),
        decreases s.len() - j,
    {
        j += 1;
    }
    j
}

fn skip_unquoted(s: &Vec<char>, i: usize) -> (r: usize)
    requires
        i <= s.len(),
    ensures
        r == run_end(s@, i as int, unquoted_pred()),
{
    let mut j = i;
    while j < s.len() && !is_ascii_ws_exec(s[j]) && s[j] != '>'
        invariant
            i <= j <= s.len(),
            run_end(s@, i as int, unquoted_pred()) == run_end(s@, j as int, unquoted_pred()),
        decreases s.len() - j,
    {
        j += 1;
    }
    j
}

/// The pairs an optional pair stands for.
pub open spec fn pair_head(pair: Option<(Vec<char>, Vec<char>)>) -> Seq<(Seq<char>, Seq<char>)> {
    match pair {
        Some(p) => seq![(p.0@, p.1@)],
        None => Seq::<(Seq<char>, Seq<char>)>::empty(),
    }
}

/// One step of the scan from `i`: the pair it yields, if any, where the
/// scan goes on, and whether it stops there.
fn attr_step(raw: &Vec<char>, i: usize) -> (r: (Option<(Vec<char>, Vec<char>)>, usize, bool))
    requires
        i < raw.len(),
    ensures
        ({
            let (pair, next, stop) = r;
            let head = pair_head(pair);
            &&& i < next <= raw.len()
            &&& stop ==> attr_events(raw@, i as int) == head
            &&& !stop ==> attr_events(raw@, i as int) == head + attr_events(raw@, next as int)
        }),
{
    let n = raw.len();
    let ghost s = raw@;
    let j = skip_sep(raw, i);
    proof {
        lemma_run_end(s, i as int, sep_pred());
    }
    if j >= n || raw[j] == '>' {
        return (None, n, true);
    }
    let k = skip_key(raw, j);
    proof {
        lemma_run_end(s, j as int, key_pred());
    }
    if k == j {
        return (None, j + 1, false);
    }
    let key = crate::text::ascii_lowercase(&crate::text::slice(raw, j, k));
    let w = skip_ws(raw, k);
    proof {
        lemma_run_end(s, k as int, ws_pred());
    }
    if w >= n || raw[w] != '=' {
        return (Some((key, Vec::new())), w, false);
    }
    let v0 = skip_ws(raw, w + 1);
    proof {
        lemma_run_end(s, w + 1, ws_pred());
    }
    if v0 >= n {
        return (Some((key, Vec::new())), n, true);
    }
    let q = raw[v0];
    if q == '"' || q == '\'' {
        let e = skip_to_char(raw, v0 + 1, q);
        proof {
            lemma_run_end(s, v0 + 1, not_char_pred(q));
        }
        let value = decode_entities(&crate::text::slice(raw, v0 + 1, e));
        let next = if e < n { e + 1 } else { e };
        (Some((key, value)), next, false)
    } else {
        let e = skip_unquoted(raw, v0);
        proof {
            lemma_run_end(s, v0 as int, unquoted_pred());
        }
        let slash = vec!['/'];
        let trimmed = trim_end_set_chars(&crate::text::slice(raw, v0, e), &slash);
        proof {
            assert(slash@ =~= seq!['/']);
        }
        let value = decode_entities(&trimmed);
        (Some((key, value)), e, false)
    }
}

/// The attributes of a tag's attribute list, as (name, value) pairs in the
/// order met; a later pair with the same name overrides an earlier one
/// (see `attr_get`).
pub fn parse_attrs(raw: &Vec<char>) -> (r: Vec<(Vec<char>, Vec<char>)>)
    ensures
        pairs_view(r@) == attr_events(raw@, 0),
{
    let mut out: Vec<(Vec<char>, Vec<char>)> = Vec::new();
    let mut i: usize = 0;
    let n = raw.len();
    proof {
        assert(pairs_view(out@) + attr_events(raw@, 0) =~= attr_events(raw@, 0));
    }
    while i < n
        invariant
            n == raw.len(),
            i <= n,
            pairs_view(out@) + attr_events(raw@, i as int) == attr_events(raw@, 0),
        ensures
            i == n,
            pairs_view(out@) + attr_events(raw@, i as int) == attr_events(raw@, 0),
        decreases n - i,
    {
        let ghost before = pairs_view(out@);
        let (pair, next, stop) = attr_step(raw, i);
        let ghost head = pair_head(pair);
        match pair {
            Some(p) => {
                out.push(p);
            },
            None => {},
        }
        proof {
            assert(pairs_view(out@) =~= before + head);
        }
        if stop {
            proof {
                lemma_run_end(raw@, n as int, sep_pred());
                assert(attr_events(raw@, n as int) =~= Seq::<(Seq<char>, Seq<char>)>::empty());
                assert(pairs_view(out@) + attr_events(raw@, n as int) =~= before + attr_events(raw@, i as int));
            }
            i = n;
            break;
        }
        proof {
            assert(pairs_view(out@) + attr_events(raw@, next as int) =~= before + attr_events(raw@, i as int));
        }
        i = next;
    }
    proof {
        lemma_run_end(raw@, n as int, sep_pred());
        assert(attr_events(raw@, n as int) =~= Seq::<(Seq<char>, Seq<char>)>::empty());
        assert(pairs_view(out@) + Seq::<(Seq<char>, Seq<char>)>::empty() =~= pairs_view(out@));
    }
    out
}

/// The value of attribute `key` among parsed pairs: the last one with that
/// name.
pub fn attr_get(pairs: &Vec<(Vec<char>, Vec<char>)>, key: &str) -> (r: Option<Vec<char>>)
    ensures
        r matches Some(v) ==> attr_lookup(pairs_view(pairs@), key@) == Some(v@),
        r is None ==> attr_lookup(pairs_view(pairs@), key@) is None,
{
    let k = chars_of(key);
    let mut i = pairs.len();
    proof {
        assert(pairs_view(pairs@).subrange(0, i as int) =~= pairs_view(pairs@));
    }
    while i > 0
        invariant
            i <= pairs.len(),
            k@ == key@,
            attr_lookup(pairs_view(pairs@), key@) == attr_lookup(pairs_view(pairs@).subrange(0, i as int), key@),
        decreases i,
    {
        let ghost pre = pairs_view(pairs@).subrange(0, i as int);
        proof {
            assert(pre.drop_last() =~= pairs_view(pairs@).subrange(0, i - 1));
            assert(pre.last() == (pairs@[i - 1].0@, pairs@[i - 1].1@));
        }
        if crate::text::seq_eq(&pairs[i - 1].0, &k) {
            return Some(pairs[i - 1].1.clone());
        }
        i -= 1;
    }
    proof {
        assert(pairs_view(pairs@).subrange(0, 0) =~= Seq::<(Seq<char>, Seq<char>)>::empty());
    }
    None
}


// ---------------------------------------------------------------------------
// Link targets.
// ---------------------------------------------------------------------------

/// The text before the first `c` (all of it without one).
pub open spec fn before_char(s: Seq<char>, c: char) -> Seq<char> {
    match find(s, seq![c]) {
        Some(k) => s.subrange(0, k),
        None => s,
    }
}

/// The text after the first `c`, if there is one.
pub open spec fn after_char(s: Seq<char>, c: char) -> Option<Seq<char>> {
    match find(s, seq![c]) {
        Some(k) => Some(s.subrange(k + 1, s.len() as int)),
        None => None,
    }
}

/// The directory part of a path inside the archive: up to its last `/`.
pub open spec fn base_dir_of(path: Seq<char>) -> Seq<char> {
    match rfind(path, "/"@) {
        Some(k) => path.subrange(0, k),
        None => Seq::empty(),
    }
}

/// The path part of a link: before `#` and `?`, trimmed.
pub open spec fn href_path_part(href: Seq<char>) -> Seq<char> {
    trim(before_char(before_char(trim(href), '#'), '?'))
}

/// The fragment part of a link: after `#`, before `?`, trimmed.
pub open spec fn href_fragment_part(href: Seq<char>) -> Option<Seq<char>> {
    match after_char(trim(href), '#') {
        Some(f) => Some(trim(before_char(f, '?'))),
        None => None,
    }
}

/// Whether a link is resolved at all: non-blank and not to the outside.
pub open spec fn href_is_local(href: Seq<char>) -> bool {
    trim(href).len() > 0 && !is_external_href_spec(href)
}

/// The target file of a local link made from `current`: `current` itself
/// for a bare fragment, else the decoded path resolved against the
/// directory of `current`.
pub open spec fn href_target_path(current: Seq<char>, href: Seq<char>) -> Option<Seq<char>> {
    let path = href_path_part(href);
    if path.len() == 0 {
        Some(current)
    } else {
        join_epub_path_spec(base_dir_of(current), percent_decode_spec(path))
    }
}

/// Every `%` escape that resolving the link decodes can be cut out of its
/// text on character boundaries.
pub open spec fn href_decodable(current: Seq<char>, href: Seq<char>) -> bool {
    href_is_local(href) ==> {
        &&& percent_ok(encode_utf8(href_path_part(href)), 0)
        &&& (href_target_path(current, href) is Some ==> (href_fragment_part(href) matches Some(f)
            ==> percent_ok(encode_utf8(f), 0)))
    }
}

/// The target of a link met in the file `current`: the file, and the
/// decoded fragment when there is a non-empty one.
pub open spec fn href_target_spec(current: Seq<char>, href: Seq<char>) -> Option<(Seq<char>, Option<Seq<char>>)> {
    if !href_is_local(href) {
        None
    } else {
        match href_target_path(current, href) {
            None => None,
            Some(t) => Some(
                (
                    t,
                    match href_fragment_part(href) {
                        Some(f) => if f.len() > 0 {
                            Some(percent_decode_spec(f))
                        } else {
                            None
                        },
                        None => None,
                    },
                ),
            ),
        }
    }
}

/// A resolved link: a file inside the archive and an optional fragment.
pub struct EpubHrefTarget {
    pub href: String,
    pub fragment: Option<String>,
}

fn before_char_exec(s: &Vec<char>, c: char) -> (r: Vec<char>)
    ensures
        r@ == before_char(s@, c),
{
    let p = vec![c];
    proof {
        assert(p@ =~= seq![c]);
    }
    match find_exec(s, &p) {
        Some(k) => {
            proof {
                lemma_find_from(s@, p@, 0);
            }
            crate::text::slice(s, 0, k)
        },
        None => s.clone(),
    }
}

fn after_char_exec(s: &Vec<char>, c: char) -> (r: Option<Vec<char>>)
    ensures
        match r {
            Some(v) => after_char(s@, c) == Some(v@),
            None => after_char(s@, c) is None,
        },
{
    let p = vec![c];
    proof {
        assert(p@ =~= seq![c]);
    }
    match find_exec(s, &p) {
        Some(k) => {
            proof {
                lemma_find_from(s@, p@, 0);
                assert(matches_at(s@, p@, k as int));
                assert(k + 1 <= s.len());
            }
            Some(crate::text::slice(s, k + 1, s.len()))
        },
        None => None,
    }
}

/// Resolve a link met in the file `current_href` to a file inside the
/// archive and a fragment; `None` for a blank or outside link, or one that
/// climbs above the root.
pub fn epub_href_target(current_href: &str, href: &str) -> (r: Option<EpubHrefTarget>)
    requires
        href_decodable(current_href@, href@),
    ensures
        match r {
            Some(t) => href_target_spec(current_href@, href@) == Some(
                (
                    t.href@,
                    match t.fragment {
                        Some(f) => Some(f@),
                        None => None,
                    },
                ),
            ),
            None => href_target_spec(current_href@, href@) is None,
        },
{
    let hc = chars_of(href);
    let h = trim_chars(&hc);
    if h.len() == 0 || is_external_href(&hc) {
        return None;
    }
    let raw_path = before_char_exec(&before_char_exec(&h, '#'), '?');
    let path = trim_chars(&raw_path);
    let cur = chars_of(current_href);
    let slash = vec!['/'];
    proof {
        reveal_strlit("/");
        assert(slash@ =~= "/"@);
    }
    let base_dir = match rfind_exec(&cur, &slash) {
        Some(k) => {
            proof {
                lemma_rfind_to(cur@, slash@, cur@.len() - 1);
            }
            crate::text::slice(&cur, 0, k)
        },
        None => Vec::new(),
    };
    proof {
        assert(base_dir@ =~= base_dir_of(current_href@));
    }
    let target: Vec<char> = if path.len() == 0 {
        cur
    } else {
        let ps = string_of(&path);
        let decoded = percent_decode_lossy(ps.as_str());
        let dc = chars_of(decoded.as_str());
        match join_epub_path(&base_dir, &dc) {
            Some(t) => t,
            None => {
                return None;
            },
        }
    };
    let fragment: Option<String> = match after_char_exec(&h, '#') {
        Some(f) => {
            let fp = trim_chars(&before_char_exec(&f, '?'));
            if fp.len() > 0 {
                let fs = string_of(&fp);
                Some(percent_decode_lossy(fs.as_str()))
            } else {
                None
            }
        },
        None => None,
    };
    Some(EpubHrefTarget { href: string_of(&target), fragment })
}


/// Whether the `%` escapes of a byte sequence can be cut out of its text.
pub(crate) fn percent_ok_exec(b: &[u8]) -> (r: bool)
    ensures
        r == percent_ok(b@, 0),
{
    let mut i: usize = 0;
    while i < b.len()
        invariant
            i <= b.len(),
            percent_ok(b@, 0) == percent_ok(b@, i as int),
        decreases b.len() - i,
    {
        if b[i] == 0x25 && b.len() - i > 2 {
            let c1 = b[i + 1];
            if 0x80 <= c1 && c1 < 0xC0 {
                return false;
            }
            if i + 3 < b.len() && 0x80 <= b[i + 3] && b[i + 3] < 0xC0 {
                return false;
            }
            match hex_pair_exec(b[i + 1], b[i + 2]) {
                Some(_) => {
                    i = i + 3;
                },
                None => {
                    i = i + 1;
                },
            }
        } else {
            i = i + 1;
        }
    }
    true
}

/// Whether resolving `href` from `current_href` decodes only escapes that
/// can be cut out of their text (`href_decodable`).
pub fn href_decodable_exec(current_href: &str, href: &str) -> (r: bool)
    ensures
        r == href_decodable(current_href@, href@),
{
    let hc = chars_of(href);
    let h = trim_chars(&hc);
    if h.len() == 0 || is_external_href(&hc) {
        return true;
    }
    let raw_path = before_char_exec(&before_char_exec(&h, '#'), '?');
    let path = trim_chars(&raw_path);
    let ps = string_of(&path);
    if !percent_ok_exec(ps.as_str().as_bytes()) {
        return false;
    }
    let cur = chars_of(current_href);
    let target_found = if path.len() == 0 {
        true
    } else {
        let slash = vec!['/'];
        proof {
            reveal_strlit("/");
            assert(slash@ =~= "/"@);
        }
        let base_dir = match rfind_exec(&cur, &slash) {
            Some(k) => {
                proof {
                    lemma_rfind_to(cur@, slash@, cur@.len() - 1);
                }
                crate::text::slice(&cur, 0, k)
            },
            None => Vec::new(),
        };
        proof {
            assert(base_dir@ =~= base_dir_of(current_href@));
        }
        let decoded = percent_decode_lossy(ps.as_str());
        let dc = chars_of(decoded.as_str());
        join_epub_path(&base_dir, &dc).is_some()
    };
    if !target_found {
        return true;
    }
    match after_char_exec(&h, '#') {
        Some(f) => {
            let fp = trim_chars(&before_char_exec(&f, '?'));
            let fs = string_of(&fp);
            percent_ok_exec(fs.as_str().as_bytes())
        },
        None => true,
    }
}


// ---------------------------------------------------------------------------
// The table of contents of an NCX file.
// ---------------------------------------------------------------------------

/// The pattern that finds the events of an NCX file: a `navPoint` opening
/// or closing (group `close`, `/` when closing), a `content` tag (group
/// `content_attrs`) and a `text` element (group `text`).
pub open spec fn ncx_event_re() -> Seq<char> {
    "(?is)<(?P<close>/?)navPoint\\b[^>]*>|<content\\b(?P<content_attrs>[^>]*)>|<text\\b[^>]*>(?P<text>.*?)</text>"@
}

/// A navigation point being read: its title, its `src` and whether it has
/// yielded an entry.
pub type NcxPointView = (Option<Seq<char>>, Option<Seq<char>>, bool);

/// A table-of-contents entry: file, fragment and title.
pub type TocEntryView = (Seq<char>, Option<Seq<char>>, Seq<char>);

/// The keys of the entries so far.
pub open spec fn entry_keys(entries: Seq<TocEntryView>) -> Seq<Seq<char>> {
    entries.map_values(|e: TocEntryView| target_key_spec(e.0, e.1))
}

/// The title of an NCX `text` element: tags dropped, entities decoded,
/// white space cleaned.
pub open spec fn ncx_title(text: Seq<char>) -> Seq<char> {
    clean_block_spec(decode_entities_spec(spec_replace_all(tag_re(), text, " "@)))
}

/// The title a point is listed under, if it has a non-blank one.
pub open spec fn point_title(p: NcxPointView) -> Option<Seq<char>> {
    match p.0 {
        Some(t) => if trim(t).len() > 0 {
            Some(clean_title_spec(trim(t)))
        } else {
            None
        },
        None => None,
    }
}

/// Offer a point to the table: a point that has a `src` resolving to a
/// target and a title (or may take the default title `Chapter`) yields one
/// entry, once, unless its target is listed already. `None` where
/// resolving the `src` would decode an escape that cannot be cut out.
pub open spec fn ncx_push(ncx_href: Seq<char>, p: NcxPointView, allow_default: bool, entries: Seq<TocEntryView>) -> Option<(NcxPointView, Seq<TocEntryView>)> {
    if p.2 {
        Some((p, entries))
    } else {
        match p.1 {
            None => Some((p, entries)),
            Some(src) => if !href_decodable(ncx_href, src) {
                None
            } else {
                match href_target_spec(ncx_href, src) {
                    None => Some((p, entries)),
                    Some(t) => {
                        let title = match point_title(p) {
                            Some(x) => Some(x),
                            None => if allow_default {
                                Some("Chapter"@)
                            } else {
                                None
                            },
                        };
                        match title {
                            None => Some((p, entries)),
                            Some(x) => {
                                let done = (p.0, p.1, true);
                                if entry_keys(entries).contains(target_key_spec(t.0, t.1)) {
                                    Some((done, entries))
                                } else {
                                    Some((done, entries.push((t.0, t.1, x))))
                                }
                            },
                        }
                    },
                }
            },
        }
    }
}

/// Group `k` of one match, `None` when it is absent.
pub open spec fn group(cap: Seq<Option<Seq<char>>>, k: int) -> Option<Seq<char>> {
    if 0 <= k < cap.len() {
        cap[k]
    } else {
        None
    }
}

/// The reading state after one event: the stack of open points and the
/// entries so far (`None` once a link could not be resolved).
pub open spec fn ncx_step(ncx_href: Seq<char>, st: Option<(Seq<NcxPointView>, Seq<TocEntryView>)>, cap: Seq<Option<Seq<char>>>) -> Option<(Seq<NcxPointView>, Seq<TocEntryView>)> {
    match st {
        None => None,
        Some((stack, entries)) => if group(cap, 0) is Some {
            if group(cap, 0)->0 == "/"@ {
                if stack.len() == 0 {
                    st
                } else {
                    match ncx_push(ncx_href, stack.last(), true, entries) {
                        None => None,
                        Some((_, e2)) => Some((stack.drop_last(), e2)),
                    }
                }
            } else {
                Some((stack.push((None, None, false)), entries))
            }
        } else if group(cap, 1) is Some {
            if stack.len() == 0 {
                st
            } else {
                let p = stack.last();
                let p1 = (p.0, parse_attrs_spec(group(cap, 1)->0, "src"@), p.2);
                match ncx_push(ncx_href, p1, false, entries) {
                    None => None,
                    Some((p2, e2)) => Some((stack.drop_last().push(p2), e2)),
                }
            }
        } else if group(cap, 2) is Some {
            if stack.len() == 0 {
                st
            } else {
                let p = stack.last();
                let p1 = if p.0 is None {
                    (Some(ncx_title(group(cap, 2)->0)), p.1, p.2)
                } else {
                    p
                };
                match ncx_push(ncx_href, p1, false, entries) {
                    None => None,
                    Some((p2, e2)) => Some((stack.drop_last().push(p2), e2)),
                }
            }
        } else {
            st
        },
    }
}

/// The reading state after the events in order.
pub open spec fn ncx_fold(ncx_href: Seq<char>, caps: Seq<Seq<Option<Seq<char>>>>) -> Option<(Seq<NcxPointView>, Seq<TocEntryView>)>
    decreases caps.len(),
{
    if caps.len() == 0 {
        Some((Seq::empty(), Seq::empty()))
    } else {
        ncx_step(ncx_href, ncx_fold(ncx_href, caps.drop_last()), caps.last())
    }
}

/// The points still open at the end, offered from the innermost out.
pub open spec fn ncx_drain(ncx_href: Seq<char>, stack: Seq<NcxPointView>, entries: Seq<TocEntryView>) -> Option<Seq<TocEntryView>>
    decreases stack.len(),
{
    if stack.len() == 0 {
        Some(entries)
    } else {
        match ncx_push(ncx_href, stack.last(), true, entries) {
            None => None,
            Some((_, e2)) => ncx_drain(ncx_href, stack.drop_last(), e2),
        }
    }
}

/// The table of contents read from the events of an NCX file (the groups
/// of each match, in order).
pub open spec fn ncx_entries_spec(ncx_href: Seq<char>, caps: Seq<Seq<Option<Seq<char>>>>) -> Option<Seq<TocEntryView>> {
    match ncx_fold(ncx_href, caps) {
        None => None,
        Some((stack, entries)) => ncx_drain(ncx_href, stack, entries),
    }
}

/// An entry of a book's table of contents.
pub struct EpubTocEntry {
    pub href: String,
    pub fragment: Option<String>,
    pub title: String,
}

pub open spec fn opt_view(o: Option<String>) -> Option<Seq<char>> {
    match o {
        Some(s) => Some(s@),
        None => None,
    }
}

pub open spec fn entry_view(e: EpubTocEntry) -> TocEntryView {
    (e.href@, opt_view(e.fragment), e.title@)
}

pub open spec fn entries_view(v: Seq<EpubTocEntry>) -> Seq<TocEntryView> {
    v.map_values(|e: EpubTocEntry| entry_view(e))
}

pub open spec fn opt_chars_view(o: Option<Vec<char>>) -> Option<Seq<char>> {
    match o {
        Some(s) => Some(s@),
        None => None,
    }
}

struct NcxNavPoint {
    title: Option<Vec<char>>,
    src: Option<Vec<char>>,
    emitted: bool,
}

spec fn point_view(p: NcxNavPoint) -> NcxPointView {
    (opt_chars_view(p.title), opt_chars_view(p.src), p.emitted)
}

spec fn stack_view(v: Seq<NcxNavPoint>) -> Seq<NcxPointView> {
    v.map_values(|p: NcxNavPoint| point_view(p))
}

fn clone_opt(o: &Option<Vec<char>>) -> (r: Option<Vec<char>>)
    ensures
        opt_chars_view(r) == opt_chars_view(*o),
{
    match o {
        Some(v) => Some(v.clone()),
        None => None,
    }
}

/// Offer a point to the table (`ncx_push`); `false` where its link could
/// not be resolved.
fn push_ncx_navpoint_entry(
    ncx_href: &str,
    point: &mut NcxNavPoint,
    allow_default: bool,
    entries: &mut Vec<EpubTocEntry>,
    seen: &mut Vec<Vec<char>>,
) -> (ok: bool)
    requires
        old(seen).deep_view() == entry_keys(entries_view(old(entries)@)),
    ensures
        ok == ncx_push(ncx_href@, point_view(*old(point)), allow_default, entries_view(old(entries)@)) is Some,
        ok ==> ncx_push(ncx_href@, point_view(*old(point)), allow_default, entries_view(old(entries)@)) == Some(
            (point_view(*final(point)), entries_view(final(entries)@)),
        ),
        final(seen).deep_view() == entry_keys(entries_view(final(entries)@)),
{
    if point.emitted {
        return true;
    }
    let src = match &point.src {
        Some(s) => string_of(s),
        None => {
            return true;
        },
    };
    if !href_decodable_exec(ncx_href, src.as_str()) {
        return false;
    }
    let target = match epub_href_target(ncx_href, src.as_str()) {
        Some(t) => t,
        None => {
            return true;
        },
    };
    let title: Vec<char> = match &point.title {
        Some(t) => {
            let tt = trim_chars(t);
            if tt.len() > 0 {
                clean_title_chars(&tt)
            } else if allow_default {
                proof {
                    reveal_strlit("Chapter");
                }
                chars_of("Chapter")
            } else {
                return true;
            }
        },
        None => {
            if allow_default {
                chars_of("Chapter")
            } else {
                return true;
            }
        },
    };
    point.emitted = true;
    let frag_ref: Option<&str> = match &target.fragment {
        Some(f) => Some(f.as_str()),
        None => None,
    };
    let key = epub_target_key(target.href.as_str(), frag_ref);
    let kc = chars_of(key.as_str());
    let ghost old_entries = entries_view(entries@);
    if !crate::books::chapters::holds_key(seen, &kc) {
        let ghost seen_before = seen.deep_view();
        let ghost kv = kc@;
        seen.push(kc);
        proof {
            assert forall|i: int| 0 <= i < seen_before.len() implies #[trigger] seen@[i].deep_view() == seen_before[i] by {
                assert(seen@[i] == old(seen)@[i]);
            }
            lemma_push_deep(seen_before, seen, kv);
        }
        entries.push(EpubTocEntry { href: target.href, fragment: target.fragment, title: string_of(&title) });
        proof {
            assert(entries_view(entries@) =~= old_entries.push(entry_view(entries@.last())));
            assert(entry_keys(entries_view(entries@)) =~= entry_keys(old_entries).push(
                target_key_spec(entry_view(entries@.last()).0, entry_view(entries@.last()).1),
            ));
        }
    }
    true
}


/// The groups of each match, in order.
pub open spec fn caps_groups(caps: Seq<CaptureMatch>) -> Seq<Seq<Option<Seq<char>>>> {
    caps.map_values(|m: CaptureMatch| capture_view(m).2)
}

fn group_at(m: &CaptureMatch, k: usize) -> (r: Option<Vec<char>>)
    ensures
        opt_chars_view(r) == group(capture_view(*m).2, k as int),
{
    if k < m.groups.len() {
        match &m.groups[k] {
            Some(g) => Some(chars_of(g.as_str())),
            None => None,
        }
    } else {
        None
    }
}

/// Apply one event to the open points and the entries (`ncx_step`);
/// `false` where a link could not be resolved.
fn ncx_event(
    ncx_href: &str,
    m: &CaptureMatch,
    stack: &mut Vec<NcxNavPoint>,
    entries: &mut Vec<EpubTocEntry>,
    seen: &mut Vec<Vec<char>>,
) -> (ok: bool)
    requires
        old(seen).deep_view() == entry_keys(entries_view(old(entries)@)),
    ensures
        ({
            let next = ncx_step(
                ncx_href@,
                Some((stack_view(old(stack)@), entries_view(old(entries)@))),
                capture_view(*m).2,
            );
            &&& ok == next is Some
            &&& ok ==> next == Some((stack_view(final(stack)@), entries_view(final(entries)@)))
        }),
        final(seen).deep_view() == entry_keys(entries_view(final(entries)@)),
{
    let ghost cap = capture_view(*m).2;
    let ghost st = Some((stack_view(stack@), entries_view(entries@)));
    let close = group_at(m, 0);
    match close {
        Some(c) => {
            if c.len() == 1 && c[0] == '/' {
                proof {
                    reveal_strlit("/");
                    assert(c@ =~= "/"@);
                }
                match stack.pop() {
                    Some(mut point) => {
                        proof {
                            assert(stack_view(stack@) =~= stack_view(old(stack)@).drop_last());
                        }
                        return push_ncx_navpoint_entry(ncx_href, &mut point, true, entries, seen);
                    },
                    None => {
                        return true;
                    },
                }
            } else {
                proof {
                    reveal_strlit("/");
                    assert(c@ != "/"@) by {
                        if c@ == "/"@ {
                            assert(c@.len() == 1 && c@[0] == '/');
                        }
                    }
                }
                stack.push(NcxNavPoint { title: None, src: None, emitted: false });
                proof {
                    assert(stack_view(stack@) =~= stack_view(old(stack)@).push((None, None, false)));
                }
                return true;
            }
        },
        None => {},
    }
    let attrs = group_at(m, 1);
    match attrs {
        Some(a) => {
            match stack.pop() {
                Some(mut point) => {
                    let pairs = parse_attrs(&a);
                    point.src = attr_get(&pairs, "src");
                    let ok = push_ncx_navpoint_entry(ncx_href, &mut point, false, entries, seen);
                    stack.push(point);
                    proof {
                        assert(stack_view(stack@) =~= stack_view(old(stack)@).drop_last().push(point_view(point)));
                    }
                    return ok;
                },
                None => {
                    return true;
                },
            }
        },
        None => {},
    }
    let text = group_at(m, 2);
    match text {
        Some(t) => {
            match stack.pop() {
                Some(mut point) => {
                    if point.title.is_none() {
                        let ts = string_of(&t);
                        let untagged = crate::patterns::replace_all("(?is)<[^>]+>", ts.as_str(), " ");
                        let decoded = decode_entities(&chars_of(untagged.as_str()));
                        point.title = Some(clean_block_chars(&decoded));
                    }
                    let ok = push_ncx_navpoint_entry(ncx_href, &mut point, false, entries, seen);
                    stack.push(point);
                    proof {
                        assert(stack_view(stack@) =~= stack_view(old(stack)@).drop_last().push(point_view(point)));
                    }
                    return ok;
                },
                None => {
                    return true;
                },
            }
        },
        None => {},
    }
    true
}

/// The table of contents of an NCX file read from the matches of
/// `ncx_event_re` in it: each `navPoint` with a `src` that resolves and a
/// title yields an entry (an unnamed one closed is called `Chapter`), the
/// first time its target appears. `None` where a link holds a `%` escape
/// that cannot be cut out of its text.
pub fn ncx_entries_from_captures(ncx_href: &str, caps: &Vec<CaptureMatch>) -> (r: Option<Vec<EpubTocEntry>>)
    ensures
        match r {
            Some(v) => ncx_entries_spec(ncx_href@, caps_groups(caps@)) == Some(entries_view(v@)),
            None => ncx_entries_spec(ncx_href@, caps_groups(caps@)) is None,
        },
{
    let mut stack: Vec<NcxNavPoint> = Vec::new();
    let mut entries: Vec<EpubTocEntry> = Vec::new();
    let mut seen: Vec<Vec<char>> = Vec::new();
    let mut i: usize = 0;
    proof {
        assert(caps_groups(caps@).take(0) =~= Seq::<Seq<Option<Seq<char>>>>::empty());
        assert(stack_view(stack@) =~= Seq::<NcxPointView>::empty());
        assert(entries_view(entries@) =~= Seq::<TocEntryView>::empty());
        assert(seen.deep_view() =~= Seq::<Seq<char>>::empty());
        assert(entry_keys(entries_view(entries@)) =~= Seq::<Seq<char>>::empty());
    }
    while i < caps.len()
        invariant
            i <= caps.len(),
            ncx_fold(ncx_href@, caps_groups(caps@).take(i as int)) == Some(
                (stack_view(stack@), entries_view(entries@)),
            ),
            seen.deep_view() == entry_keys(entries_view(entries@)),
        decreases caps.len() - i,
    {
        proof {
            assert(caps_groups(caps@).take(i + 1).drop_last() =~= caps_groups(caps@).take(i as int));
            assert(caps_groups(caps@).take(i + 1).last() == capture_view(caps@[i as int]).2);
        }
        let ok = ncx_event(ncx_href, &caps[i], &mut stack, &mut entries, &mut seen);
        if !ok {
            proof {
                lemma_ncx_fold_none(ncx_href@, caps_groups(caps@), i as int + 1);
                assert(caps_groups(caps@).take(caps@.len() as int) =~= caps_groups(caps@));
            }
            return None;
        }
        i += 1;
    }
    proof {
        assert(caps_groups(caps@).take(caps@.len() as int) =~= caps_groups(caps@));
    }
    while stack.len() > 0
        invariant
            ncx_entries_spec(ncx_href@, caps_groups(caps@)) == ncx_drain(
                ncx_href@,
                stack_view(stack@),
                entries_view(entries@),
            ),
            seen.deep_view() == entry_keys(entries_view(entries@)),
        decreases stack.len(),
    {
        let ghost before = stack_view(stack@);
        let mut point = stack.pop().unwrap();
        proof {
            assert(stack_view(stack@) =~= before.drop_last());
        }
        if !push_ncx_navpoint_entry(ncx_href, &mut point, true, &mut entries, &mut seen) {
            return None;
        }
    }
    Some(entries)
}

/// Once a link could not be resolved, no later event changes that.
proof fn lemma_ncx_fold_none(ncx_href: Seq<char>, caps: Seq<Seq<Option<Seq<char>>>>, k: int)
    requires
        0 <= k <= caps.len(),
        ncx_fold(ncx_href, caps.take(k)) is None,
    ensures
        ncx_fold(ncx_href, caps) is None,
    decreases caps.len() - k,
{
    if k < caps.len() {
        assert(caps.take(k + 1).drop_last() =~= caps.take(k));
        lemma_ncx_fold_none(ncx_href, caps, k + 1);
    } else {
        assert(caps.take(k) =~= caps);
    }
}

/// The table of contents of an NCX file (`ncx_href` is its path inside the
/// archive), read from the matches of `ncx_event_re` in it
/// (`ncx_entries_from_captures`); `None` where a link holds a `%` escape
/// that cannot be cut out of its text.
pub fn epub_toc_entries_from_ncx(ncx_href: &str, ncx: &str) -> (r: Option<Vec<EpubTocEntry>>)
    ensures
        match r {
            Some(v) => ncx_entries_spec(
                ncx_href@,
                spec_captures(ncx_event_re(), ncx@).map_values(|c: (int, int, Seq<Option<Seq<char>>>)| c.2),
            ) == Some(entries_view(v@)),
            None => ncx_entries_spec(
                ncx_href@,
                spec_captures(ncx_event_re(), ncx@).map_values(|c: (int, int, Seq<Option<Seq<char>>>)| c.2),
            ) is None,
        },
{
    let caps = captures(
        "(?is)<(?P<close>/?)navPoint\\b[^>]*>|<content\\b(?P<content_attrs>[^>]*)>|<text\\b[^>]*>(?P<text>.*?)</text>",
        ncx,
    );
    proof {
        let named = spec_captures(ncx_event_re(), ncx@);
        assert(caps_groups(caps@) =~= named.map_values(|c: (int, int, Seq<Option<Seq<char>>>)| c.2));
    }
    ncx_entries_from_captures(ncx_href, &caps)
}

} // verus!
