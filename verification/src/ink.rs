//! Ink pages: pen tools, recognition state, correction records, and the
//! attribute scanning used to read pages back from their SVG files.
use vstd::prelude::*;
use crate::text::{matches_at, chars_of, eq_str, find, find_exec, find_from, find_from_exec, lemma_find_from,
    lemma_find_shift, push_str, slice, string_of};
use crate::numbers::{all_digits, decimal, decimal_exec, digits_value, parse_unsigned, parse_unsigned_exec};
use crate::unicode::{is_alphabetic, spec_is_alphabetic};

verus! {

/// Pen tool type for the stroke.
#[derive(Debug, Clone, Copy, PartialEq, Eq, Structural)]
pub enum PenTool {
    Pen,
    Highlighter,
    Eraser,
}

impl PenTool {
    pub open spec fn name_spec(self) -> Seq<char> {
        match self {
            PenTool::Pen => "pen"@,
            PenTool::Highlighter => "highlighter"@,
            PenTool::Eraser => "eraser"@,
        }
    }

    /// Stable lowercase name of the tool.
    pub fn as_str(&self) -> (r: &'static str)
        ensures
            r@ == self.name_spec(),
    {
        match self {
            PenTool::Pen => "pen",
            PenTool::Highlighter => "highlighter",
            PenTool::Eraser => "eraser",
        }
    }

    pub open spec fn parse_spec(s: Seq<char>) -> PenTool {
        if s == "highlighter"@ {
            PenTool::Highlighter
        } else if s == "eraser"@ {
            PenTool::Eraser
        } else {
            PenTool::Pen
        }
    }

    /// The tool named by `s`; any unknown name is the plain pen.
    pub fn from_str(s: &str) -> (r: PenTool)
        ensures
            r == PenTool::parse_spec(s@),
    {
        let v = chars_of(s);
        if eq_str(&v, "highlighter") {
            PenTool::Highlighter
        } else if eq_str(&v, "eraser") {
            PenTool::Eraser
        } else {
            PenTool::Pen
        }
    }
}

/// Recognition status for an ink page.
#[derive(Debug, Clone, Copy, PartialEq, Eq, Structural)]
pub enum RecognitionStatus {
    /// Not yet recognized
    Pending,
    /// Background recognition complete (indexed for search)
    Indexed,
    /// User has confirmed/corrected the recognized text
    Confirmed,
}

impl RecognitionStatus {
    pub open spec fn name_spec(self) -> Seq<char> {
        match self {
            RecognitionStatus::Pending => "pending"@,
            RecognitionStatus::Indexed => "indexed"@,
            RecognitionStatus::Confirmed => "confirmed"@,
        }
    }

    /// Stable lowercase name of the status.
    pub fn as_str(&self) -> (r: &'static str)
        ensures
            r@ == self.name_spec(),
    {
        match self {
            RecognitionStatus::Pending => "pending",
            RecognitionStatus::Indexed => "indexed",
            RecognitionStatus::Confirmed => "confirmed",
        }
    }

    pub open spec fn parse_spec(s: Seq<char>) -> RecognitionStatus {
        if s == "indexed"@ {
            RecognitionStatus::Indexed
        } else if s == "confirmed"@ {
            RecognitionStatus::Confirmed
        } else {
            RecognitionStatus::Pending
        }
    }

    /// The status named by `s`; any unknown name is `Pending`.
    pub fn from_str(s: &str) -> (r: RecognitionStatus)
        ensures
            r == RecognitionStatus::parse_spec(s@),
    {
        let v = chars_of(s);
        if eq_str(&v, "indexed") {
            RecognitionStatus::Indexed
        } else if eq_str(&v, "confirmed") {
            RecognitionStatus::Confirmed
        } else {
            RecognitionStatus::Pending
        }
    }
}

/// A correction pair for on-device training.
#[derive(Debug, Clone)]
pub struct InkCorrection {
    /// Unique ID
    pub id: String,
    /// Reference to the ink index entry
    pub ink_id: String,
    /// The stroke IDs involved in this correction (region of the page)
    pub stroke_ids: Vec<String>,
    /// What the model recognized (before correction)
    pub original_text: String,
    /// What the user corrected it to
    pub corrected_text: String,
    /// Unix timestamp of correction
    pub created_at: i64,
    /// Whether this correction has been used in fine-tuning
    pub used_in_training: bool,
}

/// Writes ink pages as SVG.
pub struct InkSvgSerializer;

/// Reads SVG files written by [`InkSvgSerializer`] back into ink pages.
pub struct InkSvgParser;

/// Where an attribute named `name` starts: the first `" name=\""`, else the
/// first `"\tname=\""`, else the first `"\nname=\""`.
pub open spec fn attr_start(content: Seq<char>, name: Seq<char>) -> Option<int> {
    match find(content, " "@ + name + "=\""@) {
        Some(i) => Some(i),
        None => match find(content, "\t"@ + name + "=\""@) {
            Some(i) => Some(i),
            None => find(content, "\n"@ + name + "=\""@),
        },
    }
}

/// The value of the attribute `name`: the text between its opening quote and
/// the next `"`.
pub open spec fn extract_attr_spec(content: Seq<char>, name: Seq<char>) -> Option<Seq<char>> {
    match attr_start(content, name) {
        None => None,
        Some(start) => match find_from(content, name + "=\""@, start) {
            None => None,
            Some(a) => {
                let value_start = a + name.len() + 2;
                match find_from(content, "\""@, value_start) {
                    None => None,
                    Some(e) => Some(content.subrange(value_start, e)),
                }
            },
        },
    }
}

/// The text strictly between the first `start` marker and the next `end`
/// marker after it.
pub open spec fn extract_between_spec(content: Seq<char>, start: Seq<char>, end: Seq<char>) -> Option<
    Seq<char>,
> {
    match find(content, start) {
        None => None,
        Some(s) => match find_from(content, end, s + start.len()) {
            None => None,
            Some(e) => Some(content.subrange(s + start.len(), e)),
        },
    }
}

fn pattern_of(prefix: &str, name: &Vec<char>, suffix: &str) -> (r: Vec<char>)
    ensures
        r@ == prefix@ + name@ + suffix@,
{
    let mut v = chars_of(prefix);
    crate::text::push_all(&mut v, name);
    push_str(&mut v, suffix);
    v
}

impl InkSvgParser {
    /// Extract an XML attribute value by name, requiring the name to follow a
    /// space, tab or newline.
    pub fn extract_attr(content: &str, attr_name: &str) -> (r: Option<String>)
        ensures
            match r {
                Some(v) => extract_attr_spec(content@, attr_name@) == Some(v@),
                None => extract_attr_spec(content@, attr_name@) is None,
            },
    {
        proof {
            reveal_strlit("=\"");
            reveal_strlit("\"");
            reveal_strlit("");
        }
        let c = chars_of(content);
        let name = chars_of(attr_name);
        let p1 = pattern_of(" ", &name, "=\"");
        let p2 = pattern_of("\t", &name, "=\"");
        let p3 = pattern_of("\n", &name, "=\"");
        let start = match find_exec(&c, &p1) {
            Some(i) => i,
            None => match find_exec(&c, &p2) {
                Some(i) => i,
                None => match find_exec(&c, &p3) {
                    Some(i) => i,
                    None => return None,
                },
            },
        };
        let key = pattern_of("", &name, "=\"");
        proof {
            assert(""@ + name@ + "=\""@ =~= name@ + "=\""@);
        }
        let a = match find_from_exec(&c, &key, start) {
            Some(a) => a,
            None => return None,
        };
        proof {
            lemma_find_from(c@, key@, start as int);
            assert(matches_at(c@, key@, a as int));
        }
        let _clen = c.len();
        let value_start = a + name.len() + 2;
        let quote = chars_of("\"");
        let e = match find_from_exec(&c, &quote, value_start) {
            Some(e) => e,
            None => return None,
        };
        proof {
            lemma_find_from(c@, quote@, value_start as int);
        }
        let v = slice(&c, value_start, e);
        Some(string_of(&v))
    }

    /// Extract the content between two markers.
    pub fn extract_between(content: &str, start_marker: &str, end_marker: &str) -> (r: Option<
        String,
    >)
        ensures
            match r {
                Some(v) => extract_between_spec(content@, start_marker@, end_marker@) == Some(v@),
                None => extract_between_spec(content@, start_marker@, end_marker@) is None,
            },
    {
        let c = chars_of(content);
        let sm = chars_of(start_marker);
        let em = chars_of(end_marker);
        let s = match find_exec(&c, &sm) {
            Some(s) => s,
            None => return None,
        };
        proof {
            lemma_find_from(c@, sm@, 0);
            assert(matches_at(c@, sm@, s as int));
        }
        let _clen = c.len();
        let after = s + sm.len();
        let e = match find_from_exec(&c, &em, after) {
            Some(e) => e,
            None => return None,
        };
        proof {
            lemma_find_from(c@, em@, after as int);
        }
        let v = slice(&c, after, e);
        Some(string_of(&v))
    }
}

// ---------------------------------------------------------------------------
// Reading a page back: its stroke groups, times and path commands.
// ---------------------------------------------------------------------------

/// The stroke groups of an SVG from `from` on: each `<g ` up to and with the
/// next `</g>`, in order; scanning stops at a group that is not closed.
pub open spec fn stroke_groups_from(s: Seq<char>, from: int) -> Seq<Seq<char>>
    decreases s.len() + 1 - from,
{
    if from < 0 || from > s.len() {
        seq![]
    } else {
        match find_from(s, "<g "@, from) {
            None => seq![],
            Some(a) => match find_from(s, "</g>"@, a) {
                None => seq![],
                Some(e) => if from < e + 4 <= s.len() && from <= a <= e {
                    seq![s.subrange(a, e + 4)] + stroke_groups_from(s, e + 4)
                } else {
                    seq![]
                },
            },
        }
    }
}

/// `str::parse::<i64>`: an optional sign, then one or more ASCII digits
/// whose value fits.
pub open spec fn parse_i64_spec(s: Seq<char>) -> Option<int> {
    if s.len() > 0 && s[0] == '-' {
        let d = s.drop_first();
        if d.len() > 0 && all_digits(d) && digits_value(d) <= 0x8000_0000_0000_0000nat {
            Some(-(digits_value(d) as int))
        } else {
            None
        }
    } else {
        match parse_unsigned(s, 0x7fff_ffff_ffff_ffffnat) {
            Some(v) => Some(v as int),
            None => None,
        }
    }
}

/// The time recorded under `key` in the page's metadata, or 0 when it is
/// missing or not a number.
pub open spec fn metadata_time_spec(svg: Seq<char>, key: Seq<char>) -> int {
    match extract_between_spec(svg, "<metadata>"@, "</metadata>"@) {
        Some(meta) => match extract_attr_spec(meta, key) {
            Some(v) => match parse_i64_spec(v) {
                Some(n) => n,
                None => 0,
            },
            None => 0,
        },
        None => 0,
    }
}

/// A path command and the number texts that follow it.
pub type PathCommandView = (char, Seq<Seq<char>>);

/// Scan state of a path's `d` attribute: the finished commands, the command
/// being read, its numbers so far, and the number being read.
pub open spec fn path_scan(d: Seq<char>) -> (Seq<PathCommandView>, char, Seq<Seq<char>>, Seq<char>)
    decreases d.len(),
{
    if d.len() == 0 {
        (seq![], ' ', seq![], seq![])
    } else {
        let (done, cmd, nums, buf) = path_scan(d.drop_last());
        let c = d.last();
        let flushed = if buf.len() > 0 {
            nums.push(buf)
        } else {
            nums
        };
        if spec_is_alphabetic(c) {
            (done.push((cmd, flushed)), c, seq![], seq![])
        } else if ('0' <= c && c <= '9') || c == '.' || c == '-' {
            (done, cmd, nums, buf.push(c))
        } else if c == ' ' || c == ',' {
            (done, cmd, flushed, seq![])
        } else {
            (done, cmd, nums, buf)
        }
    }
}

/// The commands of a path's `d` attribute, each with the texts of its
/// numbers: a letter starts a command (the text before the first letter
/// belongs to a blank command), digits, `.` and `-` make up numbers, and
/// spaces and commas separate them; anything else is skipped.
pub open spec fn path_commands_spec(d: Seq<char>) -> Seq<PathCommandView> {
    let (done, cmd, nums, buf) = path_scan(d);
    let flushed = if buf.len() > 0 {
        nums.push(buf)
    } else {
        nums
    };
    done.push((cmd, flushed))
}

/// A path command and the texts of its numbers.
pub struct PathCommand {
    pub command: char,
    pub numbers: Vec<String>,
}

pub open spec fn path_command_view(c: PathCommand) -> PathCommandView {
    (c.command, c.numbers.deep_view())
}

fn parse_i64_exec(v: &Vec<char>) -> (r: Option<i64>)
    ensures
        match r {
            Some(n) => parse_i64_spec(v@) == Some(n as int),
            None => parse_i64_spec(v@) is None,
        },
{
    if v.len() > 0 && v[0] == '-' {
        let d = slice(v, 1, v.len());
        proof {
            assert(d@ =~= v@.drop_first());
        }
        if d.len() == 0 || d[0] == '+' {
            proof {
                if d@.len() > 0 {
                    assert(!crate::text::is_digit(d@[0]));
                }
            }
            return None;
        }
        match parse_unsigned_exec(&d, 0x8000_0000_0000_0000u64) {
            Some(n) => {
                if n == 0x8000_0000_0000_0000u64 {
                    Some(i64::MIN)
                } else {
                    Some(-(n as i64))
                }
            },
            None => None,
        }
    } else {
        match parse_unsigned_exec(v, 0x7fff_ffff_ffff_ffffu64) {
            Some(n) => Some(n as i64),
            None => None,
        }
    }
}

fn flush_number(nums: &mut Vec<String>, buf: &Vec<char>)
    ensures
        final(nums).deep_view() == if buf@.len() > 0 {
            old(nums).deep_view().push(buf@)
        } else {
            old(nums).deep_view()
        },
{
    if buf.len() > 0 {
        let ghost before = nums.deep_view();
        nums.push(string_of(buf));
        proof {
            assert(nums.deep_view() =~= before.push(buf@));
        }
    }
}

impl InkSvgParser {
    /// The stroke groups of an SVG, in order: each `<g ` up to and with the
    /// next `</g>`; scanning stops at a group that is not closed.
    pub fn stroke_groups(svg_content: &str) -> (r: Vec<String>)
        ensures
            r.deep_view() == stroke_groups_from(svg_content@, 0),
    {
        proof {
            reveal_strlit("<g ");
            reveal_strlit("</g>");
        }
        let c = chars_of(svg_content);
        let open = chars_of("<g ");
        let close = chars_of("</g>");
        let mut out: Vec<String> = Vec::new();
        let mut from: usize = 0;
        proof {
            assert(out.deep_view() + stroke_groups_from(c@, 0) =~= stroke_groups_from(c@, 0));
        }
        loop
            invariant
                from <= c.len(),
                c@ == svg_content@,
                open@ == "<g "@,
                close@ == "</g>"@,
                close@.len() == 4,
                out.deep_view() + stroke_groups_from(c@, from as int) == stroke_groups_from(c@, 0),
            decreases c.len() - from,
        {
            let a = match find_from_exec(&c, &open, from) {
                Some(a) => a,
                None => {
                    proof {
                        assert(out.deep_view() + Seq::<Seq<char>>::empty() =~= out.deep_view());
                    }
                    return out;
                },
            };
            proof {
                lemma_find_from(c@, open@, from as int);
            }
            let e = match find_from_exec(&c, &close, a) {
                Some(e) => e,
                None => {
                    proof {
                        assert(out.deep_view() + Seq::<Seq<char>>::empty() =~= out.deep_view());
                    }
                    return out;
                },
            };
            proof {
                lemma_find_from(c@, close@, a as int);
                assert(matches_at(c@, close@, e as int));
            }
            let g = slice(&c, a, e + 4);
            let ghost before = out.deep_view();
            out.push(string_of(&g));
            proof {
                assert(out.deep_view() + stroke_groups_from(c@, e + 4) =~= before + stroke_groups_from(c@, from as int));
            }
            from = e + 4;
        }
    }

    /// The creation and update times recorded in a page's metadata (0 where
    /// missing or not a number).
    pub fn metadata_times(svg_content: &str) -> (r: (i64, i64))
        ensures
            r.0 == metadata_time_spec(svg_content@, "created"@),
            r.1 == metadata_time_spec(svg_content@, "updated"@),
    {
        match InkSvgParser::extract_between(svg_content, "<metadata>", "</metadata>") {
            Some(meta) => {
                let created = match InkSvgParser::extract_attr(meta.as_str(), "created") {
                    Some(v) => {
                        let vc = chars_of(v.as_str());
                        match parse_i64_exec(&vc) {
                            Some(n) => n,
                            None => 0,
                        }
                    },
                    None => 0,
                };
                let updated = match InkSvgParser::extract_attr(meta.as_str(), "updated") {
                    Some(v) => {
                        let vc = chars_of(v.as_str());
                        match parse_i64_exec(&vc) {
                            Some(n) => n,
                            None => 0,
                        }
                    },
                    None => 0,
                };
                (created, updated)
            },
            None => (0, 0),
        }
    }

    /// The commands of a path's `d` attribute with the texts of their
    /// numbers (see `path_commands_spec`).
    pub fn path_commands(d: &str) -> (r: Vec<PathCommand>)
        ensures
            r@.map_values(|c: PathCommand| path_command_view(c)) == path_commands_spec(d@),
    {
        let dc = chars_of(d);
        let mut done: Vec<PathCommand> = Vec::new();
        let mut cmd: char = ' ';
        let mut nums: Vec<String> = Vec::new();
        let mut buf: Vec<char> = Vec::new();
        let mut i: usize = 0;
        proof {
            assert(dc@.take(0) =~= Seq::<char>::empty());
            assert(done@.map_values(|c: PathCommand| path_command_view(c)) =~= Seq::<PathCommandView>::empty());
            assert(nums.deep_view() =~= Seq::<Seq<char>>::empty());
        }
        while i < dc.len()
            invariant
                i <= dc.len(),
                dc@ == d@,
                (done@.map_values(|c: PathCommand| path_command_view(c)), cmd, nums.deep_view(), buf@)
                    == path_scan(dc@.take(i as int)),
            decreases dc.len() - i,
        {
            let c = dc[i];
            proof {
                assert(dc@.take(i + 1).drop_last() =~= dc@.take(i as int));
                assert(dc@.take(i + 1).last() == c);
            }
            if is_alphabetic(c) {
                flush_number(&mut nums, &buf);
                let ghost before = done@.map_values(|x: PathCommand| path_command_view(x));
                let finished = PathCommand { command: cmd, numbers: nums };
                let ghost fv = path_command_view(finished);
                done.push(finished);
                proof {
                    assert(done@.map_values(|x: PathCommand| path_command_view(x)) =~= before.push(fv));
                }
                cmd = c;
                nums = Vec::new();
                buf = Vec::new();
                proof {
                    assert(nums.deep_view() =~= Seq::<Seq<char>>::empty());
                    assert(buf@ =~= Seq::<char>::empty());
                }
            } else if ('0' <= c && c <= '9') || c == '.' || c == '-' {
                buf.push(c);
            } else if c == ' ' || c == ',' {
                flush_number(&mut nums, &buf);
                buf = Vec::new();
                proof {
                    assert(buf@ =~= Seq::<char>::empty());
                }
            }
            i += 1;
        }
        proof {
            assert(dc@.take(i as int) =~= dc@);
        }
        flush_number(&mut nums, &buf);
        let ghost before = done@.map_values(|x: PathCommand| path_command_view(x));
        let last = PathCommand { command: cmd, numbers: nums };
        let ghost lv = path_command_view(last);
        done.push(last);
        proof {
            assert(done@.map_values(|x: PathCommand| path_command_view(x)) =~= before.push(lv));
        }
        done
    }
}

// ---------------------------------------------------------------------------
// Writing a page: the parts made of text and integers.
// ---------------------------------------------------------------------------

/// `Display` of a signed integer: a minus sign before the digits of a
/// negative one.
pub open spec fn signed_decimal(n: int) -> Seq<char> {
    if n < 0 {
        seq!['-'] + decimal((-n) as nat)
    } else {
        decimal(n as nat)
    }
}

fn signed_decimal_exec(n: i64) -> (r: Vec<char>)
    ensures
        r@ == signed_decimal(n as int),
{
    if n < 0 {
        let m: i128 = -(n as i128);
        let mut out: Vec<char> = Vec::new();
        out.push('-');
        let d = decimal_exec(m as u64);
        crate::text::push_all(&mut out, &d);
        proof {
            assert(out@ =~= seq!['-'] + decimal((-n) as nat));
        }
        out
    } else {
        decimal_exec(n as u64)
    }
}

/// The metadata line of a page: version, creation and update times, and
/// the number of strokes.
pub open spec fn metadata_line_spec(created: int, updated: int, strokes: nat) -> Seq<char> {
    "  <metadata><gfm:ink version=\"1\" created=\""@ + signed_decimal(created) + "\" updated=\""@
        + signed_decimal(updated) + "\" strokes=\""@ + decimal(strokes) + "\"/></metadata>"@
}

/// The texts of a stroke's point timestamps, comma-separated.
pub open spec fn timestamps_spec(ts: Seq<u32>) -> Seq<char>
    decreases ts.len(),
{
    if ts.len() == 0 {
        seq![]
    } else if ts.len() == 1 {
        decimal(ts[0] as nat)
    } else {
        timestamps_spec(ts.drop_last()) + seq![','] + decimal(ts.last() as nat)
    }
}

impl InkSvgSerializer {
    /// The metadata line of a page.
    pub fn metadata_line(created: i64, updated: i64, strokes: usize) -> (r: String)
        ensures
            r@ == metadata_line_spec(created as int, updated as int, strokes as nat),
    {
        let mut out = chars_of("  <metadata><gfm:ink version=\"1\" created=\"");
        let c = signed_decimal_exec(created);
        crate::text::push_all(&mut out, &c);
        push_str(&mut out, "\" updated=\"");
        let u = signed_decimal_exec(updated);
        crate::text::push_all(&mut out, &u);
        push_str(&mut out, "\" strokes=\"");
        let n = decimal_exec(strokes as u64);
        crate::text::push_all(&mut out, &n);
        push_str(&mut out, "\"/></metadata>");
        string_of(&out)
    }

    /// A stroke's point timestamps, comma-separated.
    pub fn timestamp_list(ts: &Vec<u32>) -> (r: String)
        ensures
            r@ == timestamps_spec(ts@),
    {
        let mut out: Vec<char> = Vec::new();
        let mut i: usize = 0;
        proof {
            assert(ts@.take(0) =~= Seq::<u32>::empty());
        }
        while i < ts.len()
            invariant
                i <= ts.len(),
                out@ == timestamps_spec(ts@.take(i as int)),
            decreases ts.len() - i,
        {
            proof {
                assert(ts@.take(i + 1).drop_last() =~= ts@.take(i as int));
            }
            if i > 0 {
                out.push(',');
            }
            let d = decimal_exec(ts[i] as u64);
            crate::text::push_all(&mut out, &d);
            proof {
                if i == 0 {
                    assert(ts@.take(1) =~= seq![ts@[0]]);
                }
                assert(out@ =~= timestamps_spec(ts@.take(i + 1)));
            }
            i += 1;
        }
        proof {
            assert(ts@.take(i as int) =~= ts@);
        }
        string_of(&out)
    }
}

} // verus!
