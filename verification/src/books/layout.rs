//! Where an imported book's files go: page titles under `Books/`, the page
//! files they map to, and the media files beside them.
use vstd::prelude::*;
use crate::books::clean::{sanitize_path_segment, sanitize_path_segment_spec};
use crate::books::BookFormat;
use crate::text::{
    chars_of, eq_ignore_ascii_case, eq_ignore_case, eq_str, push_all, push_str, seq_eq, starts_with,
    starts_with_str, string_of, trim, trim_chars, lemma_chars_deep, lemma_push_deep,
};

verus! {

/// The folder (and page namespace) that holds imported books.
pub const BOOKS_ROOT: &'static str = "Books";

/// The file, in a book's folder, that records what an import wrote.
pub const MANIFEST_FILE: &'static str = ".grafium-book.json";

/// A path separator: `/` or `\`.
pub open spec fn is_sep(c: char) -> bool {
    c == '/' || c == '\\'
}

/// Pieces between separators (`str::split(['/', '\\'])`): always at least
/// one.
pub open spec fn split_on_seps(s: Seq<char>) -> Seq<Seq<char>>
    decreases s.len(),
{
    if s.len() == 0 {
        seq![seq![]]
    } else {
        let rest = split_on_seps(s.drop_last());
        if is_sep(s.last()) {
            rest.push(seq![])
        } else {
            rest.update(rest.len() - 1, rest.last().push(s.last()))
        }
    }
}

proof fn lemma_split_nonempty(s: Seq<char>)
    ensures
        split_on_seps(s).len() >= 1,
    decreases s.len(),
{
    if s.len() > 0 {
        lemma_split_nonempty(s.drop_last());
    }
}

fn split_on_seps_exec(s: &Vec<char>) -> (r: Vec<Vec<char>>)
    ensures
        r.deep_view() == split_on_seps(s@),
{
    let mut done: Vec<Vec<char>> = Vec::new();
    let mut cur: Vec<char> = Vec::new();
    let mut i: usize = 0;
    proof {
        assert(s@.take(0) =~= Seq::<char>::empty());
        assert(done.deep_view().push(cur@) =~= split_on_seps(s@.take(0)));
    }
    while i < s.len()
        invariant
            i <= s.len(),
            done.deep_view().push(cur@) == split_on_seps(s@.take(i as int)),
        decreases s.len() - i,
    {
        let c = s[i];
        proof {
            assert(s@.take(i + 1).drop_last() =~= s@.take(i as int));
            assert(s@.take(i + 1).last() == c);
            lemma_split_nonempty(s@.take(i as int));
        }
        let ghost before = done.deep_view();
        if c == '/' || c == '\\' {
            let ghost cv = cur@;
            let finished = cur;
            done.push(finished);
            cur = Vec::new();
            proof {
                assert forall|k: int| 0 <= k < before.len() implies #[trigger] done@[k].deep_view() == before[k] by {
                    assert(done@[k].deep_view() == done.deep_view()[k]);
                }
                lemma_push_deep(before, &done, cv);
                assert(done.deep_view().push(cur@) =~= before.push(cv).push(seq![]));
            }
        } else {
            cur.push(c);
            proof {
                assert(done.deep_view().push(cur@) =~= split_on_seps(s@.take(i as int)).update(
                    before.len() as int,
                    split_on_seps(s@.take(i as int)).last().push(c),
                ));
            }
        }
        i += 1;
    }
    proof {
        assert(s@.take(i as int) =~= s@);
    }
    let ghost before = done.deep_view();
    let ghost cv = cur@;
    done.push(cur);
    proof {
        assert forall|k: int| 0 <= k < before.len() implies #[trigger] done@[k].deep_view() == before[k] by {
            assert(done@[k].deep_view() == done.deep_view()[k]);
        }
        lemma_push_deep(before, &done, cv);
    }
    done
}

/// A path piece that names no file: empty, `.` or `..`.
pub open spec fn bad_segment(seg: Seq<char>) -> bool {
    seg.len() == 0 || seg == "."@ || seg == ".."@
}

/// Trimmed pieces, where every one names a file.
pub open spec fn clean_segments(parts: Seq<Seq<char>>) -> Option<Seq<Seq<char>>> {
    let t = parts.map_values(|p: Seq<char>| trim(p));
    if exists|i: int| 0 <= i < t.len() && bad_segment(#[trigger] t[i]) {
        None
    } else {
        Some(t)
    }
}

fn clean_segments_exec(parts: &Vec<Vec<char>>, from: usize) -> (r: Option<Vec<String>>)
    requires
        from <= parts@.len(),
    ensures
        match r {
            Some(v) => clean_segments(parts.deep_view().skip(from as int)) == Some(v.deep_view()),
            None => clean_segments(parts.deep_view().skip(from as int)) is None,
        },
{
    proof {
        reveal_strlit(".");
        reveal_strlit("..");
    }
    let ghost src = parts.deep_view().skip(from as int);
    let ghost t = src.map_values(|p: Seq<char>| trim(p));
    let mut out: Vec<String> = Vec::new();
    let mut i: usize = from;
    proof {
        assert(out.deep_view() =~= t.take(0));
    }
    while i < parts.len()
        invariant
            from <= i <= parts@.len(),
            src == parts.deep_view().skip(from as int),
            t == src.map_values(|p: Seq<char>| trim(p)),
            out.deep_view() == t.take(i - from),
            forall|k: int| 0 <= k < i - from ==> !bad_segment(#[trigger] t[k]),
        decreases parts@.len() - i,
    {
        let seg = trim_chars(&parts[i]);
        proof {
            assert(t[i - from] == trim(parts.deep_view()[i as int]));
            lemma_chars_deep(&parts@[i as int]);
            assert(parts.deep_view()[i as int] == parts@[i as int]@);
        }
        if seg.len() == 0 || eq_str(&seg, ".") || eq_str(&seg, "..") {
            proof {
                assert(bad_segment(t[i - from]));
            }
            return None;
        }
        let ghost before = out.deep_view();
        out.push(string_of(&seg));
        proof {
            assert(out.deep_view() =~= before.push(seg@));
            assert(t.take(i - from + 1) =~= t.take(i - from).push(t[i - from]));
            assert(out.deep_view() =~= t.take(i - from + 1));
        }
        i += 1;
    }
    proof {
        assert(t.take(i - from) =~= t);
    }
    Some(out)
}

/// The file of a generated page, relative to the pages folder: the pieces
/// of its title, which must start with `Books` and name a file at every
/// step, the last one with `.md` added. (A piece holds no separator, so it
/// is a single relative path component.)
pub open spec fn page_file_segments_spec(title: Seq<char>) -> Option<Seq<Seq<char>>> {
    let parts = split_on_seps(trim(title));
    if parts[0] != "Books"@ {
        None
    } else {
        match clean_segments(parts.drop_first()) {
            None => None,
            Some(rest) => {
                let segs = seq!["Books"@] + rest;
                Some(segs.update(segs.len() - 1, segs.last() + ".md"@))
            },
        }
    }
}

/// The file of a generated page under the pages folder, as path pieces.
pub fn generated_page_file_segments(title: &str) -> (r: Option<Vec<String>>)
    ensures
        match r {
            Some(v) => page_file_segments_spec(title@) == Some(v.deep_view()),
            None => page_file_segments_spec(title@) is None,
        },
{
    proof {
        reveal_strlit("Books");
    }
    let tc = chars_of(title);
    let t = trim_chars(&tc);
    let parts = split_on_seps_exec(&t);
    proof {
        lemma_split_nonempty(t@);
        lemma_chars_deep(&parts@[0]);
        assert(parts.deep_view()[0] == parts@[0]@);
        assert(parts.deep_view().drop_first() =~= parts.deep_view().skip(1));
    }
    if !eq_str(&parts[0], "Books") {
        return None;
    }
    match clean_segments_exec(&parts, 1) {
        None => None,
        Some(rest) => {
            let mut segs: Vec<String> = Vec::new();
            segs.push(crate::text::owned("Books"));
            let ghost rv = rest.deep_view();
            let mut k: usize = 0;
            proof {
                assert(segs.deep_view() =~= seq!["Books"@] + rv.take(0));
            }
            while k < rest.len()
                invariant
                    k <= rest@.len(),
                    rv == rest.deep_view(),
                    segs.deep_view() == seq!["Books"@] + rv.take(k as int),
                decreases rest@.len() - k,
            {
                let ghost before = segs.deep_view();
                let x = crate::text::owned(rest[k].as_str());
                let ghost xv = x@;
                segs.push(x);
                proof {
                    assert(segs.deep_view() =~= before.push(xv));
                    assert(rv[k as int] == rest@[k as int]@);
                    assert(segs.deep_view() =~= seq!["Books"@] + rv.take(k + 1));
                }
                k += 1;
            }
            proof {
                assert(rv.take(k as int) =~= rv);
            }
            let n = segs.len();
            let ghost sv = segs.deep_view();
            let mut last = chars_of(segs[n - 1].as_str());
            push_str(&mut last, ".md");
            segs.set(n - 1, string_of(&last));
            proof {
                assert(segs.deep_view() =~= sv.update(n - 1, sv.last() + ".md"@));
            }
            Some(segs)
        },
    }
}

/// The file of a book's media, relative to the book's folder: `assets`
/// and the pieces after `assets/`, each naming a file.
pub open spec fn asset_file_segments_spec(relative_path: Seq<char>) -> Option<Seq<Seq<char>>> {
    let p = trim(relative_path);
    if !starts_with(p, "assets/"@) {
        None
    } else {
        match clean_segments(split_on_seps(p.skip(7))) {
            None => None,
            Some(rest) => Some(seq!["assets"@] + rest),
        }
    }
}

/// The file of a book's media under the book's folder, as path pieces.
pub fn generated_asset_file_segments(relative_path: &str) -> (r: Option<Vec<String>>)
    ensures
        match r {
            Some(v) => asset_file_segments_spec(relative_path@) == Some(v.deep_view()),
            None => asset_file_segments_spec(relative_path@) is None,
        },
{
    proof {
        reveal_strlit("assets/");
    }
    let rc = chars_of(relative_path);
    let p = trim_chars(&rc);
    if !starts_with_str(&p, "assets/") {
        return None;
    }
    let rest = crate::text::slice(&p, 7, p.len());
    let parts = split_on_seps_exec(&rest);
    proof {
        assert(rest@ =~= p@.skip(7));
        assert(parts.deep_view().skip(0) =~= parts.deep_view());
    }
    match clean_segments_exec(&parts, 0) {
        None => None,
        Some(tail) => {
            let mut segs: Vec<String> = Vec::new();
            segs.push(crate::text::owned("assets"));
            let ghost tv = tail.deep_view();
            let mut k: usize = 0;
            proof {
                assert(segs.deep_view() =~= seq!["assets"@] + tv.take(0));
            }
            while k < tail.len()
                invariant
                    k <= tail@.len(),
                    tv == tail.deep_view(),
                    segs.deep_view() == seq!["assets"@] + tv.take(k as int),
                decreases tail@.len() - k,
            {
                let ghost before = segs.deep_view();
                let x = crate::text::owned(tail[k].as_str());
                let ghost xv = x@;
                segs.push(x);
                proof {
                    assert(segs.deep_view() =~= before.push(xv));
                    assert(tv[k as int] == tail@[k as int]@);
                    assert(segs.deep_view() =~= seq!["assets"@] + tv.take(k + 1));
                }
                k += 1;
            }
            proof {
                assert(tv.take(k as int) =~= tv);
            }
            Some(segs)
        },
    }
}

/// The file name of a media file inside the book's `assets` folder: its
/// relative path after `assets/`.
pub open spec fn asset_file_name_spec(relative_path: Seq<char>) -> Option<Seq<char>> {
    if starts_with(relative_path, "assets/"@) {
        Some(relative_path.skip(7))
    } else {
        None
    }
}

pub fn asset_file_name(relative_path: &str) -> (r: Option<String>)
    ensures
        crate::books::epub::opt_view(r) == asset_file_name_spec(relative_path@),
{
    proof {
        reveal_strlit("assets/");
    }
    let rc = chars_of(relative_path);
    if !starts_with_str(&rc, "assets/") {
        return None;
    }
    let rest = crate::text::slice(&rc, 7, rc.len());
    proof {
        assert(rest@ =~= rc@.skip(7));
    }
    Some(string_of(&rest))
}

/// The page a recorded import opens with: its first generated page, else
/// `Books/<title>/index` for a non-blank title.
pub open spec fn manifest_index_title_spec(generated_pages: Seq<Seq<char>>, title: Seq<char>) -> Option<Seq<char>> {
    if generated_pages.len() > 0 {
        Some(generated_pages[0])
    } else if trim(title).len() > 0 {
        Some("Books/"@ + sanitize_path_segment_spec(title) + "/index"@)
    } else {
        None
    }
}

pub fn manifest_index_page_title(generated_pages: &Vec<String>, title: &str) -> (r: Option<String>)
    ensures
        crate::books::epub::opt_view(r) == manifest_index_title_spec(generated_pages.deep_view(), title@),
{
    if generated_pages.len() > 0 {
        return Some(crate::text::owned(generated_pages[0].as_str()));
    }
    let tc = chars_of(title);
    let t = trim_chars(&tc);
    if t.len() == 0 {
        return None;
    }
    let mut out = chars_of("Books/");
    let seg = sanitize_path_segment(title);
    let sc = chars_of(seg.as_str());
    push_all(&mut out, &sc);
    push_str(&mut out, "/index");
    Some(string_of(&out))
}

/// The leaf name of a single-page book: its file's stem made safe, unless
/// that is `index` (in any ASCII case) or there is no stem; then the
/// fallback made safe.
pub open spec fn single_page_leaf_spec(file_stem: Option<Seq<char>>, fallback: Seq<char>) -> Seq<char> {
    match file_stem {
        Some(s) => if eq_ignore_case(sanitize_path_segment_spec(s), "index"@) {
            sanitize_path_segment_spec(fallback)
        } else {
            sanitize_path_segment_spec(s)
        },
        None => sanitize_path_segment_spec(fallback),
    }
}

pub fn single_page_book_leaf(file_stem: Option<&str>, fallback: &str) -> (r: String)
    ensures
        r@ == single_page_leaf_spec(
            match file_stem {
                Some(s) => Some(s@),
                None => None,
            },
            fallback@,
        ),
{
    match file_stem {
        Some(s) => {
            let name = sanitize_path_segment(s);
            let nc = chars_of(name.as_str());
            let idx = chars_of("index");
            if eq_ignore_ascii_case(&nc, &idx) {
                sanitize_path_segment(fallback)
            } else {
                name
            }
        },
        None => sanitize_path_segment(fallback),
    }
}

/// The title of a book's page: `Books/<folder>`, and for a PDF one level
/// deeper, named after the file.
pub open spec fn book_index_title_spec(format: BookFormat, folder: Seq<char>, file_stem: Option<Seq<char>>) -> Seq<char> {
    let book = "Books/"@ + folder;
    if format == BookFormat::Pdf {
        book + "/"@ + single_page_leaf_spec(file_stem, folder)
    } else {
        book
    }
}

pub fn book_index_page_title(format: BookFormat, folder_name: &str, file_stem: Option<&str>) -> (r: String)
    ensures
        r@ == book_index_title_spec(
            format,
            folder_name@,
            match file_stem {
                Some(s) => Some(s@),
                None => None,
            },
        ),
{
    let mut out = chars_of("Books/");
    push_str(&mut out, folder_name);
    match format {
        BookFormat::Pdf => {
            push_str(&mut out, "/");
            let leaf = single_page_book_leaf(file_stem, folder_name);
            push_str(&mut out, leaf.as_str());
        },
        _ => {},
    }
    string_of(&out)
}

} // verus!
