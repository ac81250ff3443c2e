//! Media carried along with an imported book: the names its files get in
//! the book's `assets/` folder, and the bytes that go there.
use vstd::prelude::*;
use sha2::Digest;
use vstd::set_lib::{lemma_int_range, lemma_len_subset, lemma_map_size, set_int_range};
use crate::text::{
    chars_of, string_of, is_ws, is_whitespace, is_ascii_alnum, char_from_u32, rfind, rfind_exec,
    lemma_rfind_to, matches_at, seq_eq, push_all, slice, trim_set, trim_set_chars,
};
use crate::numbers::{decimal, decimal_exec, lemma_decimal_injective};
use crate::books::clean::{truncate_chars, truncate_chars_spec};
use crate::books::BookAsset;
use crate::books::clean::{strip_href_suffix, strip_href_suffix_spec};
use crate::books::epub::{
    join_epub_path, join_epub_path_spec, percent_decode_lossy, percent_decode_spec, percent_ok,
    percent_ok_exec, opt_view, opt_chars_view,
};
use crate::text::{starts_with, starts_with_str, split_char, split_char_exec, eq_str};
use vstd::utf8::encode_utf8;

verus! {

// ---------------------------------------------------------------------------
// Content hashes.
// ---------------------------------------------------------------------------

/// The SHA-256 digest of a byte sequence.
pub uninterp spec fn spec_sha256(bytes: Seq<u8>) -> Seq<u8>;

/// `sha2::Sha256::digest`: the SHA-256 digest of the bytes. The digest is
/// named; beyond that the contract states its length of 32 bytes, the
/// output size of SHA-256.
#[verifier::external_body]
fn sha256(bytes: &[u8]) -> (r: Vec<u8>)
    ensures
        r@ == spec_sha256(bytes@),
        r@.len() == 32,
{
    sha2::Sha256::digest(bytes).to_vec()
}

/// The lower-case hexadecimal digit for `n < 16`.
pub open spec fn hex_digit(n: nat) -> char {
    if n < 10 {
        ((n + 48) as u32) as char
    } else {
        ((n + 87) as u32) as char
    }
}

/// Lower-case hexadecimal text of a byte sequence, two digits per byte.
pub open spec fn hex_spec(bytes: Seq<u8>) -> Seq<char>
    decreases bytes.len(),
{
    if bytes.len() == 0 {
        seq![]
    } else {
        hex_spec(bytes.drop_last()) + seq![
            hex_digit((bytes.last() / 16) as nat),
            hex_digit((bytes.last() % 16) as nat),
        ]
    }
}

/// The hexadecimal text has two characters per byte.
pub proof fn lemma_hex_len(bytes: Seq<u8>)
    ensures
        hex_spec(bytes).len() == 2 * bytes.len(),
    decreases bytes.len(),
{
    if bytes.len() > 0 {
        lemma_hex_len(bytes.drop_last());
    }
}

fn hex_digit_exec(n: u8) -> (r: char)
    requires
        n < 16,
    ensures
        r == hex_digit(n as nat),
{
    if n < 10 {
        char_from_u32((n as u32) + 48)
    } else {
        char_from_u32((n as u32) + 87)
    }
}

/// Lower-case hexadecimal text of bytes, two digits each.
pub fn hex_digest(bytes: &[u8]) -> (r: String)
    ensures
        r@ == hex_spec(bytes@),
{
    let mut out: Vec<char> = Vec::new();
    let mut i: usize = 0;
    while i < bytes.len()
        invariant
            i <= bytes.len(),
            out@ == hex_spec(bytes@.take(i as int)),
        decreases bytes.len() - i,
    {
        let b = bytes[i];
        out.push(hex_digit_exec(b / 16));
        out.push(hex_digit_exec(b % 16));
        proof {
            let t = bytes@.take(i + 1);
            assert(t.drop_last() =~= bytes@.take(i as int));
            assert(t.last() == b);
            assert(out@ =~= hex_spec(t));
        }
        i += 1;
    }
    proof {
        assert(bytes@.take(i as int) =~= bytes@);
    }
    string_of(&out)
}

/// The content hash of a source file: the lower-case hexadecimal SHA-256
/// digest of its bytes, 64 digits.
pub fn source_hash(bytes: &[u8]) -> (r: String)
    ensures
        r@ == hex_spec(spec_sha256(bytes@)),
        r@.len() == 64,
{
    let digest = sha256(bytes);
    proof {
        lemma_hex_len(digest@);
    }
    hex_digest(digest.as_slice())
}

/// The first eight hexadecimal digits of the content's SHA-256 digest.
pub open spec fn short_hash_spec(bytes: Seq<u8>) -> Seq<char> {
    hex_spec(spec_sha256(bytes)).take(8)
}

/// A short content hash: the first eight hexadecimal digits of the bytes'
/// SHA-256 digest.
pub fn short_hash_bytes(bytes: &[u8]) -> (r: String)
    ensures
        r@ == short_hash_spec(bytes@),
        r@.len() == 8,
{
    let digest = sha256(bytes);
    let hex = hex_digest(digest.as_slice());
    proof {
        lemma_hex_len(digest@);
    }
    let h = chars_of(hex.as_str());
    let first = slice(&h, 0, 8);
    proof {
        assert(first@ =~= hex@.take(8));
    }
    string_of(&first)
}

// ---------------------------------------------------------------------------
// Asset file names.
// ---------------------------------------------------------------------------

/// The text after the last `c` (all of it without one): `rsplit(c).next()`.
pub open spec fn after_last(s: Seq<char>, c: char) -> Seq<char> {
    match rfind(s, seq![c]) {
        Some(k) => s.subrange(k + 1, s.len() as int),
        None => s,
    }
}

pub(crate) fn after_last_exec(s: &Vec<char>, c: char) -> (r: Vec<char>)
    ensures
        r@ == after_last(s@, c),
{
    let p = vec![c];
    proof {
        assert(p@ =~= seq![c]);
    }
    match rfind_exec(s, &p) {
        Some(k) => {
            proof {
                lemma_rfind_to(s@, p@, s@.len() - p@.len());
                assert(matches_at(s@, p@, k as int));
                assert(k + 1 <= s.len());
            }
            slice(s, k + 1, s.len())
        },
        None => slice(s, 0, s.len()),
    }
}

/// A character that a file name keeps as it is.
pub open spec fn asset_name_char(c: char) -> bool {
    is_ascii_alnum(c) || c == '.' || c == '-' || c == '_'
}

/// Keeps ASCII letters, digits, `.`, `-` and `_`, turns white space into
/// `-`, and drops every other character.
pub open spec fn asset_char_scan(s: Seq<char>) -> Seq<char>
    decreases s.len(),
{
    if s.len() == 0 {
        seq![]
    } else {
        let rest = asset_char_scan(s.drop_last());
        let c = s.last();
        if asset_name_char(c) {
            rest.push(c)
        } else if is_ws(c) {
            rest.push('-')
        } else {
            rest
        }
    }
}

/// The file name that a source name yields: its last path component,
/// filtered, without leading or trailing dots and dashes, at most 120
/// characters.
pub open spec fn asset_stem_spec(source: Seq<char>) -> Seq<char> {
    let raw = after_last(after_last(source, '/'), '\\');
    let first = trim_set(asset_char_scan(raw), seq!['.', '-']);
    trim_set(truncate_chars_spec(first, 120), seq!['.', '-'])
}

/// The asset file name for a source name and its content: the filtered
/// name, or `asset-` and a short content hash where nothing is left of it.
pub open spec fn sanitize_asset_name_spec(source: Seq<char>, bytes: Seq<u8>) -> Seq<char> {
    let stem = asset_stem_spec(source);
    if stem.len() == 0 {
        "asset-"@ + short_hash_spec(bytes)
    } else {
        stem
    }
}

/// A safe file name for an asset, from the name it had at its source.
pub fn sanitize_asset_name(source_name: &str, bytes: &[u8]) -> (r: String)
    ensures
        r@ == sanitize_asset_name_spec(source_name@, bytes@),
        r@.len() > 0,
{
    let s = chars_of(source_name);
    let a = after_last_exec(&s, '/');
    let raw = after_last_exec(&a, '\\');
    let mut name: Vec<char> = Vec::new();
    let mut i: usize = 0;
    while i < raw.len()
        invariant
            i <= raw.len(),
            name@ == asset_char_scan(raw@.take(i as int)),
        decreases raw.len() - i,
    {
        let c = raw[i];
        proof {
            assert(raw@.take(i + 1).drop_last() =~= raw@.take(i as int));
            assert(raw@.take(i + 1).last() == c);
        }
        if ('a' <= c && c <= 'z') || ('A' <= c && c <= 'Z') || ('0' <= c && c <= '9') || c == '.'
            || c == '-' || c == '_' {
            name.push(c);
        } else if is_whitespace(c) {
            name.push('-');
        }
        i += 1;
    }
    proof {
        assert(raw@.take(i as int) =~= raw@);
    }
    let set = vec!['.', '-'];
    proof {
        assert(set@ =~= seq!['.', '-']);
    }
    let first = trim_set_chars(&name, &set);
    let cut = truncate_chars(&first, 120);
    let stem = trim_set_chars(&cut, &set);
    if stem.len() == 0 {
        proof {
            reveal_strlit("asset-");
        }
        let mut out = chars_of("asset-");
        let h = short_hash_bytes(bytes);
        let hc = chars_of(h.as_str());
        push_all(&mut out, &hc);
        string_of(&out)
    } else {
        string_of(&stem)
    }
}

/// A file name split at its last `.` into a stem and an extension (with its
/// dot), where both sides are non-empty; otherwise the whole name and no
/// extension.
pub open spec fn split_extension(base: Seq<char>) -> (Seq<char>, Seq<char>) {
    match rfind(base, seq!['.']) {
        Some(k) => if k > 0 && k + 1 < base.len() {
            (base.subrange(0, k), base.subrange(k, base.len() as int))
        } else {
            (base, seq![])
        },
        None => (base, seq![]),
    }
}

/// The `n`-th alternative to a taken name: `stem-n.ext`.
pub open spec fn numbered_name(base: Seq<char>, n: nat) -> Seq<char> {
    split_extension(base).0 + seq!['-'] + decimal(n) + split_extension(base).1
}

/// The characters of each name.
pub open spec fn names_of(used: Seq<String>) -> Seq<Seq<char>> {
    used.map_values(|s: String| s@)
}

/// Numbered names of one base are distinct for distinct numbers.
proof fn lemma_numbered_injective(base: Seq<char>, a: nat, b: nat)
    requires
        numbered_name(base, a) == numbered_name(base, b),
    ensures
        a == b,
{
    let stem = split_extension(base).0;
    let ext = split_extension(base).1;
    let x = numbered_name(base, a);
    let start = stem.len() as int + 1;
    let y = numbered_name(base, b);
    assert(x.len() == stem.len() + 1 + decimal(a).len() + ext.len());
    assert(y.len() == stem.len() + 1 + decimal(b).len() + ext.len());
    assert(decimal(a).len() == decimal(b).len());
    assert(decimal(a) =~= x.subrange(start, start + decimal(a).len()));
    assert(decimal(b) =~= y.subrange(start, start + decimal(b).len()));
    lemma_decimal_injective(a, b);
}

/// Among the numbers `2 ..= used.len() + 2` one gives a free name.
proof fn lemma_free_number(base: Seq<char>, used: Seq<Seq<char>>)
    ensures
        exists|n: nat| 2 <= n <= used.len() + 2 && !used.contains(#[trigger] numbered_name(base, n)),
{
    let hi = used.len() as int + 3;
    let f = |i: int| numbered_name(base, i as nat);
    let x = set_int_range(2, hi);
    lemma_int_range(2, hi);
    assert forall|i1: int, i2: int|
        x.contains(i1) && x.contains(i2) && #[trigger] f(i1) == #[trigger] f(i2) implies i1 == i2 by {
        lemma_numbered_injective(base, i1 as nat, i2 as nat);
    }
    let y = x.map(f);
    lemma_map_size(x, y, f);
    if forall|n: nat| 2 <= n <= used.len() + 2 ==> used.contains(#[trigger] numbered_name(base, n)) {
        assert forall|s: Seq<char>| y.contains(s) implies used.to_set().contains(s) by {
            let i = choose|i: int| x.contains(i) && f(i) == s;
            assert(used.contains(numbered_name(base, i as nat)));
        }
        used.lemma_cardinality_of_set();
        lemma_len_subset(y, used.to_set());
        assert(false);
    }
}

/// Whether `s` is among the names.
fn name_taken(used: &Vec<String>, s: &Vec<char>) -> (r: bool)
    ensures
        r == names_of(used@).contains(s@),
{
    let mut j: usize = 0;
    while j < used.len()
        invariant
            j <= used.len(),
            forall|k: int| 0 <= k < j ==> used@[k]@ != s@,
        decreases used.len() - j,
    {
        let c = chars_of(used[j].as_str());
        if seq_eq(&c, s) {
            proof {
                assert(names_of(used@)[j as int] == s@);
            }
            return true;
        }
        j += 1;
    }
    proof {
        if names_of(used@).contains(s@) {
            let k = choose|k: int| 0 <= k < names_of(used@).len() && names_of(used@)[k] == s@;
            assert(used@[k]@ == s@);
        }
    }
    false
}

/// A name not yet taken: `base` itself where it is free, else the first
/// free `stem-n.ext` for `n` from 2 on. The name is recorded as taken.
pub fn unique_name(base: &Vec<char>, used: &mut Vec<String>) -> (r: Vec<char>)
    requires
        old(used)@.len() + 3 <= usize::MAX,
    ensures
        !names_of(old(used)@).contains(r@),
        names_of(final(used)@) == names_of(old(used)@).push(r@),
        !names_of(old(used)@).contains(base@) ==> r@ == base@,
        names_of(old(used)@).contains(base@) ==> exists|n: nat|
            2 <= n && r@ == numbered_name(base@, n) && forall|k: nat|
                2 <= k < n ==> names_of(old(used)@).contains(#[trigger] numbered_name(base@, k)),
{
    let ghost names = names_of(used@);
    if !name_taken(used, base) {
        used.push(string_of(base));
        proof {
            assert(names_of(used@) =~= names.push(base@));
        }
        let r = slice(base, 0, base.len());
        proof {
            assert(r@ =~= base@);
        }
        return r;
    }
    let dot = vec!['.'];
    proof {
        assert(dot@ =~= seq!['.']);
    }
    let (stem, ext) = match rfind_exec(base, &dot) {
        Some(k) => {
            proof {
                lemma_rfind_to(base@, dot@, base@.len() - dot@.len());
            }
            if k > 0 && base.len() - k > 1 {
                (slice(base, 0, k), slice(base, k, base.len()))
            } else {
                (slice(base, 0, base.len()), Vec::new())
            }
        },
        None => (slice(base, 0, base.len()), Vec::new()),
    };
    proof {
        assert(stem@ == split_extension(base@).0);
        assert(ext@ =~= split_extension(base@).1);
        lemma_free_number(base@, names);
    }
    let mut idx: usize = 2;
    loop
        invariant
            2 <= idx <= names.len() + 2,
            names == names_of(used@),
            names == names_of(old(used)@),
            names.contains(base@),
            names.len() + 3 <= usize::MAX,
            names.len() == used@.len(),
            stem@ == split_extension(base@).0,
            ext@ == split_extension(base@).1,
            forall|k: nat| 2 <= k < idx ==> names.contains(#[trigger] numbered_name(base@, k)),
            exists|n: nat| 2 <= n <= names.len() + 2 && !names.contains(#[trigger] numbered_name(base@, n)),
        decreases names.len() + 2 - idx,
    {
        let mut cand = slice(&stem, 0, stem.len());
        cand.push('-');
        let digits = decimal_exec(idx as u64);
        push_all(&mut cand, &digits);
        push_all(&mut cand, &ext);
        proof {
            assert(cand@ =~= numbered_name(base@, idx as nat));
        }
        if !name_taken(used, &cand) {
            used.push(string_of(&cand));
            proof {
                assert(names_of(used@) =~= names.push(cand@));
            }
            return cand;
        }
        proof {
            if idx == names.len() + 2 {
                let n = choose|n: nat| 2 <= n <= names.len() + 2 && !names.contains(#[trigger] numbered_name(base@, n));
                assert(names.contains(numbered_name(base@, n)));
            }
        }
        idx += 1;
    }
}


// ---------------------------------------------------------------------------
// Which links name media to carry along.
// ---------------------------------------------------------------------------

/// Inline data or a web address: nothing to copy.
pub open spec fn is_remote_href(href: Seq<char>) -> bool {
    starts_with(href, "data:"@) || starts_with(href, "http://"@) || starts_with(href, "https://"@)
}

/// The `%XX` escapes of the link's path part can be decoded: each lies on
/// character boundaries of the text.
pub open spec fn href_decodes(href: Seq<char>) -> bool {
    percent_ok(encode_utf8(strip_href_suffix_spec(href)), 0)
}

/// Whether the escapes of a link's path part can be decoded.
pub fn href_decodes_exec(href: &str) -> (r: bool)
    ensures
        r == href_decodes(href@),
{
    let h = chars_of(href);
    let cleaned = strip_href_suffix(&h);
    let text = string_of(&cleaned);
    percent_ok_exec(text.as_str().as_bytes())
}

/// The decoded path part of a link to a local file, if the collector
/// follows it.
pub open spec fn decoded_href_path(href: Seq<char>) -> Option<Seq<char>> {
    if is_remote_href(href) {
        None
    } else {
        let cleaned = strip_href_suffix_spec(href);
        if cleaned.len() == 0 {
            None
        } else {
            Some(percent_decode_spec(cleaned))
        }
    }
}

fn decoded_href_path_exec(href: &str) -> (r: Option<Vec<char>>)
    requires
        href_decodes(href@),
    ensures
        opt_chars_view(r) == decoded_href_path(href@),
{
    proof {
        reveal_strlit("data:");
        reveal_strlit("http://");
        reveal_strlit("https://");
    }
    let h = chars_of(href);
    if starts_with_str(&h, "data:") || starts_with_str(&h, "http://") || starts_with_str(
        &h,
        "https://",
    ) {
        return None;
    }
    let cleaned = strip_href_suffix(&h);
    if cleaned.len() == 0 {
        return None;
    }
    let text = string_of(&cleaned);
    let decoded = percent_decode_lossy(text.as_str());
    Some(chars_of(decoded.as_str()))
}

/// A path relative to a book's source folder that stays inside it: not
/// absolute, and no `..` component.
pub open spec fn stays_inside(path: Seq<char>) -> bool {
    !(path.len() > 0 && path[0] == '/') && !split_char(path, '/').contains(".."@)
}

/// The relative path of a local file that an HTML book links to, when the
/// collector copies it: not inline data or a web address, a non-empty path
/// part, decoded, not absolute and never climbing out with `..`.
pub open spec fn local_asset_path_spec(href: Seq<char>) -> Option<Seq<char>> {
    match decoded_href_path(href) {
        Some(p) => if stays_inside(p) {
            Some(p)
        } else {
            None
        },
        None => None,
    }
}

/// The relative path of a local file to copy for a link of an HTML book.
pub fn local_asset_path(href: &str) -> (r: Option<String>)
    requires
        href_decodes(href@),
    ensures
        opt_view(r) == local_asset_path_spec(href@),
{
    match decoded_href_path_exec(href) {
        Some(p) => {
            let parts = split_char_exec(&p, '/');
            let mut j: usize = 0;
            while j < parts.len()
                invariant
                    j <= parts.len(),
                    parts.deep_view() == split_char(p@, '/'),
                    decoded_href_path(href@) == Some(p@),
                    forall|k: int| 0 <= k < j ==> parts.deep_view()[k] != ".."@,
                decreases parts.len() - j,
            {
                if eq_str(&parts[j], "..") {
                    proof {
                        assert(parts.deep_view()[j as int] == parts@[j as int]@);
                        assert(split_char(p@, '/').contains(".."@));
                    }
                    return None;
                }
                proof {
                    assert(parts.deep_view()[j as int] == parts@[j as int]@);
                }
                j += 1;
            }
            proof {
                if split_char(p@, '/').contains(".."@) {
                    let k = choose|k: int|
                        0 <= k < split_char(p@, '/').len() && split_char(p@, '/')[k] == ".."@;
                    assert(parts.deep_view()[k] == ".."@);
                }
            }
            if p.len() > 0 && p[0] == '/' {
                return None;
            }
            Some(string_of(&p))
        },
        None => None,
    }
}

/// The archive path of a file that an EPUB chapter in `chapter_dir` links
/// to, when the collector copies it.
pub open spec fn epub_asset_path_spec(chapter_dir: Seq<char>, href: Seq<char>) -> Option<Seq<char>> {
    match decoded_href_path(href) {
        Some(p) => join_epub_path_spec(chapter_dir, p),
        None => None,
    }
}

/// The archive path of a file to copy for a link of an EPUB chapter.
pub fn epub_asset_path(chapter_dir: &str, href: &str) -> (r: Option<String>)
    requires
        href_decodes(href@),
    ensures
        opt_view(r) == epub_asset_path_spec(chapter_dir@, href@),
{
    match decoded_href_path_exec(href) {
        Some(p) => {
            let dir = chars_of(chapter_dir);
            match join_epub_path(&dir, &p) {
                Some(z) => Some(string_of(&z)),
                None => None,
            }
        },
        None => None,
    }
}

// ---------------------------------------------------------------------------
// The collector.
// ---------------------------------------------------------------------------

/// The media gathered while a book is converted, each under a name that no
/// other one has.
pub struct AssetCollector {
    used_names: Vec<String>,
    assets: Vec<BookAsset>,
}

/// The path of a named asset inside the book's folder.
pub open spec fn asset_path(name: Seq<char>) -> Seq<char> {
    "assets/"@ + name
}

impl AssetCollector {
    /// The names taken so far, in the order they were given.
    pub closed spec fn names(&self) -> Seq<Seq<char>> {
        names_of(self.used_names@)
    }

    /// The relative paths of the collected assets, in order.
    pub closed spec fn paths(&self) -> Seq<Seq<char>> {
        self.assets@.map_values(|a: BookAsset| a.relative_path@)
    }

    /// The contents of the collected assets, in order.
    pub closed spec fn contents(&self) -> Seq<Seq<u8>> {
        self.assets@.map_values(|a: BookAsset| a.bytes@)
    }

    /// Each asset sits under the name given for it, and no name is given
    /// twice.
    pub closed spec fn wf(&self) -> bool {
        &&& self.assets@.len() == self.used_names@.len()
        &&& forall|i: int|
            0 <= i < self.assets@.len() ==> #[trigger] self.assets@[i].relative_path@ == asset_path(
                self.used_names@[i]@,
            )
        &&& forall|i: int, j: int|
            0 <= i < j < self.used_names@.len() ==> self.used_names@[i]@ != self.used_names@[j]@
    }

    pub fn new() -> (r: Self)
        ensures
            r.wf(),
            r.names() == Seq::<Seq<char>>::empty(),
            r.paths() == Seq::<Seq<char>>::empty(),
            r.contents() == Seq::<Seq<u8>>::empty(),
    {
        let r = AssetCollector { used_names: Vec::new(), assets: Vec::new() };
        proof {
            assert(r.names() =~= Seq::<Seq<char>>::empty());
            assert(r.paths() =~= Seq::<Seq<char>>::empty());
            assert(r.contents() =~= Seq::<Seq<u8>>::empty());
        }
        r
    }

    /// Adds media under a name derived from `source_name` that no earlier
    /// asset has, and returns its path inside the book's folder.
    pub fn add_bytes(&mut self, source_name: &str, bytes: Vec<u8>) -> (r: String)
        requires
            old(self).wf(),
            old(self).names().len() + 3 <= usize::MAX,
        ensures
            final(self).wf(),
            !old(self).names().contains(final(self).names().last()),
            final(self).names() == old(self).names().push(final(self).names().last()),
            r@ == asset_path(final(self).names().last()),
            final(self).paths() == old(self).paths().push(r@),
            final(self).contents() == old(self).contents().push(bytes@),
            ({
                let base = sanitize_asset_name_spec(source_name@, bytes@);
                let name = final(self).names().last();
                &&& !old(self).names().contains(base) ==> name == base
                &&& old(self).names().contains(base) ==> exists|n: nat|
                    2 <= n && name == numbered_name(base, n) && forall|k: nat|
                        2 <= k < n ==> old(self).names().contains(#[trigger] numbered_name(base, k))
            }),
    {
        let base = sanitize_asset_name(source_name, bytes.as_slice());
        let bc = chars_of(base.as_str());
        let ghost old_names = self.names();
        let ghost old_paths = self.paths();
        let ghost old_contents = self.contents();
        let name = unique_name(&bc, &mut self.used_names);
        proof {
            reveal_strlit("assets/");
        }
        let mut path = chars_of("assets/");
        push_all(&mut path, &name);
        let relative_path = string_of(&path);
        let rc = string_of(&path);
        let ghost pre_assets = self.assets@;
        self.assets.push(BookAsset { relative_path, bytes });
        proof {
            assert(self.names().last() == name@);
            assert(self.paths() =~= old_paths.push(rc@));
            assert(self.contents() =~= old_contents.push(bytes@));
            assert forall|i: int, j: int|
                0 <= i < j < self.used_names@.len() implies self.used_names@[i]@
                != self.used_names@[j]@ by {
                assert(names_of(self.used_names@)[i] == self.used_names@[i]@);
                assert(names_of(self.used_names@)[j] == self.used_names@[j]@);
                assert(names_of(self.used_names@)[i] == old_names.push(name@)[i]);
                assert(names_of(self.used_names@)[j] == old_names.push(name@)[j]);
                if j == self.used_names@.len() - 1 {
                    assert(old_names.contains(old_names[i]));
                } else {
                    assert(old_names[i] == names_of(old(self).used_names@)[i]);
                    assert(old_names[j] == names_of(old(self).used_names@)[j]);
                }
            }
            assert forall|i: int| 0 <= i < self.assets@.len() implies #[trigger] self.assets@[i].relative_path@
                == asset_path(self.used_names@[i]@) by {
                assert(names_of(self.used_names@)[i] == self.used_names@[i]@);
                assert(names_of(self.used_names@)[i] == old_names.push(name@)[i]);
                if i < self.assets@.len() - 1 {
                    assert(self.assets@[i] == pre_assets[i]);
                    assert(old_names[i] == names_of(old(self).used_names@)[i]);
                }
            }
        }
        rc
    }

    /// The number of assets collected so far.
    pub fn len(&self) -> (r: usize)
        requires
            self.wf(),
        ensures
            r == self.names().len(),
            r == self.paths().len(),
    {
        self.used_names.len()
    }

    /// The collected assets, in the order they were added.
    pub fn into_assets(self) -> (r: Vec<BookAsset>)
        ensures
            r@.map_values(|a: BookAsset| a.relative_path@) == self.paths(),
            r@.map_values(|a: BookAsset| a.bytes@) == self.contents(),
    {
        self.assets
    }
}

/// No two collected assets share a path.
pub proof fn lemma_asset_paths_distinct(c: &AssetCollector)
    requires
        c.wf(),
    ensures
        forall|i: int, j: int| 0 <= i < j < c.paths().len() ==> c.paths()[i] != c.paths()[j],
{
    reveal_strlit("assets/");
    assert forall|i: int, j: int| 0 <= i < j < c.paths().len() implies c.paths()[i] != c.paths()[j] by {
        let a = c.used_names@[i]@;
        let b = c.used_names@[j]@;
        assert(c.assets@[i].relative_path@ == asset_path(a));
        assert(c.assets@[j].relative_path@ == asset_path(b));
        if asset_path(a) == asset_path(b) {
            assert(a =~= asset_path(a).subrange(7, asset_path(a).len() as int));
            assert(b =~= asset_path(b).subrange(7, asset_path(b).len() as int));
        }
    }
}

} // verus!
