//! Multi-graph registry: the set of knowledge graphs the app knows about,
//! keyed by graph id.
//!
//! The registry itself is plain data; reading and writing its JSON file, and
//! checking that a graph's folder exists, happen around it.
use vstd::prelude::*;
use crate::text::{chars_of, find, lemma_chars_deep, lemma_find_from, matches_at, seq_eq, split_char, split_char_exec, starts_with};

verus! {

/// Type of graph in the registry.
#[derive(Debug, Clone, Copy, PartialEq, Eq, Structural)]
pub enum GraphType {
    /// User-created primary graph (notes, journal, etc.).
    Primary,
    /// Reference material (books, papers, documentation).
    Reference,
    /// Ingested from external sources (web scrapes, OCR'd PDFs).
    Ingested,
    /// Archive (read-only, not actively indexed).
    Archive,
}

/// A registered graph in the system.
#[derive(Debug, Clone)]
pub struct RegisteredGraph {
    /// Unique identifier for this graph.
    pub id: String,
    /// Display name.
    pub name: String,
    /// Filesystem path to the graph root.
    pub path: String,
    /// What kind of graph this is.
    pub graph_type: GraphType,
    /// When the graph was last indexed.
    pub last_indexed: Option<i64>,
    /// Number of pages in this graph (cached).
    pub page_count: Option<usize>,
    /// Number of vectors in the store for this graph (cached).
    pub vector_count: Option<usize>,
    /// Whether to include in cross-graph searches.
    pub cross_searchable: bool,
    /// Optional description.
    pub description: Option<String>,
}

/// Why a registry operation was refused.
#[derive(Debug, Clone, PartialEq, Eq)]
pub enum RegistryError {
    /// The graph's folder does not exist.
    NotFound(String),
}

/// The multi-graph registry.
pub struct GraphRegistry {
    graphs: Vec<RegisteredGraph>,
    config_path: String,
}

/// No two entries share an id.
pub open spec fn ids_distinct(gs: Seq<RegisteredGraph>) -> bool {
    forall|i: int, j: int| 0 <= i < gs.len() && 0 <= j < gs.len() && i != j ==> gs[i].id@ != gs[j].id@
}

/// The registry's contents as a map from id to graph.
pub open spec fn graphs_map(gs: Seq<RegisteredGraph>) -> Map<Seq<char>, RegisteredGraph>
    decreases gs.len(),
{
    if gs.len() == 0 {
        Map::empty()
    } else {
        graphs_map(gs.drop_last()).insert(gs.last().id@, gs.last())
    }
}

/// The non-empty pieces other than `.`.
pub open spec fn keep_normal(ps: Seq<Seq<char>>) -> Seq<Seq<char>>
    decreases ps.len(),
{
    if ps.len() == 0 {
        seq![]
    } else if ps.last().len() > 0 && ps.last() != seq!['.'] {
        keep_normal(ps.drop_last()).push(ps.last())
    } else {
        keep_normal(ps.drop_last())
    }
}

/// Rust's `Path::components` for `/`-separated paths: a leading root, a
/// leading `.` of a relative path, then the pieces that are neither empty nor
/// `.`.
pub open spec fn path_components(p: Seq<char>) -> Seq<Seq<char>> {
    let pieces = split_char(p, '/');
    if p.len() > 0 && p[0] == '/' {
        seq![seq!['/']] + keep_normal(pieces)
    } else if pieces.len() > 0 && pieces[0] == seq!['.'] {
        seq![seq!['.']] + keep_normal(pieces.drop_first())
    } else {
        keep_normal(pieces)
    }
}

/// `Path::starts_with`: the components of `base` are a prefix of those of `p`.
pub open spec fn path_starts_with(p: Seq<char>, base: Seq<char>) -> bool {
    let a = path_components(p);
    let b = path_components(base);
    b.len() <= a.len() && a.take(b.len() as int) == b
}

/// A path starts with a base exactly when the base has no more components
/// than the path and each component of the base equals the path's component
/// at the same place; in particular, where the path's component at the place
/// of the base's last component differs from it (`notes-archive` against
/// `notes`), the path does not start with the base, whatever characters the
/// two share.
pub proof fn lemma_path_starts_with_is_componentwise(p: Seq<char>, base: Seq<char>)
    ensures
        path_starts_with(p, base) <==> ({
            let a = path_components(p);
            let b = path_components(base);
            &&& b.len() <= a.len()
            &&& forall|k: int| 0 <= k < b.len() ==> #[trigger] a[k] == b[k]
        }),
        ({
            let a = path_components(p);
            let b = path_components(base);
            0 < b.len() <= a.len() && a[b.len() - 1] != b[b.len() - 1]
        }) ==> !path_starts_with(p, base),
{
    let a = path_components(p);
    let b = path_components(base);
    if b.len() <= a.len() {
        if forall|k: int| 0 <= k < b.len() ==> #[trigger] a[k] == b[k] {
            assert(a.take(b.len() as int) =~= b);
        }
        if a.take(b.len() as int) == b {
            assert forall|k: int| 0 <= k < b.len() implies #[trigger] a[k] == b[k] by {
                assert(a.take(b.len() as int)[k] == a[k]);
            }
        }
        if 0 < b.len() && a[b.len() - 1] != b[b.len() - 1] {
            assert(a.take(b.len() as int)[b.len() - 1] == a[b.len() - 1]);
        }
    }
}

/// Where the first `c` of `s` is, as `find` reports it.
proof fn lemma_find_char(s: Seq<char>, c: char)
    ensures
        match find(s, seq![c]) {
            Some(i) => 0 <= i < s.len() && s[i] == c && forall|m: int| 0 <= m < i ==> s[m] != c,
            None => forall|m: int| 0 <= m < s.len() ==> s[m] != c,
        },
{
    lemma_find_from(s, seq![c], 0);
    match find(s, seq![c]) {
        Some(i) => {
            assert(s.subrange(i, i + 1)[0] == s[i]);
            assert forall|m: int| 0 <= m < i implies s[m] != c by {
                if s[m] == c {
                    assert(s.subrange(m, m + 1) =~= seq![c]);
                    assert(matches_at(s, seq![c], m));
                }
            }
        },
        None => {
            assert forall|m: int| 0 <= m < s.len() implies s[m] != c by {
                if s[m] == c {
                    assert(s.subrange(m, m + 1) =~= seq![c]);
                    assert(matches_at(s, seq![c], m));
                }
            }
        },
    }
}

/// Appending characters that do not start with `c` keeps every piece of
/// `a` but the last, and lengthens the last.
proof fn lemma_split_extend(a: Seq<char>, s: Seq<char>, c: char)
    requires
        s.len() > 0,
        s[0] != c,
    ensures
        split_char(a, c).len() >= 1,
        split_char(a + s, c).len() >= split_char(a, c).len(),
        forall|k: int| 0 <= k < split_char(a, c).len() - 1 ==> #[trigger] split_char(a + s, c)[k] == split_char(a, c)[k],
        ({
            let l = split_char(a, c).last();
            let m = split_char(a + s, c)[split_char(a, c).len() - 1];
            m.len() > l.len() && m.take(l.len() as int) == l
        }),
    decreases a.len(),
{
    let t = a + s;
    lemma_find_char(a, c);
    lemma_find_char(t, c);
    match find(a, seq![c]) {
        Some(i) => {
            assert(t[i] == a[i]);
            match find(t, seq![c]) {
                Some(j) => {
                    if j < i {
                        assert(t[j] == a[j]);
                    }
                    if j > i {
                        assert(t[i] == c);
                    }
                },
                None => {
                    assert(t[i] == c);
                },
            }
            assert(find(t, seq![c]) == Some(i));
            assert(t.take(i) =~= a.take(i));
            assert(t.skip(i + 1) =~= a.skip(i + 1) + s);
            lemma_split_extend(a.skip(i + 1), s, c);
            let ra = split_char(a.skip(i + 1), c);
            let rt = split_char(a.skip(i + 1) + s, c);
            assert(split_char(a, c) == seq![a.take(i)] + ra);
            assert(split_char(t, c) == seq![a.take(i)] + rt);
            assert forall|k: int| 0 <= k < split_char(a, c).len() - 1 implies #[trigger] split_char(t, c)[k]
                == split_char(a, c)[k] by {
                if k > 0 {
                    assert(split_char(t, c)[k] == rt[k - 1]);
                    assert(split_char(a, c)[k] == ra[k - 1]);
                }
            }
            assert(split_char(a, c).last() == ra.last());
            assert(split_char(t, c)[split_char(a, c).len() - 1] == rt[ra.len() - 1]);
        },
        None => {
            assert(split_char(a, c) == seq![a]);
            match find(t, seq![c]) {
                Some(j) => {
                    if j < a.len() {
                        assert(t[j] == a[j]);
                    }
                    assert(t[a.len() as int] == s[0]);
                    assert(split_char(t, c)[0] == t.take(j));
                    assert(t.take(j).take(a.len() as int) =~= a);
                },
                None => {
                    assert(split_char(t, c) == seq![t]);
                    assert(t.take(a.len() as int) =~= a);
                },
            }
        },
    }
}

proof fn lemma_keep_normal_concat(x: Seq<Seq<char>>, y: Seq<Seq<char>>)
    ensures
        keep_normal(x + y) == keep_normal(x) + keep_normal(y),
    decreases y.len(),
{
    if y.len() == 0 {
        assert(x + y =~= x);
        assert(keep_normal(x) + keep_normal(y) =~= keep_normal(x));
    } else {
        assert((x + y).drop_last() =~= x + y.drop_last());
        assert((x + y).last() == y.last());
        lemma_keep_normal_concat(x, y.drop_last());
        if y.last().len() > 0 && y.last() != seq!['.'] {
            assert(keep_normal(x) + keep_normal(y) =~= (keep_normal(x) + keep_normal(y.drop_last())).push(y.last()));
        }
    }
}

/// Where the component lists agree up to a place and then differ there, the
/// longer does not start with the shorter.
proof fn lemma_diverging_components(x: Seq<Seq<char>>, l: Seq<char>, m: Seq<char>, y: Seq<Seq<char>>)
    requires
        l != m,
    ensures
        !({
            let b = x + seq![l];
            let a = x + seq![m] + y;
            b.len() <= a.len() && a.take(b.len() as int) == b
        }),
{
    let b = x + seq![l];
    let a = x + seq![m] + y;
    if b.len() <= a.len() && a.take(b.len() as int) == b {
        assert(a.take(b.len() as int)[x.len() as int] == a[x.len() as int]);
        assert(a[x.len() as int] == m);
        assert(b[x.len() as int] == l);
    }
}

/// A path that carries the last name of a base on with more characters
/// (`/graphs/notes-archive/page.md` against `/graphs/notes`) is not inside
/// that base, though the base is a prefix of its characters: the base must
/// end in a name (not in `/` or `.`), and what follows must not begin with
/// `/`.
pub proof fn lemma_longer_name_is_outside(base: Seq<char>, rest: Seq<char>)
    requires
        split_char(base, '/').last().len() > 0,
        split_char(base, '/').last() != seq!['.'],
        rest.len() > 0,
        rest[0] != '/',
    ensures
        !path_starts_with(base + rest, base),
{
    let p = base + rest;
    let pa = split_char(base, '/');
    let ps = split_char(p, '/');
    lemma_split_extend(base, rest, '/');
    let n: int = pa.len() as int;
    let l = pa.last();
    let m = ps[n - 1];
    assert(m.len() > l.len());
    assert(m.len() >= 2);
    assert(m != seq!['.']);
    if base.len() == 0 {
        assert(find(base, seq!['/']) is None);
        assert(pa == seq![base]);
        assert(false);
    }
    assert(p[0] == base[0]);
    let pre = pa.take(n - 1);
    let r = ps.skip(n);
    assert(pa =~= pre + seq![l]);
    assert(ps =~= pre + seq![m] + r);
    assert(keep_normal(seq![l]) == seq![l]) by {
        let e = Seq::<Seq<char>>::empty();
        assert(seq![l].drop_last() =~= e);
        assert(keep_normal(e) == e);
        assert(e.push(l) =~= seq![l]);
    }
    assert(keep_normal(seq![m]) == seq![m]) by {
        let e = Seq::<Seq<char>>::empty();
        assert(seq![m].drop_last() =~= e);
        assert(keep_normal(e) == e);
        assert(e.push(m) =~= seq![m]);
    }
    if base[0] == '/' {
        lemma_keep_normal_concat(pre, seq![l]);
        lemma_keep_normal_concat(pre + seq![m], r);
        lemma_keep_normal_concat(pre, seq![m]);
        let x = seq![seq!['/']] + keep_normal(pre);
        assert(path_components(base) =~= x + seq![l]);
        assert(path_components(p) =~= x + seq![m] + keep_normal(r));
        lemma_diverging_components(x, l, m, keep_normal(r));
    } else if pa[0] == seq!['.'] {
        assert(n > 1);
        assert(ps[0] == pa[0]);
        let pre1 = pre.drop_first();
        assert(pa.drop_first() =~= pre1 + seq![l]);
        assert(ps.drop_first() =~= pre1 + seq![m] + r);
        lemma_keep_normal_concat(pre1, seq![l]);
        lemma_keep_normal_concat(pre1 + seq![m], r);
        lemma_keep_normal_concat(pre1, seq![m]);
        let x = seq![seq!['.']] + keep_normal(pre1);
        assert(path_components(base) =~= x + seq![l]);
        assert(path_components(p) =~= x + seq![m] + keep_normal(r));
        lemma_diverging_components(x, l, m, keep_normal(r));
    } else {
        assert(ps[0] != seq!['.']) by {
            if n > 1 {
                assert(ps[0] == pa[0]);
            }
        }
        lemma_keep_normal_concat(pre, seq![l]);
        lemma_keep_normal_concat(pre + seq![m], r);
        lemma_keep_normal_concat(pre, seq![m]);
        let x = keep_normal(pre);
        assert(path_components(base) =~= x + seq![l]);
        assert(path_components(p) =~= x + seq![m] + keep_normal(r));
        lemma_diverging_components(x, l, m, keep_normal(r));
    }
}

fn keep_normal_exec(ps: &Vec<Vec<char>>, from: usize) -> (r: Vec<Vec<char>>)
    requires
        from <= ps.len(),
    ensures
        r.deep_view() == keep_normal(ps.deep_view().skip(from as int)),
{
    let mut out: Vec<Vec<char>> = Vec::new();
    let mut i: usize = from;
    proof {
        assert(ps.deep_view().skip(from as int).take(0) =~= Seq::<Seq<char>>::empty());
        assert(out.deep_view() =~= Seq::<Seq<char>>::empty());
    }
    while i < ps.len()
        invariant
            from <= i <= ps.len(),
            out.deep_view() == keep_normal(ps.deep_view().skip(from as int).take(i - from)),
        decreases ps.len() - i,
    {
        let ghost before = out.deep_view();
        let ghost pv = ps.deep_view().skip(from as int);
        proof {
            lemma_chars_deep(&ps@[i as int]);
            assert(pv.take(i + 1 - from).drop_last() =~= pv.take(i - from));
            assert(pv.take(i + 1 - from).last() == ps@[i as int]@);
        }
        let piece = &ps[i];
        let is_dot = piece.len() == 1 && piece[0] == '.';
        proof {
            assert(is_dot == (piece@ == seq!['.'])) by {
                if piece@.len() == 1 && piece@[0] == '.' {
                    assert(piece@ =~= seq!['.']);
                }
            }
        }
        if piece.len() > 0 && !is_dot {
            let copy = crate::text::slice(piece, 0, piece.len());
            proof {
                assert(copy@ =~= piece@);
            }
            out.push(copy);
            proof {
                crate::text::lemma_push_deep(before, &out, piece@);
            }
        }
        i += 1;
    }
    proof {
        assert(ps.deep_view().skip(from as int).take(i - from) =~= ps.deep_view().skip(
            from as int,
        ));
    }
    out
}

fn path_components_exec(p: &Vec<char>) -> (r: Vec<Vec<char>>)
    ensures
        r.deep_view() == path_components(p@),
{
    let pieces = split_char_exec(p, '/');
    proof {
        assert(pieces.deep_view().skip(0) =~= pieces.deep_view());
    }
    if p.len() > 0 && p[0] == '/' {
        let mut out: Vec<Vec<char>> = Vec::new();
        let mut root: Vec<char> = Vec::new();
        root.push('/');
        out.push(root);
        let rest = keep_normal_exec(&pieces, 0);
        let ghost a = out.deep_view();
        proof {
            lemma_chars_deep(&out@[0]);
            assert(a =~= seq![seq!['/']]);
        }
        append_pieces(&mut out, rest);
        return out;
    }
    if pieces.len() > 0 && pieces[0].len() == 1 && pieces[0][0] == '.' {
        proof {
            lemma_chars_deep(&pieces@[0]);
            assert(pieces@[0]@ =~= seq!['.']);
            assert(pieces.deep_view().skip(1) =~= pieces.deep_view().drop_first());
        }
        let mut out: Vec<Vec<char>> = Vec::new();
        let mut dot: Vec<char> = Vec::new();
        dot.push('.');
        out.push(dot);
        let rest = keep_normal_exec(&pieces, 1);
        proof {
            lemma_chars_deep(&out@[0]);
            assert(out.deep_view() =~= seq![seq!['.']]);
        }
        append_pieces(&mut out, rest);
        return out;
    }
    proof {
        if pieces@.len() > 0 {
            lemma_chars_deep(&pieces@[0]);
            if pieces@[0]@ == seq!['.'] {
                assert(pieces@[0]@.len() == 1);
            }
        }
    }
    keep_normal_exec(&pieces, 0)
}

fn append_pieces(out: &mut Vec<Vec<char>>, rest: Vec<Vec<char>>)
    ensures
        final(out).deep_view() == old(out).deep_view() + rest.deep_view(),
{
    let ghost start = out.deep_view();
    let ghost rv = rest.deep_view();
    let mut i: usize = 0;
    let n = rest.len();
    while i < n
        invariant
            i <= n,
            n == rv.len(),
            n == rest@.len(),
            rv == rest.deep_view(),
            out.deep_view() == start + rv.take(i as int),
        decreases n - i,
    {
        let copy = crate::text::slice(&rest[i], 0, rest[i].len());
        proof {
            lemma_chars_deep(&rest@[i as int]);
            assert(copy@ =~= rv[i as int]);
        }
        let ghost before = out.deep_view();
        let ghost cv = copy@;
        out.push(copy);
        proof {
            crate::text::lemma_push_deep(before, out, cv);
            assert(rv.take(i + 1) =~= rv.take(i as int).push(rv[i as int]));
        }
        i += 1;
    }
    proof {
        assert(rv.take(n as int) =~= rv);
    }
}

fn path_starts_with_exec(p: &Vec<char>, base: &Vec<char>) -> (r: bool)
    ensures
        r == path_starts_with(p@, base@),
{
    let a = path_components_exec(p);
    let b = path_components_exec(base);
    if b.len() > a.len() {
        return false;
    }
    let mut i: usize = 0;
    while i < b.len()
        invariant
            i <= b.len() <= a.len(),
            a.deep_view() == path_components(p@),
            b.deep_view() == path_components(base@),
            forall|k: int| 0 <= k < i ==> a.deep_view()[k] == b.deep_view()[k],
        decreases b.len() - i,
    {
        proof {
            lemma_chars_deep(&a@[i as int]);
            lemma_chars_deep(&b@[i as int]);
        }
        if !seq_eq(&a[i], &b[i]) {
            proof {
                assert(a.deep_view().take(b.deep_view().len() as int)[i as int] != b.deep_view()[i as int]);
            }
            return false;
        }
        i += 1;
    }
    proof {
        assert(a.deep_view().take(b.deep_view().len() as int) =~= b.deep_view());
    }
    true
}

/// The id map has one key per entry.
proof fn lemma_map_len(gs: Seq<RegisteredGraph>)
    requires
        ids_distinct(gs),
    ensures
        graphs_map(gs).dom().finite(),
        graphs_map(gs).len() == gs.len(),
    decreases gs.len(),
{
    if gs.len() > 0 {
        let init = gs.drop_last();
        assert(ids_distinct(init));
        lemma_map_len(init);
        lemma_map_contains(init, gs.last().id@);
        if graphs_map(init).contains_key(gs.last().id@) {
            let i = choose|i: int| 0 <= i < init.len() && init[i].id@ == gs.last().id@;
            assert(gs[i].id@ == gs[gs.len() - 1].id@);
        }
    }
}

/// Lemmas about the id map.
proof fn lemma_map_contains(gs: Seq<RegisteredGraph>, k: Seq<char>)
    requires
        ids_distinct(gs),
    ensures
        graphs_map(gs).contains_key(k) <==> exists|i: int| 0 <= i < gs.len() && gs[i].id@ == k,
        forall|i: int| 0 <= i < gs.len() ==> #[trigger] graphs_map(gs)[gs[i].id@] == gs[i],
    decreases gs.len(),
{
    if gs.len() > 0 {
        let init = gs.drop_last();
        assert(ids_distinct(init));
        lemma_map_contains(init, k);
        assert forall|i: int| 0 <= i < gs.len() implies #[trigger] graphs_map(gs)[gs[i].id@]
            == gs[i] by {
            lemma_map_contains(init, gs[i].id@);
            if i < gs.len() - 1 {
                assert(gs[i] == init[i]);
            }
        }
        if graphs_map(gs).contains_key(k) {
            if k == gs.last().id@ {
                assert(gs[gs.len() - 1].id@ == k);
            } else {
                let i = choose|i: int| 0 <= i < init.len() && init[i].id@ == k;
                assert(gs[i] == init[i]);
            }
        }
        if exists|i: int| 0 <= i < gs.len() && gs[i].id@ == k {
            let i = choose|i: int| 0 <= i < gs.len() && gs[i].id@ == k;
            if i < gs.len() - 1 {
                assert(init[i].id@ == k);
            }
        }
    }
}

impl GraphRegistry {
    /// The registry as a map from graph id to graph.
    pub closed spec fn view_map(&self) -> Map<Seq<char>, RegisteredGraph> {
        graphs_map(self.graphs@)
    }

    /// The entries in their stored order.
    pub closed spec fn entries(&self) -> Seq<RegisteredGraph> {
        self.graphs@
    }

    /// Where the registry is persisted.
    pub closed spec fn path_spec(&self) -> Seq<char> {
        self.config_path@
    }

    #[verifier::type_invariant]
    spec fn inv(&self) -> bool {
        ids_distinct(self.graphs@)
    }

    /// Entries and map agree.
    proof fn lemma_entries(&self)
        requires
            ids_distinct(self.entries()),
        ensures
            forall|i: int| 0 <= i < self.entries().len() ==> #[trigger] self.view_map()[self.entries()[i].id@] == self.entries()[i],
            forall|k: Seq<char>| self.view_map().contains_key(k) <==> exists|i: int| 0 <= i < self.entries().len() && self.entries()[i].id@ == k,
            forall|i: int| 0 <= i < self.entries().len() ==> #[trigger] self.view_map().contains_key(self.entries()[i].id@),
            ids_distinct(self.entries()),
    {
        assert forall|k: Seq<char>| self.view_map().contains_key(k) <==> exists|i: int| 0 <= i < self.entries().len() && self.entries()[i].id@ == k by {
            lemma_map_contains(self.graphs@, k);
        }
        lemma_map_contains(self.graphs@, seq![]);
        assert forall|i: int| 0 <= i < self.entries().len() implies #[trigger] self.view_map().contains_key(self.entries()[i].id@) by {
            lemma_map_contains(self.graphs@, self.entries()[i].id@);
        }
    }

    /// An empty registry persisted at `config_path`.
    pub fn new(config_path: &str) -> (r: GraphRegistry)
        ensures
            r.view_map() == Map::<Seq<char>, RegisteredGraph>::empty(),
            r.path_spec() == config_path@,
    {
        GraphRegistry { graphs: Vec::new(), config_path: crate::text::owned(config_path) }
    }

    /// Where the registry is persisted.
    pub fn config_path(&self) -> (r: &str)
        ensures
            r@ == self.path_spec(),
    {
        self.config_path.as_str()
    }

    fn index_of(&self, graph_id: &Vec<char>) -> (r: Option<usize>)
        ensures
            match r {
                Some(i) => i < self.entries().len() && self.entries()[i as int].id@ == graph_id@,
                None => forall|i: int| 0 <= i < self.entries().len() ==> self.entries()[i].id@ != graph_id@,
            },
    {
        let mut i: usize = 0;
        while i < self.graphs.len()
            invariant
                i <= self.graphs.len(),
                forall|k: int| 0 <= k < i ==> self.graphs@[k].id@ != graph_id@,
            decreases self.graphs.len() - i,
        {
            let id = chars_of(self.graphs[i].id.as_str());
            if seq_eq(&id, graph_id) {
                return Some(i);
            }
            i += 1;
        }
        None
    }

    /// Register a graph, replacing any graph with the same id. Refused when
    /// the graph's folder does not exist, with the path quoted in the
    /// message.
    pub fn register(&mut self, graph: RegisteredGraph, path_exists: bool) -> (r: Result<(), RegistryError>)
        ensures
            r is Ok <==> path_exists,
            r is Ok ==> final(self).view_map() == old(self).view_map().insert(graph.id@, graph),
            r is Err ==> final(self).view_map() == old(self).view_map(),
            r matches Err(RegistryError::NotFound(m)) ==> m@ == "Graph path does not exist: \""@ + graph.path@ + "\""@,
            final(self).path_spec() == old(self).path_spec(),
    {
        if !path_exists {
            let mut msg = chars_of("Graph path does not exist: \"");
            crate::text::push_str(&mut msg, graph.path.as_str());
            crate::text::push_str(&mut msg, "\"");
            return Err(RegistryError::NotFound(crate::text::string_of(&msg)));
        }
        proof {
            use_type_invariant(&*self);
        }
        let key = chars_of(graph.id.as_str());
        let ghost old_gs = self.graphs@;
        match self.index_of(&key) {
            Some(i) => {
                let mut gs: Vec<RegisteredGraph> = Vec::new();
                std::mem::swap(&mut gs, &mut self.graphs);
                let ghost g0 = gs@;
                gs.remove(i);
                gs.push(graph);
                proof {
                    assert(ids_distinct(gs@)) by {
                        assert forall|a: int, b: int| 0 <= a < gs@.len() && 0 <= b < gs@.len() && a != b implies gs@[a].id@ != gs@[b].id@ by {
                            if a < gs@.len() - 1 && b < gs@.len() - 1 {
                                let a0 = if a < i { a } else { a + 1 };
                                let b0 = if b < i { b } else { b + 1 };
                                assert(gs@[a] == g0[a0]);
                                assert(gs@[b] == g0[b0]);
                            } else if a < gs@.len() - 1 {
                                let a0 = if a < i { a } else { a + 1 };
                                assert(gs@[a] == g0[a0]);
                            } else {
                                let b0 = if b < i { b } else { b + 1 };
                                assert(gs@[b] == g0[b0]);
                            }
                        }
                    }
                    lemma_map_contains(old_gs, graph.id@);
                    lemma_map_contains(gs@, graph.id@);
                    assert forall|k: Seq<char>| #![auto] graphs_map(gs@).contains_key(k) == graphs_map(old_gs).insert(graph.id@, graph).contains_key(k) by {
                        lemma_map_contains(old_gs, k);
                        lemma_map_contains(gs@, k);
                        if graphs_map(old_gs).contains_key(k) && k != graph.id@ {
                            let j = choose|j: int| 0 <= j < old_gs.len() && old_gs[j].id@ == k;
                            let j2 = if j < i { j } else { j - 1 };
                            assert(gs@[j2] == old_gs[j]);
                        }
                        if graphs_map(gs@).contains_key(k) && k != graph.id@ {
                            let j = choose|j: int| 0 <= j < gs@.len() && gs@[j].id@ == k;
                            let j0 = if j < i { j } else { j + 1 };
                            assert(gs@[j] == old_gs[j0]);
                        }
                    }
                    assert forall|k: Seq<char>| #[trigger] graphs_map(gs@).contains_key(k) implies graphs_map(gs@)[k] == graphs_map(old_gs).insert(graph.id@, graph)[k] by {
                        lemma_map_contains(gs@, k);
                        lemma_map_contains(old_gs, k);
                        let j = choose|j: int| 0 <= j < gs@.len() && gs@[j].id@ == k;
                        if j < gs@.len() - 1 {
                            let j0 = if j < i { j } else { j + 1 };
                            assert(gs@[j] == old_gs[j0]);
                        }
                    }
                    assert(graphs_map(gs@) =~= graphs_map(old_gs).insert(graph.id@, graph));
                }
                self.graphs = gs;
            },
            None => {
                let mut gs: Vec<RegisteredGraph> = Vec::new();
                std::mem::swap(&mut gs, &mut self.graphs);
                gs.push(graph);
                proof {
                    assert(gs@.drop_last() =~= old_gs);
                }
                self.graphs = gs;
            },
        }
        Ok(())
    }

    /// Remove a graph (its files are untouched).
    pub fn unregister(&mut self, graph_id: &str)
        ensures
            final(self).view_map() == old(self).view_map().remove(graph_id@),
            final(self).path_spec() == old(self).path_spec(),
    {
        proof {
            use_type_invariant(&*self);
        }
        let key = chars_of(graph_id);
        let ghost old_gs = self.graphs@;
        match self.index_of(&key) {
            Some(i) => {
                let mut gs: Vec<RegisteredGraph> = Vec::new();
                std::mem::swap(&mut gs, &mut self.graphs);
                gs.remove(i);
                proof {
                    assert(ids_distinct(gs@)) by {
                        assert forall|a: int, b: int| 0 <= a < gs@.len() && 0 <= b < gs@.len() && a != b implies gs@[a].id@ != gs@[b].id@ by {
                            let a0 = if a < i { a } else { a + 1 };
                            let b0 = if b < i { b } else { b + 1 };
                            assert(gs@[a] == old_gs[a0]);
                            assert(gs@[b] == old_gs[b0]);
                        }
                    }
                    assert forall|k: Seq<char>| #![auto] graphs_map(gs@).contains_key(k) == graphs_map(old_gs).remove(graph_id@).contains_key(k) by {
                        lemma_map_contains(old_gs, k);
                        lemma_map_contains(gs@, k);
                        if graphs_map(old_gs).contains_key(k) && k != graph_id@ {
                            let j = choose|j: int| 0 <= j < old_gs.len() && old_gs[j].id@ == k;
                            let j2 = if j < i { j } else { j - 1 };
                            assert(gs@[j2] == old_gs[j]);
                        }
                        if graphs_map(gs@).contains_key(k) {
                            let j = choose|j: int| 0 <= j < gs@.len() && gs@[j].id@ == k;
                            let j0 = if j < i { j } else { j + 1 };
                            assert(gs@[j] == old_gs[j0]);
                        }
                    }
                    assert forall|k: Seq<char>| #[trigger] graphs_map(gs@).contains_key(k) implies graphs_map(gs@)[k] == graphs_map(old_gs)[k] by {
                        lemma_map_contains(gs@, k);
                        lemma_map_contains(old_gs, k);
                        let j = choose|j: int| 0 <= j < gs@.len() && gs@[j].id@ == k;
                        let j0 = if j < i { j } else { j + 1 };
                        assert(gs@[j] == old_gs[j0]);
                    }
                    assert(graphs_map(gs@) =~= graphs_map(old_gs).remove(graph_id@));
                }
                self.graphs = gs;
            },
            None => {
                proof {
                    lemma_map_contains(old_gs, graph_id@);
                    assert(graphs_map(old_gs) =~= graphs_map(old_gs).remove(graph_id@));
                }
            },
        }
    }

    /// Get a graph by id.
    pub fn get(&self, graph_id: &str) -> (r: Option<&RegisteredGraph>)
        ensures
            match r {
                Some(g) => self.view_map().contains_key(graph_id@) && *g == self.view_map()[graph_id@],
                None => !self.view_map().contains_key(graph_id@),
            },
    {
        proof {
            use_type_invariant(self);
            self.lemma_entries();
        }
        let key = chars_of(graph_id);
        match self.index_of(&key) {
            Some(i) => Some(&self.graphs[i]),
            None => None,
        }
    }

    /// All registered graphs, each once.
    pub fn list(&self) -> (r: Vec<&RegisteredGraph>)
        ensures
            r@.len() == self.entries().len(),
            forall|i: int| 0 <= i < r@.len() ==> *r@[i] == self.entries()[i],
            r@.len() == self.view_map().len(),
            forall|i: int| 0 <= i < r@.len() ==> #[trigger] self.view_map().contains_key(r@[i].id@)
                && self.view_map()[r@[i].id@] == *r@[i],
            forall|k: Seq<char>| #[trigger] self.view_map().contains_key(k) ==> exists|i: int| 0 <= i < r@.len() && r@[i].id@ == k,
            forall|i: int, j: int| 0 <= i < j < r@.len() ==> r@[i].id@ != r@[j].id@,
    {
        proof {
            use_type_invariant(self);
            self.lemma_entries();
            lemma_map_len(self.graphs@);
        }
        let mut out: Vec<&RegisteredGraph> = Vec::new();
        let mut i: usize = 0;
        while i < self.graphs.len()
            invariant
                i <= self.graphs.len(),
                out@.len() == i,
                forall|k: int| 0 <= k < i ==> *out@[k] == self.graphs@[k],
            decreases self.graphs.len() - i,
        {
            out.push(&self.graphs[i]);
            i += 1;
        }
        proof {
            assert forall|k: Seq<char>| #[trigger] self.view_map().contains_key(k) implies exists|i: int| 0 <= i < out@.len() && out@[i].id@ == k by {
                let j = choose|j: int| 0 <= j < self.entries().len() && self.entries()[j].id@ == k;
                assert(*out@[j] == self.entries()[j]);
            }
        }
        out
    }

    /// Graphs that participate in cross-graph search, in stored order.
    pub fn cross_searchable_graphs(&self) -> (r: Vec<&RegisteredGraph>)
        ensures
            r@.map_values(|g: &RegisteredGraph| *g) == self.entries().filter(|g: RegisteredGraph| g.cross_searchable),
            forall|i: int| 0 <= i < r@.len() ==> #[trigger] self.view_map().contains_key(r@[i].id@)
                && self.view_map()[r@[i].id@] == *r@[i] && r@[i].cross_searchable,
            forall|k: Seq<char>| #[trigger] self.view_map().contains_key(k) && self.view_map()[k].cross_searchable
                ==> exists|i: int| 0 <= i < r@.len() && r@[i].id@ == k,
            forall|i: int, j: int| 0 <= i < j < r@.len() ==> r@[i].id@ != r@[j].id@,
    {
        proof {
            use_type_invariant(self);
            self.lemma_entries();
        }
        let ghost mut idx: Seq<int> = seq![];
        let mut out: Vec<&RegisteredGraph> = Vec::new();
        let mut i: usize = 0;
        while i < self.graphs.len()
            invariant
                i <= self.graphs.len(),
                out@.map_values(|g: &RegisteredGraph| *g) == self.graphs@.take(i as int).filter(|g: RegisteredGraph| g.cross_searchable),
                idx.len() == out@.len(),
                forall|m: int| 0 <= m < idx.len() ==> 0 <= #[trigger] idx[m] < i && *out@[m] == self.graphs@[idx[m]],
                forall|m: int, n: int| 0 <= m < n < idx.len() ==> idx[m] < idx[n],
                forall|j: int| 0 <= j < i && (#[trigger] self.graphs@[j]).cross_searchable ==> exists|m: int| 0 <= m < idx.len() && idx[m] == j,
            decreases self.graphs.len() - i,
        {
            let ghost before = out@;
            proof {
                reveal_with_fuel(Seq::<_>::filter, 1);
                assert(self.graphs@.take(i + 1).drop_last() =~= self.graphs@.take(i as int));
            }
            if self.graphs[i].cross_searchable {
                out.push(&self.graphs[i]);
                proof {
                    assert(out@.map_values(|g: &RegisteredGraph| *g) =~= before.map_values(|g: &RegisteredGraph| *g).push(self.graphs@[i as int]));
                    let old_idx = idx;
                    idx = idx.push(i as int);
                    assert forall|j: int| 0 <= j < i + 1 && (#[trigger] self.graphs@[j]).cross_searchable implies exists|m: int| 0 <= m < idx.len() && idx[m] == j by {
                        if j < i {
                            let m = choose|m: int| 0 <= m < old_idx.len() && old_idx[m] == j;
                            assert(idx[m] == j);
                        } else {
                            assert(idx[idx.len() - 1] == j);
                        }
                    }
                }
            }
            i += 1;
        }
        proof {
            assert(self.graphs@.take(i as int) =~= self.graphs@);
            assert forall|k: Seq<char>| #[trigger] self.view_map().contains_key(k) && self.view_map()[k].cross_searchable
                implies exists|m: int| 0 <= m < out@.len() && out@[m].id@ == k by {
                let j = choose|j: int| 0 <= j < self.entries().len() && self.entries()[j].id@ == k;
                assert(self.view_map()[self.entries()[j].id@] == self.entries()[j]);
                let m = choose|m: int| 0 <= m < idx.len() && idx[m] == j;
                assert(out@[m].id@ == k);
            }
            assert forall|m: int, n: int| 0 <= m < n < out@.len() implies out@[m].id@ != out@[n].id@ by {
                assert(idx[m] < idx[n]);
            }
            assert forall|m: int| 0 <= m < out@.len() implies #[trigger] self.view_map().contains_key(out@[m].id@)
                && self.view_map()[out@[m].id@] == *out@[m] && out@[m].cross_searchable by {
                let j = idx[m];
                assert(*out@[m] == self.entries()[j]);
                assert(self.view_map()[self.entries()[j].id@] == self.entries()[j]);
                assert(out@.map_values(|g: &RegisteredGraph| *g)[m] == *out@[m]);
                assert(self.entries().filter(|g: RegisteredGraph| g.cross_searchable).contains(*out@[m]));
            }
        }
        out
    }

    /// Record fresh statistics for a graph, stamped with `now_ms`; unknown
    /// ids are ignored.
    pub fn update_stats(&mut self, graph_id: &str, page_count: usize, vector_count: usize, now_ms: i64)
        ensures
            old(self).view_map().contains_key(graph_id@) ==> final(self).view_map() == old(self).view_map().insert(graph_id@, RegisteredGraph {
                page_count: Some(page_count),
                vector_count: Some(vector_count),
                last_indexed: Some(now_ms),
                ..old(self).view_map()[graph_id@]
            }),
            !old(self).view_map().contains_key(graph_id@) ==> final(self).view_map() == old(self).view_map(),
            final(self).path_spec() == old(self).path_spec(),
    {
        proof {
            use_type_invariant(&*self);
            self.lemma_entries();
        }
        let key = chars_of(graph_id);
        let ghost old_gs = self.graphs@;
        match self.index_of(&key) {
            Some(i) => {
                let mut gs: Vec<RegisteredGraph> = Vec::new();
                std::mem::swap(&mut gs, &mut self.graphs);
                let mut g = gs.remove(i);
                let ghost g_old = g;
                g.page_count = Some(page_count);
                g.vector_count = Some(vector_count);
                g.last_indexed = Some(now_ms);
                gs.insert(i, g);
                proof {
                    assert(gs@ =~= old_gs.update(i as int, g));
                    assert(ids_distinct(gs@)) by {
                        assert forall|a: int, b: int| 0 <= a < gs@.len() && 0 <= b < gs@.len() && a != b implies gs@[a].id@ != gs@[b].id@ by {
                            assert(old_gs[a].id@ != old_gs[b].id@);
                        }
                    }
                    lemma_map_contains(old_gs, graph_id@);
                    assert forall|k: Seq<char>| #![auto] graphs_map(gs@).contains_key(k) == graphs_map(old_gs).contains_key(k) by {
                        lemma_map_contains(old_gs, k);
                        lemma_map_contains(gs@, k);
                        if graphs_map(old_gs).contains_key(k) {
                            let j = choose|j: int| 0 <= j < old_gs.len() && old_gs[j].id@ == k;
                            assert(gs@[j].id@ == k);
                        }
                        if graphs_map(gs@).contains_key(k) {
                            let j = choose|j: int| 0 <= j < gs@.len() && gs@[j].id@ == k;
                            assert(old_gs[j].id@ == k);
                        }
                    }
                    assert forall|k: Seq<char>| #[trigger] graphs_map(gs@).contains_key(k) implies graphs_map(gs@)[k] == graphs_map(old_gs).insert(graph_id@, g)[k] by {
                        lemma_map_contains(gs@, k);
                        lemma_map_contains(old_gs, k);
                        let j = choose|j: int| 0 <= j < gs@.len() && gs@[j].id@ == k;
                        if j != i {
                            assert(gs@[j] == old_gs[j]);
                            assert(old_gs[j].id@ != old_gs[i as int].id@);
                        }
                    }
                    assert(graphs_map(gs@) =~= graphs_map(old_gs).insert(graph_id@, g));
                }
                self.graphs = gs;
            },
            None => {
                proof {
                    lemma_map_contains(old_gs, graph_id@);
                }
            },
        }
    }

    /// Find a graph whose folder contains `file_path` (component-wise prefix).
    pub fn find_graph_for_path(&self, file_path: &str) -> (r: Option<&RegisteredGraph>)
        ensures
            match r {
                Some(g) => self.view_map().contains_key(g.id@) && self.view_map()[g.id@] == *g
                    && path_starts_with(file_path@, g.path@),
                None => forall|k: Seq<char>| #[trigger] self.view_map().contains_key(k) ==> !path_starts_with(file_path@, self.view_map()[k].path@),
            },
    {
        proof {
            use_type_invariant(self);
            self.lemma_entries();
        }
        let p = chars_of(file_path);
        let mut i: usize = 0;
        while i < self.graphs.len()
            invariant
                i <= self.graphs.len(),
                p@ == file_path@,
                forall|k: int| 0 <= k < i ==> !path_starts_with(file_path@, #[trigger] self.graphs@[k].path@),
            decreases self.graphs.len() - i,
        {
            let base = chars_of(self.graphs[i].path.as_str());
            proof {
                use_type_invariant(self);
                self.lemma_entries();
                assert(base@ == self.graphs@[i as int].path@);
                assert(self.view_map()[self.entries()[i as int].id@] == self.entries()[i as int]);
            }
            if path_starts_with_exec(&p, &base) {
                return Some(&self.graphs[i]);
            }
            i += 1;
        }
        proof {
            assert forall|k: Seq<char>| #[trigger] self.view_map().contains_key(k) implies !path_starts_with(file_path@, self.view_map()[k].path@) by {
                let j = choose|j: int| 0 <= j < self.entries().len() && self.entries()[j].id@ == k;
                assert(self.view_map()[self.entries()[j].id@] == self.entries()[j]);
            }
        }
        None
    }
}

} // verus!
