//! The course of an import run: the order in which source files are
//! taken, the queue shown while they are imported, the report lines each
//! one ends with, and the folder names tried for a new book.
use vstd::prelude::*;
use crate::books::chapters::chapters_view;
use crate::books::clean::{clean_title, clean_title_spec, sanitize_path_segment_spec};
use crate::books::epub::opt_view;
use crate::books::{
    finished_queue_status, finished_queue_status_exec, import_success_message,
    import_success_message_spec, BookDocument, BookFormat, BookImportItem, BookImportProgress,
    BookImportQueueItem, BookImportQueueStatus, BookImportStatus, IMPORTER_VERSION,
};
use crate::text::seq_eq;
use crate::numbers::{decimal, decimal_exec};
use crate::text::{chars_of, push_all, push_str, string_of, trim, trim_chars};

verus! {

// ---------------------------------------------------------------------------
// The order of the source files.
// ---------------------------------------------------------------------------

/// A source file found for import: the components of its path, the name
/// shown for it, and its format.
pub struct BookCandidate {
    pub path_components: Vec<String>,
    pub display_name: String,
    pub format: BookFormat,
}

/// A candidate as plain values.
pub type CandidateView = (Seq<Seq<char>>, Seq<char>, BookFormat);

pub open spec fn candidate_view(c: BookCandidate) -> CandidateView {
    (c.path_components.deep_view(), c.display_name@, c.format)
}

pub open spec fn candidates_view(cs: Seq<BookCandidate>) -> Seq<CandidateView> {
    cs.map_values(|c: BookCandidate| candidate_view(c))
}

/// Text order: by characters (which for UTF-8 text is byte order), a prefix
/// before a longer text.
pub open spec fn text_le(a: Seq<char>, b: Seq<char>) -> bool
    decreases a.len(),
{
    if a.len() == 0 {
        true
    } else if b.len() == 0 {
        false
    } else if a[0] != b[0] {
        (a[0] as u32) < (b[0] as u32)
    } else {
        text_le(a.drop_first(), b.drop_first())
    }
}

/// Path order: component by component, each compared as text.
pub open spec fn path_le(a: Seq<Seq<char>>, b: Seq<Seq<char>>) -> bool
    decreases a.len(),
{
    if a.len() == 0 {
        true
    } else if b.len() == 0 {
        false
    } else if a[0] != b[0] {
        text_le(a[0], b[0])
    } else {
        path_le(a.drop_first(), b.drop_first())
    }
}

/// Import order: easy formats first, then by path.
pub open spec fn candidate_le(a: CandidateView, b: CandidateView) -> bool {
    a.2.priority_spec() < b.2.priority_spec() || (a.2.priority_spec() == b.2.priority_spec() && path_le(a.0, b.0))
}

/// `x` placed after every element that does not come after it.
pub open spec fn insert_candidate(sorted: Seq<CandidateView>, x: CandidateView) -> Seq<CandidateView>
    decreases sorted.len(),
{
    if sorted.len() == 0 {
        seq![x]
    } else if candidate_le(sorted.last(), x) {
        sorted.push(x)
    } else {
        insert_candidate(sorted.drop_last(), x).push(sorted.last())
    }
}

/// The candidates in import order; equal ones keep their order (a stable
/// sort).
pub open spec fn sort_candidates_spec(s: Seq<CandidateView>) -> Seq<CandidateView>
    decreases s.len(),
{
    if s.len() == 0 {
        s
    } else {
        insert_candidate(sort_candidates_spec(s.drop_last()), s.last())
    }
}

fn text_le_exec(a: &Vec<char>, b: &Vec<char>) -> (r: bool)
    ensures
        r == text_le(a@, b@),
{
    let mut i: usize = 0;
    proof {
        assert(a@.skip(0) =~= a@);
        assert(b@.skip(0) =~= b@);
    }
    while i < a.len() && i < b.len() && a[i] == b[i]
        invariant
            i <= a.len(),
            i <= b.len(),
            text_le(a@, b@) == text_le(a@.skip(i as int), b@.skip(i as int)),
        decreases a.len() - i,
    {
        proof {
            assert(a@.skip(i as int).drop_first() =~= a@.skip(i + 1));
            assert(b@.skip(i as int).drop_first() =~= b@.skip(i + 1));
        }
        i += 1;
    }
    if i == a.len() {
        true
    } else if i == b.len() {
        false
    } else {
        (a[i] as u32) < (b[i] as u32)
    }
}

fn path_le_exec(a: &Vec<String>, b: &Vec<String>) -> (r: bool)
    ensures
        r == path_le(a.deep_view(), b.deep_view()),
{
    let ghost av = a.deep_view();
    let ghost bv = b.deep_view();
    let mut i: usize = 0;
    proof {
        assert(av.skip(0) =~= av);
        assert(bv.skip(0) =~= bv);
    }
    loop
        invariant
            i <= a.len(),
            i <= b.len(),
            av == a.deep_view(),
            bv == b.deep_view(),
            path_le(av, bv) == path_le(av.skip(i as int), bv.skip(i as int)),
        decreases a.len() - i,
    {
        if i == a.len() {
            return true;
        }
        if i == b.len() {
            return false;
        }
        let x = chars_of(a[i].as_str());
        let y = chars_of(b[i].as_str());
        proof {
            assert(av.skip(i as int)[0] == x@);
            assert(bv.skip(i as int)[0] == y@);
            assert(av.skip(i as int).drop_first() =~= av.skip(i + 1));
            assert(bv.skip(i as int).drop_first() =~= bv.skip(i + 1));
        }
        if !crate::text::seq_eq(&x, &y) {
            return text_le_exec(&x, &y);
        }
        i += 1;
    }
}

fn candidate_le_exec(a: &BookCandidate, b: &BookCandidate) -> (r: bool)
    ensures
        r == candidate_le(candidate_view(*a), candidate_view(*b)),
{
    let pa = a.format.priority();
    let pb = b.format.priority();
    pa < pb || (pa == pb && path_le_exec(&a.path_components, &b.path_components))
}

/// Inserting from the back stops where `insert_candidate` places the item.
proof fn lemma_insert_candidate(s: Seq<CandidateView>, x: CandidateView, j: int)
    requires
        0 <= j <= s.len(),
        forall|k: int| j <= k < s.len() ==> !candidate_le(#[trigger] s[k], x),
        j == 0 || candidate_le(s[j - 1], x),
    ensures
        insert_candidate(s, x) == s.insert(j, x),
    decreases s.len(),
{
    if s.len() == 0 {
        assert(s.insert(j, x) =~= seq![x]);
    } else if candidate_le(s.last(), x) {
        assert(j == s.len());
        assert(s.insert(j, x) =~= s.push(x));
    } else {
        lemma_insert_candidate(s.drop_last(), x, j);
        assert(s.drop_last().insert(j, x).push(s.last()) =~= s.insert(j, x));
    }
}

/// The candidates in import order: by format priority (EPUB first, PDF
/// last), then by path; the sort is stable.
pub fn sort_candidates(v: Vec<BookCandidate>) -> (r: Vec<BookCandidate>)
    ensures
        candidates_view(r@) == sort_candidates_spec(candidates_view(v@)),
{
    let ghost vv = candidates_view(v@);
    let mut src = v;
    let mut rest: Vec<BookCandidate> = Vec::new();
    // Take the items off the back, so they can be moved one by one.
    let ghost n = src.len();
    while src.len() > 0
        invariant
            src@.len() <= n,
            n == vv.len(),
            candidates_view(src@) == vv.take(src@.len() as int),
            candidates_view(rest@) == vv.skip(src@.len() as int).reverse(),
        decreases src.len(),
    {
        let ghost before_src = candidates_view(src@);
        let ghost before_rest = candidates_view(rest@);
        let x = src.pop().unwrap();
        let ghost xv = candidate_view(x);
        rest.push(x);
        proof {
            assert(candidates_view(src@) =~= before_src.drop_last());
            assert(candidates_view(src@) =~= vv.take(src@.len() as int));
            assert(xv == before_src.last());
            assert(before_src[src@.len() as int] == vv[src@.len() as int]);
            assert(xv == vv[src@.len() as int]);
            assert(candidates_view(rest@) =~= before_rest.push(xv));
            assert(vv.skip(src@.len() as int) =~= seq![xv] + vv.skip(src@.len() as int + 1));
            assert(candidates_view(rest@) =~= vv.skip(src@.len() as int).reverse());
        }
    }
    let mut out: Vec<BookCandidate> = Vec::new();
    let mut i: usize = 0;
    proof {
        assert(vv.take(0) =~= Seq::<CandidateView>::empty());
        assert(candidates_view(out@) =~= Seq::<CandidateView>::empty());
        assert(candidates_view(rest@) =~= vv.reverse());
    }
    while rest.len() > 0
        invariant
            rest@.len() + i == n,
            n == vv.len(),
            candidates_view(rest@) == vv.skip(i as int).reverse(),
            candidates_view(out@) == sort_candidates_spec(vv.take(i as int)),
        decreases rest.len(),
    {
        let ghost before_rest = candidates_view(rest@);
        let x = rest.pop().unwrap();
        let ghost xv = candidate_view(x);
        proof {
            assert(xv == before_rest.last());
            assert(before_rest.last() == vv[i as int]);
            assert(candidates_view(rest@) =~= before_rest.drop_last());
            assert(vv.skip(i + 1).reverse() =~= vv.skip(i as int).reverse().drop_last());
        }
        let ghost before = candidates_view(out@);
        let mut j = out.len();
        while j > 0 && !candidate_le_exec(&out[j - 1], &x)
            invariant
                j <= out.len(),
                before == candidates_view(out@),
                xv == candidate_view(x),
                forall|k: int| j <= k < before.len() ==> !candidate_le(#[trigger] before[k], xv),
            decreases j,
        {
            j -= 1;
        }
        proof {
            lemma_insert_candidate(before, xv, j as int);
            assert(vv.take(i + 1).drop_last() =~= vv.take(i as int));
            assert(vv.take(i + 1).last() == xv);
        }
        out.insert(j, x);
        proof {
            assert(candidates_view(out@) =~= before.insert(j as int, xv));
        }
        i += 1;
    }
    proof {
        assert(vv.take(i as int) =~= vv);
    }
    out
}

// ---------------------------------------------------------------------------
// The queue shown while importing.
// ---------------------------------------------------------------------------

/// A queue entry as plain values: name, format, state, title, message.
pub type QueueItemView = (Seq<char>, BookFormat, BookImportQueueStatus, Option<Seq<char>>, Option<Seq<char>>);

pub open spec fn queue_item_view(q: BookImportQueueItem) -> QueueItemView {
    (q.source_file@, q.format, q.status, opt_view(q.title), opt_view(q.message))
}

pub open spec fn queue_view(q: Seq<BookImportQueueItem>) -> Seq<QueueItemView> {
    q.map_values(|x: BookImportQueueItem| queue_item_view(x))
}

/// Every candidate waiting, in import order.
pub open spec fn initial_queue_spec(cs: Seq<CandidateView>) -> Seq<QueueItemView> {
    cs.map_values(|c: CandidateView| (c.1, c.2, BookImportQueueStatus::Queued, None, None))
}

fn copy_opt(o: &Option<String>) -> (r: Option<String>)
    ensures
        opt_view(r) == opt_view(*o),
{
    match o {
        Some(s) => Some(crate::text::owned(s.as_str())),
        None => None,
    }
}

/// The queue at the start of a run: every candidate waiting.
pub fn initial_queue(candidates: &Vec<BookCandidate>) -> (r: Vec<BookImportQueueItem>)
    ensures
        queue_view(r@) == initial_queue_spec(candidates_view(candidates@)),
{
    let ghost want = initial_queue_spec(candidates_view(candidates@));
    let mut out: Vec<BookImportQueueItem> = Vec::new();
    let mut i: usize = 0;
    proof {
        assert(queue_view(out@) =~= want.take(0));
    }
    while i < candidates.len()
        invariant
            i <= candidates.len(),
            want == initial_queue_spec(candidates_view(candidates@)),
            queue_view(out@) == want.take(i as int),
        decreases candidates.len() - i,
    {
        let c = &candidates[i];
        let q = BookImportQueueItem {
            source_file: crate::text::owned(c.display_name.as_str()),
            format: c.format,
            status: BookImportQueueStatus::Queued,
            title: None,
            message: None,
        };
        let ghost before = queue_view(out@);
        let ghost qv = queue_item_view(q);
        out.push(q);
        proof {
            assert(qv == want[i as int]);
            assert(queue_view(out@) =~= before.push(qv));
            assert(queue_view(out@) =~= want.take(i + 1));
        }
        i += 1;
    }
    proof {
        assert(want.take(i as int) =~= want);
    }
    out
}

/// Marks the entry at `idx` as being imported, with the latest message (or
/// none). Other entries, and an index past the end, change nothing.
pub fn queue_mark_importing(queue: &mut Vec<BookImportQueueItem>, idx: usize, message: Option<String>)
    ensures
        queue_view(final(queue)@) == if idx < old(queue)@.len() {
            let e = queue_view(old(queue)@)[idx as int];
            queue_view(old(queue)@).update(idx as int, (e.0, e.1, BookImportQueueStatus::Importing, e.3, opt_view(message)))
        } else {
            queue_view(old(queue)@)
        },
{
    if idx < queue.len() {
        let ghost before = queue_view(queue@);
        let e = &queue[idx];
        let ne = BookImportQueueItem {
            source_file: crate::text::owned(e.source_file.as_str()),
            format: e.format,
            status: BookImportQueueStatus::Importing,
            title: copy_opt(&e.title),
            message,
        };
        let ghost nv = queue_item_view(ne);
        queue.set(idx, ne);
        proof {
            assert(queue_view(queue@) =~= before.update(idx as int, nv));
        }
    }
}

/// Records the end of the entry at `idx`: its final state, the title and
/// message of its report line. Other entries, and an index past the end,
/// change nothing.
pub fn queue_mark_finished(queue: &mut Vec<BookImportQueueItem>, idx: usize, item: &BookImportItem)
    ensures
        queue_view(final(queue)@) == if idx < old(queue)@.len() {
            let e = queue_view(old(queue)@)[idx as int];
            queue_view(old(queue)@).update(
                idx as int,
                (e.0, e.1, finished_queue_status(item.status), opt_view(item.title), opt_view(item.message)),
            )
        } else {
            queue_view(old(queue)@)
        },
{
    if idx < queue.len() {
        let ghost before = queue_view(queue@);
        let e = &queue[idx];
        let ne = BookImportQueueItem {
            source_file: crate::text::owned(e.source_file.as_str()),
            format: e.format,
            status: finished_queue_status_exec(item.status),
            title: copy_opt(&item.title),
            message: copy_opt(&item.message),
        };
        let ghost nv = queue_item_view(ne);
        queue.set(idx, ne);
        proof {
            assert(queue_view(queue@) =~= before.update(idx as int, nv));
        }
    }
}

/// `Found <n> supported book files`.
pub fn found_books_message(total: usize) -> (r: String)
    ensures
        r@ == "Found "@ + decimal(total as nat) + " supported book files"@,
{
    let mut out = chars_of("Found ");
    let d = decimal_exec(total as u64);
    push_all(&mut out, &d);
    push_str(&mut out, " supported book files");
    string_of(&out)
}

/// `Importing <name>`.
pub fn importing_message(source_file: &str) -> (r: String)
    ensures
        r@ == "Importing "@ + source_file@,
{
    let mut out = chars_of("Importing ");
    push_str(&mut out, source_file);
    string_of(&out)
}

/// `Processed <done> of <total> book files`.
pub fn processed_message(done: usize, total: usize) -> (r: String)
    ensures
        r@ == "Processed "@ + decimal(done as nat) + " of "@ + decimal(total as nat) + " book files"@,
{
    let mut out = chars_of("Processed ");
    let d = decimal_exec(done as u64);
    push_all(&mut out, &d);
    push_str(&mut out, " of ");
    let t = decimal_exec(total as u64);
    push_all(&mut out, &t);
    push_str(&mut out, " book files");
    string_of(&out)
}

fn copy_queue(queue: &Vec<BookImportQueueItem>) -> (r: Vec<BookImportQueueItem>)
    ensures
        queue_view(r@) == queue_view(queue@),
{
    let mut out: Vec<BookImportQueueItem> = Vec::new();
    let mut i: usize = 0;
    proof {
        assert(queue_view(out@) =~= queue_view(queue@).take(0));
    }
    while i < queue.len()
        invariant
            i <= queue.len(),
            queue_view(out@) == queue_view(queue@).take(i as int),
        decreases queue.len() - i,
    {
        let e = &queue[i];
        let ne = BookImportQueueItem {
            source_file: crate::text::owned(e.source_file.as_str()),
            format: e.format,
            status: e.status,
            title: copy_opt(&e.title),
            message: copy_opt(&e.message),
        };
        let ghost before = queue_view(out@);
        let ghost nv = queue_item_view(ne);
        out.push(ne);
        proof {
            assert(queue_view(out@) =~= before.push(nv));
            assert(nv == queue_view(queue@)[i as int]);
            assert(queue_view(out@) =~= queue_view(queue@).take(i + 1));
        }
        i += 1;
    }
    proof {
        assert(queue_view(queue@).take(i as int) =~= queue_view(queue@));
    }
    out
}

/// A progress report with a copy of the queue.
pub fn progress_snapshot(done: usize, total: usize, message: String, queue: &Vec<BookImportQueueItem>) -> (r: BookImportProgress)
    ensures
        r.done == done,
        r.total == total,
        r.message == message,
        queue_view(r.queue@) == queue_view(queue@),
{
    BookImportProgress { done, total, message, queue: copy_queue(queue) }
}

// ---------------------------------------------------------------------------
// Report lines.
// ---------------------------------------------------------------------------

/// A report line as plain values: source, format, status, title, index page
/// title, index page id, message.
pub type ItemView = (
    Seq<char>,
    BookFormat,
    BookImportStatus,
    Option<Seq<char>>,
    Option<Seq<char>>,
    Option<Seq<char>>,
    Option<Seq<char>>,
);

pub open spec fn item_view(i: BookImportItem) -> ItemView {
    (
        i.source_file@,
        i.format,
        i.status,
        opt_view(i.title),
        opt_view(i.index_page_title),
        opt_view(i.index_page_id),
        opt_view(i.message),
    )
}

/// The message of a book skipped because its source is unchanged.
pub open spec fn unchanged_message() -> Seq<char> {
    "Already imported; source file is unchanged"@
}

/// The report line of a book whose source was imported before and has not
/// changed.
pub fn unchanged_import_item(
    source_file: String,
    format: BookFormat,
    title: String,
    index_page_title: Option<String>,
    index_page_id: Option<String>,
) -> (r: BookImportItem)
    ensures
        item_view(r) == (
            source_file@,
            format,
            BookImportStatus::Skipped,
            Some(title@),
            opt_view(index_page_title),
            opt_view(index_page_id),
            Some(unchanged_message()),
        ),
{
    BookImportItem {
        source_file,
        format,
        status: BookImportStatus::Skipped,
        title: Some(title),
        index_page_title,
        index_page_id,
        message: Some(crate::text::owned("Already imported; source file is unchanged")),
    }
}

/// The message of an ebook format that needs Calibre.
pub open spec fn calibre_missing_message() -> Seq<char> {
    "Install Calibre's ebook-convert to import this ebook format"@
}

/// The report line of an ebook that cannot be converted because Calibre's
/// `ebook-convert` is not installed: skipped, titled after its file.
pub fn calibre_unavailable_item(source_file: String, format: BookFormat, file_stem: Option<&str>) -> (r: BookImportItem)
    ensures
        item_view(r) == (
            source_file@,
            format,
            BookImportStatus::Skipped,
            match file_stem {
                Some(s) => Some(clean_title_spec(s@)),
                None => None,
            },
            None::<Seq<char>>,
            None::<Seq<char>>,
            Some(calibre_missing_message()),
        ),
{
    BookImportItem {
        source_file,
        format,
        status: BookImportStatus::Skipped,
        title: match file_stem {
            Some(s) => Some(clean_title(s)),
            None => None,
        },
        index_page_title: None,
        index_page_id: None,
        message: Some(crate::text::owned("Install Calibre's ebook-convert to import this ebook format")),
    }
}

/// A blank title is replaced by the file's stem, cleaned, or by
/// `Imported Book`.
pub open spec fn document_title_spec(title: Seq<char>, file_stem: Option<Seq<char>>) -> Seq<char> {
    if trim(title).len() == 0 {
        match file_stem {
            Some(s) => clean_title_spec(s),
            None => "Imported Book"@,
        }
    } else {
        title
    }
}

pub fn ensure_document_title(document: &mut BookDocument, file_stem: Option<&str>)
    ensures
        final(document).title@ == document_title_spec(old(document).title@, match file_stem {
            Some(s) => Some(s@),
            None => None,
        }),
        final(document).chapters == old(document).chapters,
        final(document).assets == old(document).assets,
        final(document).notes == old(document).notes,
{
    let tc = chars_of(document.title.as_str());
    let t = trim_chars(&tc);
    if t.len() == 0 {
        document.title = match file_stem {
            Some(s) => clean_title(s),
            None => crate::text::owned("Imported Book"),
        };
    }
}

/// The message of a book in which no text was found.
pub open spec fn no_text_message() -> Seq<char> {
    "No readable text was found. Scanned PDFs need OCR support."@
}

/// A converted (and normalised) book with no block in any chapter fails,
/// with its last conversion note as message, or a default one.
pub open spec fn unreadable_item_spec(source_file: Seq<char>, format: BookFormat, title: Seq<char>, chapters: Seq<(Seq<char>, bool, Seq<Seq<char>>)>, notes: Seq<Seq<char>>) -> Option<ItemView> {
    if forall|i: int| 0 <= i < chapters.len() ==> (#[trigger] chapters[i]).2.len() == 0 {
        Some(
            (
                source_file,
                format,
                BookImportStatus::Failed,
                Some(title),
                None,
                None,
                Some(
                    if notes.len() > 0 {
                        notes.last()
                    } else {
                        no_text_message()
                    },
                ),
            ),
        )
    } else {
        None
    }
}

/// The failing report line of a book without text, if it has none.
pub fn unreadable_document_item(source_file: &str, format: BookFormat, document: &BookDocument) -> (r: Option<BookImportItem>)
    ensures
        match r {
            Some(i) => unreadable_item_spec(
                source_file@,
                format,
                document.title@,
                chapters_view(document.chapters@),
                document.notes.deep_view(),
            ) == Some(item_view(i)),
            None => unreadable_item_spec(
                source_file@,
                format,
                document.title@,
                chapters_view(document.chapters@),
                document.notes.deep_view(),
            ) is None,
        },
{
    let ghost cv = chapters_view(document.chapters@);
    let mut i: usize = 0;
    while i < document.chapters.len()
        invariant
            i <= document.chapters@.len(),
            cv == chapters_view(document.chapters@),
            forall|k: int| 0 <= k < i ==> (#[trigger] cv[k]).2.len() == 0,
        decreases document.chapters@.len() - i,
    {
        if document.chapters[i].blocks.len() > 0 {
            proof {
                assert(cv[i as int].2.len() > 0);
            }
            return None;
        }
        i += 1;
    }
    let message = if document.notes.len() > 0 {
        crate::text::owned(document.notes[document.notes.len() - 1].as_str())
    } else {
        crate::text::owned("No readable text was found. Scanned PDFs need OCR support.")
    };
    Some(BookImportItem {
        source_file: crate::text::owned(source_file),
        format,
        status: BookImportStatus::Failed,
        title: Some(crate::text::owned(document.title.as_str())),
        index_page_title: None,
        index_page_id: None,
        message: Some(message),
    })
}

/// The report line of a book that was written.
pub fn imported_item(
    source_file: String,
    format: BookFormat,
    title: String,
    index_page_title: String,
    index_page_id: String,
    chapter_count: usize,
    asset_count: usize,
) -> (r: BookImportItem)
    ensures
        item_view(r) == (
            source_file@,
            format,
            BookImportStatus::Imported,
            Some(title@),
            Some(index_page_title@),
            Some(index_page_id@),
            Some(import_success_message_spec(chapter_count as nat, asset_count as nat)),
        ),
{
    BookImportItem {
        source_file,
        format,
        status: BookImportStatus::Imported,
        title: Some(title),
        index_page_title: Some(index_page_title),
        index_page_id: Some(index_page_id),
        message: Some(import_success_message(chapter_count, asset_count)),
    }
}

/// The report line of a book whose import failed with an error.
pub fn failed_item(source_file: String, format: BookFormat, message: String) -> (r: BookImportItem)
    ensures
        item_view(r) == (source_file@, format, BookImportStatus::Failed, None::<Seq<char>>, None::<Seq<char>>, None::<Seq<char>>, Some(message@)),
{
    BookImportItem {
        source_file,
        format,
        status: BookImportStatus::Failed,
        title: None,
        index_page_title: None,
        index_page_id: None,
        message: Some(message),
    }
}

// ---------------------------------------------------------------------------
// Folder names for a new book.
// ---------------------------------------------------------------------------

/// The folder name tried at an attempt: the safe title, then the title with
/// the first eight characters of the source hash, then with the hash and
/// the attempt number.
pub open spec fn folder_name_spec(base: Seq<char>, hash: Seq<char>, attempt: nat) -> Seq<char> {
    let h = if hash.len() <= 8 {
        hash
    } else {
        hash.take(8)
    };
    if attempt == 0 {
        base
    } else if attempt == 1 {
        base + " ("@ + h + ")"@
    } else {
        base + " ("@ + h + "-"@ + decimal(attempt) + ")"@
    }
}

/// The folder name to try at `attempt` for a book whose safe title is
/// `base` and whose source hash (hexadecimal) is `source_hash`.
pub fn output_folder_name(base: &str, source_hash: &str, attempt: usize) -> (r: String)
    ensures
        r@ == folder_name_spec(base@, source_hash@, attempt as nat),
{
    let mut out = chars_of(base);
    if attempt == 0 {
        return string_of(&out);
    }
    let hc = chars_of(source_hash);
    let h = if hc.len() <= 8 {
        crate::text::slice(&hc, 0, hc.len())
    } else {
        crate::text::slice(&hc, 0, 8)
    };
    proof {
        assert(h@ =~= if hc@.len() <= 8 { hc@ } else { hc@.take(8) });
    }
    push_str(&mut out, " (");
    push_all(&mut out, &h);
    if attempt > 1 {
        push_str(&mut out, "-");
        let d = decimal_exec(attempt as u64);
        push_all(&mut out, &d);
    }
    push_str(&mut out, ")");
    string_of(&out)
}

/// The title of a book's page for a folder: `Books/<folder>`.
pub fn book_page_title(folder_name: &str) -> (r: String)
    ensures
        r@ == "Books/"@ + folder_name@,
{
    let mut out = chars_of("Books/");
    push_str(&mut out, folder_name);
    string_of(&out)
}


// ---------------------------------------------------------------------------
// The manifest of an imported book and where a book is written.
// ---------------------------------------------------------------------------

/// What an import records next to a book (`.grafium-book.json`): the
/// importer's version, the book's title, its source file, the source's
/// content hash and format, and the pages and media it wrote. The time of
/// the import is added where the manifest is written.
pub struct BookImportManifest {
    pub importer_version: String,
    pub title: String,
    pub source_file: String,
    pub source_sha256: String,
    pub source_format: BookFormat,
    pub generated_pages: Vec<String>,
    pub assets: Vec<String>,
}

pub type ManifestView = (Seq<char>, Seq<char>, Seq<char>, Seq<char>, BookFormat, Seq<Seq<char>>, Seq<Seq<char>>);

pub open spec fn manifest_view(m: BookImportManifest) -> ManifestView {
    (
        m.importer_version@,
        m.title@,
        m.source_file@,
        m.source_sha256@,
        m.source_format,
        m.generated_pages.deep_view(),
        m.assets.deep_view(),
    )
}

pub open spec fn opt_manifest_view(m: Option<&BookImportManifest>) -> Option<ManifestView> {
    match m {
        Some(m) => Some(manifest_view(*m)),
        None => None,
    }
}

/// A manifest written by this version of the importer.
pub fn manifest_is_current(m: &BookImportManifest) -> (r: bool)
    ensures
        r == (m.importer_version@ == IMPORTER_VERSION@),
{
    let v = chars_of(m.importer_version.as_str());
    let c = chars_of(IMPORTER_VERSION);
    seq_eq(&v, &c)
}

fn same_text(a: &str, b: &str) -> (r: bool)
    ensures
        r == (a@ == b@),
{
    let x = chars_of(a);
    let y = chars_of(b);
    seq_eq(&x, &y)
}

/// The manifest of a book being written, by this importer.
pub fn book_manifest(
    title: &str,
    source_file: &str,
    format: BookFormat,
    source_hash: &str,
    generated_pages: Vec<String>,
    assets: Vec<String>,
) -> (r: BookImportManifest)
    ensures
        manifest_view(r) == (
            IMPORTER_VERSION@,
            title@,
            source_file@,
            source_hash@,
            format,
            generated_pages.deep_view(),
            assets.deep_view(),
        ),
{
    BookImportManifest {
        importer_version: crate::text::owned(IMPORTER_VERSION),
        title: crate::text::owned(title),
        source_file: crate::text::owned(source_file),
        source_sha256: crate::text::owned(source_hash),
        source_format: format,
        generated_pages,
        assets,
    }
}

/// What to do at one folder name tried for a book.
#[derive(Debug, Clone, Copy, PartialEq, Eq, Structural)]
pub enum OutputStep {
    /// The folder holds this very source, imported by this importer: skip.
    Unchanged,
    /// The folder holds this source from an older importer: clear what it
    /// wrote and write again there.
    Replace,
    /// The folder is free: write there.
    Create,
    /// Try the next folder name.
    NextAttempt,
}

/// The step at one folder: a manifest of the same source decides (current
/// or not); otherwise a free folder (no directory and no page of that name)
/// is taken; otherwise the next name is tried.
pub open spec fn output_step_spec(existing: Option<ManifestView>, folder_taken: bool, source_hash: Seq<char>) -> OutputStep {
    match existing {
        Some(m) if m.3 == source_hash => if m.0 == IMPORTER_VERSION@ {
            OutputStep::Unchanged
        } else {
            OutputStep::Replace
        },
        _ => if !folder_taken {
            OutputStep::Create
        } else {
            OutputStep::NextAttempt
        },
    }
}

/// The step at one folder name (`output_step_spec`), given the manifest
/// read there, whether its folder or page exists, and the source's hash.
pub fn output_step(existing: Option<&BookImportManifest>, folder_taken: bool, source_hash: &str) -> (r: OutputStep)
    ensures
        r == output_step_spec(opt_manifest_view(existing), folder_taken, source_hash@),
{
    match existing {
        Some(m) => {
            if same_text(m.source_sha256.as_str(), source_hash) {
                if manifest_is_current(m) {
                    return OutputStep::Unchanged;
                } else {
                    return OutputStep::Replace;
                }
            }
        },
        None => {},
    }
    if !folder_taken {
        OutputStep::Create
    } else {
        OutputStep::NextAttempt
    }
}

/// How many folder names are tried before giving up.
pub const MAX_FOLDER_ATTEMPTS: usize = 100;

/// The error when no folder name is free for a book.
pub open spec fn no_folder_message_spec(title: Seq<char>) -> Seq<char> {
    "Could not find a safe Books folder name for "@ + title
}

pub fn no_folder_message(title: &str) -> (r: String)
    ensures
        r@ == no_folder_message_spec(title@),
{
    let mut out = chars_of("Could not find a safe Books folder name for ");
    push_str(&mut out, title);
    string_of(&out)
}

/// Whether a manifest found under the source file's own name shows the
/// book already imported: same source, this importer.
pub open spec fn unchanged_by_stem_spec(m: Option<ManifestView>, source_hash: Seq<char>) -> bool {
    match m {
        Some(m) => m.3 == source_hash && m.0 == IMPORTER_VERSION@,
        None => false,
    }
}

/// The course of importing one book.
#[derive(Debug, Clone, Copy, PartialEq, Eq, Structural)]
pub enum ImportDecision {
    /// Skip: imported before from the same source by this importer.
    SkipUnchanged,
    /// Skip: the format needs Calibre, which is not installed.
    SkipNeedsCalibre,
    /// Stop the run: it was cancelled.
    Cancelled,
    /// Report a failure: no text was read.
    FailUnreadable,
    /// Find the book's folder and write it.
    Write,
}

/// The checks of one book, in order: a manifest under the file's own name
/// that shows it unchanged; a format that needs Calibre when Calibre is
/// missing; a cancelled run; a document without text; else it is written.
/// The later inputs count only when the earlier checks pass, so a caller
/// may decide before loading the document and again after.
pub open spec fn import_decision_spec(
    stem_manifest: Option<ManifestView>,
    source_hash: Seq<char>,
    calibre_needed_and_missing: bool,
    cancelled: bool,
    document_readable: bool,
) -> ImportDecision {
    if unchanged_by_stem_spec(stem_manifest, source_hash) {
        ImportDecision::SkipUnchanged
    } else if calibre_needed_and_missing {
        ImportDecision::SkipNeedsCalibre
    } else if cancelled {
        ImportDecision::Cancelled
    } else if !document_readable {
        ImportDecision::FailUnreadable
    } else {
        ImportDecision::Write
    }
}

pub fn import_decision(
    stem_manifest: Option<&BookImportManifest>,
    source_hash: &str,
    calibre_needed_and_missing: bool,
    cancelled: bool,
    document_readable: bool,
) -> (r: ImportDecision)
    ensures
        r == import_decision_spec(
            opt_manifest_view(stem_manifest),
            source_hash@,
            calibre_needed_and_missing,
            cancelled,
            document_readable,
        ),
{
    let unchanged = match stem_manifest {
        Some(m) => same_text(m.source_sha256.as_str(), source_hash) && manifest_is_current(m),
        None => false,
    };
    if unchanged {
        ImportDecision::SkipUnchanged
    } else if calibre_needed_and_missing {
        ImportDecision::SkipNeedsCalibre
    } else if cancelled {
        ImportDecision::Cancelled
    } else if !document_readable {
        ImportDecision::FailUnreadable
    } else {
        ImportDecision::Write
    }
}

// ---------------------------------------------------------------------------
// Selected files and the run over the candidates.
// ---------------------------------------------------------------------------

/// A file the user selected, as the file system shows it: its path as
/// shown, its path's components, its name, whether it is a file, whether it
/// lies inside the current graph, and its extension.
pub struct SelectedFile {
    pub display: String,
    pub path_components: Vec<String>,
    pub name: String,
    pub is_file: bool,
    pub inside_graph: bool,
    pub extension: Option<String>,
}

pub type SelectedView = (Seq<char>, Seq<Seq<char>>, Seq<char>, bool, bool, Option<Seq<char>>);

pub open spec fn selected_view(f: SelectedFile) -> SelectedView {
    (f.display@, f.path_components.deep_view(), f.name@, f.is_file, f.inside_graph, opt_view(f.extension))
}

/// One selected file as a candidate, or why it is refused.
pub open spec fn selected_candidate_spec(f: SelectedView) -> Result<CandidateView, Seq<char>> {
    if !f.3 {
        Err("Book import source is not a file: "@ + f.0)
    } else if f.4 {
        Err("Book import source is inside the current Grafium graph: "@ + f.0 + ". Choose the original book file outside Grafium."@)
    } else {
        match f.5 {
            None => Err("Selected file has no supported book extension: "@ + f.0),
            Some(e) => match BookFormat::from_extension_spec(e) {
                None => Err("Selected file is not a supported book format: "@ + f.0),
                Some(fmt) => Ok((f.1, f.2, fmt)),
            },
        }
    }
}

/// The candidates of the selected files, in order; an error when none is
/// selected, and otherwise the first file's refusal.
pub open spec fn book_candidates_fold(fs: Seq<SelectedView>) -> Result<Seq<CandidateView>, Seq<char>>
    decreases fs.len(),
{
    if fs.len() == 0 {
        Ok(seq![])
    } else {
        match book_candidates_fold(fs.drop_last()) {
            Err(e) => Err(e),
            Ok(cs) => match selected_candidate_spec(fs.last()) {
                Err(e) => Err(e),
                Ok(c) => Ok(cs.push(c)),
            },
        }
    }
}

pub open spec fn book_candidates_spec(fs: Seq<SelectedView>) -> Result<Seq<CandidateView>, Seq<char>> {
    if fs.len() == 0 {
        Err("No book files were selected"@)
    } else {
        book_candidates_fold(fs)
    }
}

proof fn lemma_candidates_err(fs: Seq<SelectedView>, k: int)
    requires
        0 <= k <= fs.len(),
        book_candidates_fold(fs.take(k)) is Err,
    ensures
        book_candidates_fold(fs) == book_candidates_fold(fs.take(k)),
    decreases fs.len() - k,
{
    if k < fs.len() {
        assert(fs.take(k + 1).drop_last() =~= fs.take(k));
        lemma_candidates_err(fs, k + 1);
    } else {
        assert(fs.take(k) =~= fs);
    }
}

fn copy_strings(v: &Vec<String>) -> (r: Vec<String>)
    ensures
        r.deep_view() == v.deep_view(),
{
    let mut out: Vec<String> = Vec::new();
    let mut i: usize = 0;
    while i < v.len()
        invariant
            i <= v@.len(),
            out.deep_view() == v.deep_view().take(i as int),
        decreases v@.len() - i,
    {
        let s = crate::text::owned(v[i].as_str());
        let ghost before = out.deep_view();
        out.push(s);
        proof {
            assert(out.deep_view() =~= before.push(v.deep_view()[i as int]));
            assert(v.deep_view().take(i + 1) =~= v.deep_view().take(i as int).push(v.deep_view()[i as int]));
        }
        i += 1;
    }
    proof {
        assert(v.deep_view().take(i as int) =~= v.deep_view());
    }
    out
}

fn selected_candidate(f: &SelectedFile) -> (r: Result<BookCandidate, String>)
    ensures
        match r {
            Ok(c) => selected_candidate_spec(selected_view(*f)) == Ok::<CandidateView, Seq<char>>(candidate_view(c)),
            Err(e) => selected_candidate_spec(selected_view(*f)) == Err::<CandidateView, Seq<char>>(e@),
        },
{
    if !f.is_file {
        let mut m = chars_of("Book import source is not a file: ");
        push_str(&mut m, f.display.as_str());
        return Err(string_of(&m));
    }
    if f.inside_graph {
        let mut m = chars_of("Book import source is inside the current Grafium graph: ");
        push_str(&mut m, f.display.as_str());
        push_str(&mut m, ". Choose the original book file outside Grafium.");
        return Err(string_of(&m));
    }
    match &f.extension {
        None => {
            let mut m = chars_of("Selected file has no supported book extension: ");
            push_str(&mut m, f.display.as_str());
            Err(string_of(&m))
        },
        Some(e) => match BookFormat::from_extension(e.as_str()) {
            None => {
                let mut m = chars_of("Selected file is not a supported book format: ");
                push_str(&mut m, f.display.as_str());
                Err(string_of(&m))
            },
            Some(fmt) => Ok(
                BookCandidate {
                    path_components: copy_strings(&f.path_components),
                    display_name: crate::text::owned(f.name.as_str()),
                    format: fmt,
                },
            ),
        },
    }
}

/// The candidates of the selected files (`book_candidates_spec`).
pub fn book_candidates(files: &Vec<SelectedFile>) -> (r: Result<Vec<BookCandidate>, String>)
    ensures
        match r {
            Ok(cs) => book_candidates_spec(files@.map_values(|f: SelectedFile| selected_view(f)))
                == Ok::<Seq<CandidateView>, Seq<char>>(candidates_view(cs@)),
            Err(e) => book_candidates_spec(files@.map_values(|f: SelectedFile| selected_view(f)))
                == Err::<Seq<CandidateView>, Seq<char>>(e@),
        },
{
    let ghost fv = files@.map_values(|f: SelectedFile| selected_view(f));
    if files.len() == 0 {
        return Err(crate::text::owned("No book files were selected"));
    }
    let mut out: Vec<BookCandidate> = Vec::new();
    let mut i: usize = 0;
    proof {
        assert(candidates_view(out@) =~= Seq::<CandidateView>::empty());
    }
    while i < files.len()
        invariant
            i <= files@.len(),
            files@.len() > 0,
            fv == files@.map_values(|f: SelectedFile| selected_view(f)),
            book_candidates_fold(fv.take(i as int)) == Ok::<Seq<CandidateView>, Seq<char>>(candidates_view(out@)),
        decreases files@.len() - i,
    {
        proof {
            assert(fv.take(i + 1).drop_last() =~= fv.take(i as int));
            assert(fv.take(i + 1).last() == selected_view(files@[i as int]));
        }
        match selected_candidate(&files[i]) {
            Err(e) => {
                proof {
                    lemma_candidates_err(fv, i + 1);
                }
                return Err(e);
            },
            Ok(c) => {
                let ghost before = candidates_view(out@);
                let ghost cv = candidate_view(c);
                out.push(c);
                proof {
                    assert(candidates_view(out@) =~= before.push(cv));
                }
            },
        }
        i += 1;
    }
    proof {
        assert(fv.take(i as int) =~= fv);
    }
    Ok(out)
}

/// Where an import run stands: the next candidate and how many there are.
#[derive(Debug, Clone, Copy, PartialEq, Eq, Structural)]
pub struct ImportRunState {
    pub next: usize,
    pub total: usize,
}

/// What the caller does next in an import run.
#[derive(Debug, Clone, Copy, PartialEq, Eq, Structural)]
pub enum ImportAction {
    /// Mark the candidate importing, report `importing_message`, import it,
    /// record its report line and report `processed_message`.
    Import(usize),
    /// Stop: the run was cancelled.
    Cancel,
    /// Every candidate was taken: the report is complete.
    Done,
}

/// One step of an import run: done after the last candidate; otherwise a
/// cancelled run stops before the next candidate; otherwise the next
/// candidate is imported.
pub open spec fn import_run_step_spec(st: ImportRunState, cancelled: bool) -> (ImportRunState, ImportAction) {
    if st.next >= st.total {
        (st, ImportAction::Done)
    } else if cancelled {
        (st, ImportAction::Cancel)
    } else {
        (ImportRunState { next: (st.next + 1) as usize, total: st.total }, ImportAction::Import(st.next))
    }
}

pub fn import_run_step(st: ImportRunState, cancelled: bool) -> (r: (ImportRunState, ImportAction))
    ensures
        r == import_run_step_spec(st, cancelled),
{
    if st.next >= st.total {
        (st, ImportAction::Done)
    } else if cancelled {
        (st, ImportAction::Cancel)
    } else {
        (ImportRunState { next: st.next + 1, total: st.total }, ImportAction::Import(st.next))
    }
}

/// A run imports the candidates in order, each once: a step that imports
/// takes the next candidate and moves past it, and the run ends only after
/// the last.
pub proof fn lemma_import_run_in_order(st: ImportRunState, cancelled: bool)
    ensures
        ({
            let (st2, a) = import_run_step_spec(st, cancelled);
            &&& st2.total == st.total
            &&& (a matches ImportAction::Import(i) ==> i == st.next && i < st.total && st2.next == st.next + 1)
            &&& (!(a is Import) ==> st2 == st)
            &&& (a is Done <==> st.next >= st.total)
        }),
{
}


// ---------------------------------------------------------------------------
// Importing a folder.
// ---------------------------------------------------------------------------

/// A folder to import from: refused when it is not a directory, and when it
/// lies inside the current graph.
pub open spec fn source_dir_check_spec(display: Seq<char>, is_dir: bool, inside_graph: bool) -> Option<Seq<char>> {
    if !is_dir {
        Some("Book import source is not a directory: "@ + display)
    } else if inside_graph {
        Some(
            "Book import source is inside the current Grafium graph: "@ + display
                + ". Choose the folder that contains the original book files outside Grafium, not pages/Books."@,
        )
    } else {
        None
    }
}

/// Why a folder cannot be imported from, if it cannot.
pub fn source_dir_check(display: &str, is_dir: bool, inside_graph: bool) -> (r: Option<String>)
    ensures
        opt_view(r) == source_dir_check_spec(display@, is_dir, inside_graph),
{
    if !is_dir {
        let mut m = chars_of("Book import source is not a directory: ");
        push_str(&mut m, display);
        return Some(string_of(&m));
    }
    if inside_graph {
        let mut m = chars_of("Book import source is inside the current Grafium graph: ");
        push_str(&mut m, display);
        push_str(&mut m, ". Choose the folder that contains the original book files outside Grafium, not pages/Books.");
        return Some(string_of(&m));
    }
    None
}

/// What a folder scan does with one entry.
#[derive(Debug, Clone, Copy, PartialEq, Eq, Structural)]
pub enum ScanStep {
    /// Leave it out.
    Skip,
    /// Scan the directory.
    Descend,
    /// A book file of this format.
    Candidate(BookFormat),
}

/// One entry of a folder scan: hidden entries (name starting with `.`) are
/// left out, directories are scanned, files inside the graph and files
/// without a known book extension are left out, the rest are candidates.
pub open spec fn scan_step_spec(name: Seq<char>, is_dir: bool, inside_graph: bool, extension: Option<Seq<char>>) -> ScanStep {
    if name.len() > 0 && name[0] == '.' {
        ScanStep::Skip
    } else if is_dir {
        ScanStep::Descend
    } else if inside_graph {
        ScanStep::Skip
    } else {
        match extension {
            None => ScanStep::Skip,
            Some(e) => match BookFormat::from_extension_spec(e) {
                None => ScanStep::Skip,
                Some(f) => ScanStep::Candidate(f),
            },
        }
    }
}

pub fn scan_step(name: &str, is_dir: bool, inside_graph: bool, extension: Option<&str>) -> (r: ScanStep)
    ensures
        r == scan_step_spec(
            name@,
            is_dir,
            inside_graph,
            match extension {
                Some(e) => Some(e@),
                None => None,
            },
        ),
{
    let nc = chars_of(name);
    if nc.len() > 0 && nc[0] == '.' {
        return ScanStep::Skip;
    }
    if is_dir {
        return ScanStep::Descend;
    }
    if inside_graph {
        return ScanStep::Skip;
    }
    match extension {
        None => ScanStep::Skip,
        Some(e) => match BookFormat::from_extension(e) {
            None => ScanStep::Skip,
            Some(f) => ScanStep::Candidate(f),
        },
    }
}

/// The name a folder's import is reported under: the folder's own name,
/// else `selected folder`.
pub fn report_source_name(folder_name: Option<&str>) -> (r: String)
    ensures
        r@ == match folder_name {
            Some(n) => n@,
            None => "selected folder"@,
        },
{
    match folder_name {
        Some(n) => crate::text::owned(n),
        None => crate::text::owned("selected folder"),
    }
}

} // verus!
