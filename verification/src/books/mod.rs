//! Importing book-like files (EPUB, HTML, Markdown, text, PDF) as outline
//! pages: the text clean-up, paragraph and chapter detection, table-of-
//! contents linking, OCR figure geometry and HTML-to-Markdown rendering.
use vstd::prelude::*;
use crate::numbers::{decimal, decimal_exec};
use crate::text::{ascii_lower_seq, ascii_lowercase, chars_of, eq_str, push_all, push_str, string_of};

pub mod clean;
pub mod geometry;
pub mod pdf_text;
pub mod chapters;
pub mod outline;
pub mod epub;
pub mod markdown;
pub mod epub_toc;
pub mod html;
pub mod assets;
pub mod epub_split;
pub mod epub_anchors;
pub mod epub_book;
pub mod epub_archive;
pub mod documents;
pub mod layout;
pub mod import_run;

verus! {

/// Version tag written into every import manifest.
pub const IMPORTER_VERSION: &'static str = "grafium-book-import-v13";

/// Longest generated block, in characters, before it is split.
pub const MAX_GENERATED_BLOCK_CHARS: usize = 2000;

/// Supported source formats.
#[derive(Debug, Clone, Copy, PartialEq, Eq, Structural)]
pub enum BookFormat {
    Epub,
    Pdf,
    Html,
    Markdown,
    Text,
    Fb2,
    CalibreEbook,
}

impl BookFormat {
    pub open spec fn label_spec(self) -> Seq<char> {
        match self {
            BookFormat::Epub => "EPUB"@,
            BookFormat::Pdf => "PDF"@,
            BookFormat::Html => "HTML"@,
            BookFormat::Markdown => "Markdown"@,
            BookFormat::Text => "Text"@,
            BookFormat::Fb2 => "FB2"@,
            BookFormat::CalibreEbook => "Calibre ebook"@,
        }
    }

    /// Display name of the format.
    pub fn label(self) -> (r: &'static str)
        ensures
            r@ == self.label_spec(),
    {
        match self {
            BookFormat::Epub => "EPUB",
            BookFormat::Pdf => "PDF",
            BookFormat::Html => "HTML",
            BookFormat::Markdown => "Markdown",
            BookFormat::Text => "Text",
            BookFormat::Fb2 => "FB2",
            BookFormat::CalibreEbook => "Calibre ebook",
        }
    }

    pub open spec fn priority_spec(self) -> u8 {
        match self {
            BookFormat::Epub => 0,
            BookFormat::Html => 1,
            BookFormat::Markdown => 2,
            BookFormat::Text => 3,
            BookFormat::Fb2 => 4,
            BookFormat::CalibreEbook => 5,
            BookFormat::Pdf => 9,
        }
    }

    /// Import order: easy formats first, PDF (slow, maybe OCR) last.
    pub fn priority(self) -> (r: u8)
        ensures
            r == self.priority_spec(),
    {
        match self {
            BookFormat::Epub => 0,
            BookFormat::Html => 1,
            BookFormat::Markdown => 2,
            BookFormat::Text => 3,
            BookFormat::Fb2 => 4,
            BookFormat::CalibreEbook => 5,
            BookFormat::Pdf => 9,
        }
    }

    pub open spec fn from_extension_spec(ext: Seq<char>) -> Option<BookFormat> {
        let e = ascii_lower_seq(ext);
        if e == "epub"@ {
            Some(BookFormat::Epub)
        } else if e == "html"@ || e == "htm"@ || e == "xhtml"@ {
            Some(BookFormat::Html)
        } else if e == "md"@ || e == "markdown"@ || e == "mdown"@ {
            Some(BookFormat::Markdown)
        } else if e == "txt"@ || e == "text"@ {
            Some(BookFormat::Text)
        } else if e == "fb2"@ {
            Some(BookFormat::Fb2)
        } else if e == "pdf"@ {
            Some(BookFormat::Pdf)
        } else if e == "mobi"@ || e == "azw"@ || e == "azw3"@ || e == "azw4"@ || e == "lit"@ || e
            == "lrf"@ || e == "pdb"@ || e == "rb"@ || e == "snb"@ || e == "tcr"@ || e == "odt"@
            || e == "docx"@ || e == "rtf"@ || e == "cbz"@ || e == "cbr"@ {
            Some(BookFormat::CalibreEbook)
        } else {
            None
        }
    }

    /// The format of a file extension (ASCII case-insensitive).
    pub fn from_extension(ext: &str) -> (r: Option<BookFormat>)
        ensures
            r == BookFormat::from_extension_spec(ext@),
    {
        let raw = chars_of(ext);
        let e = ascii_lowercase(&raw);
        if eq_str(&e, "epub") {
            Some(BookFormat::Epub)
        } else if eq_str(&e, "html") || eq_str(&e, "htm") || eq_str(&e, "xhtml") {
            Some(BookFormat::Html)
        } else if eq_str(&e, "md") || eq_str(&e, "markdown") || eq_str(&e, "mdown") {
            Some(BookFormat::Markdown)
        } else if eq_str(&e, "txt") || eq_str(&e, "text") {
            Some(BookFormat::Text)
        } else if eq_str(&e, "fb2") {
            Some(BookFormat::Fb2)
        } else if eq_str(&e, "pdf") {
            Some(BookFormat::Pdf)
        } else if eq_str(&e, "mobi") || eq_str(&e, "azw") || eq_str(&e, "azw3") || eq_str(
            &e,
            "azw4",
        ) || eq_str(&e, "lit") || eq_str(&e, "lrf") || eq_str(&e, "pdb") || eq_str(&e, "rb")
            || eq_str(&e, "snb") || eq_str(&e, "tcr") || eq_str(&e, "odt") || eq_str(&e, "docx")
            || eq_str(&e, "rtf") || eq_str(&e, "cbz") || eq_str(&e, "cbr") {
            Some(BookFormat::CalibreEbook)
        } else {
            None
        }
    }
}

/// Outcome of importing one book.
#[derive(Debug, Clone, Copy, PartialEq, Eq, Structural)]
pub enum BookImportStatus {
    Imported,
    Skipped,
    Failed,
}

/// Report line for one source file.
#[derive(Debug, Clone)]
pub struct BookImportItem {
    pub source_file: String,
    pub format: BookFormat,
    pub status: BookImportStatus,
    pub title: Option<String>,
    pub index_page_title: Option<String>,
    pub index_page_id: Option<String>,
    pub message: Option<String>,
}

/// Report of a whole import run.
#[derive(Debug, Clone)]
pub struct BookImportReport {
    pub source_dir: String,
    pub discovered: usize,
    pub imported: usize,
    pub skipped: usize,
    pub failed: usize,
    pub items: Vec<BookImportItem>,
}

/// State of one file in the import queue.
#[derive(Debug, Clone, Copy, PartialEq, Eq, Structural)]
pub enum BookImportQueueStatus {
    Queued,
    Importing,
    Imported,
    Skipped,
    Failed,
}

/// One file in the import queue shown while importing.
#[derive(Debug, Clone)]
pub struct BookImportQueueItem {
    pub source_file: String,
    pub format: BookFormat,
    pub status: BookImportQueueStatus,
    pub title: Option<String>,
    pub message: Option<String>,
}

/// Progress of an import run.
#[derive(Debug, Clone)]
pub struct BookImportProgress {
    pub done: usize,
    pub total: usize,
    pub message: String,
    pub queue: Vec<BookImportQueueItem>,
}

/// One chapter of a converted book.
#[derive(Debug, Clone, PartialEq, Eq)]
pub struct BookChapter {
    pub title: String,
    /// The title was made up (no heading was found for this part).
    pub generated_title: bool,
    pub blocks: Vec<String>,
}

/// A file extracted from a book (an image), stored beside its pages.
#[derive(Debug, Clone)]
pub struct BookAsset {
    pub relative_path: String,
    pub bytes: Vec<u8>,
}

/// A converted book: its title, chapters, extracted files and notes about
/// the conversion.
#[derive(Debug, Clone)]
pub struct BookDocument {
    pub title: String,
    pub chapters: Vec<BookChapter>,
    pub assets: Vec<BookAsset>,
    pub notes: Vec<String>,
}

/// The queue state that records a finished import.
pub open spec fn finished_queue_status(status: BookImportStatus) -> BookImportQueueStatus {
    match status {
        BookImportStatus::Imported => BookImportQueueStatus::Imported,
        BookImportStatus::Skipped => BookImportQueueStatus::Skipped,
        BookImportStatus::Failed => BookImportQueueStatus::Failed,
    }
}

pub fn finished_queue_status_exec(status: BookImportStatus) -> (r: BookImportQueueStatus)
    ensures
        r == finished_queue_status(status),
{
    match status {
        BookImportStatus::Imported => BookImportQueueStatus::Imported,
        BookImportStatus::Skipped => BookImportQueueStatus::Skipped,
        BookImportStatus::Failed => BookImportQueueStatus::Failed,
    }
}

/// A report counts each of its items once, under its status.
pub open spec fn report_balanced(r: BookImportReport) -> bool {
    r.imported + r.skipped + r.failed == r.items@.len()
}

impl BookImportReport {
    /// An empty report for `discovered` files found under `source_dir`.
    pub fn new(source_dir: String, discovered: usize) -> (r: BookImportReport)
        ensures
            r.source_dir == source_dir,
            r.discovered == discovered,
            r.imported == 0 && r.skipped == 0 && r.failed == 0,
            r.items@.len() == 0,
            report_balanced(r),
    {
        BookImportReport {
            source_dir,
            discovered,
            imported: 0,
            skipped: 0,
            failed: 0,
            items: Vec::new(),
        }
    }

    /// Record one finished item: count it under its status and append it.
    pub fn record(&mut self, item: BookImportItem)
        requires
            old(self).imported + old(self).skipped + old(self).failed < usize::MAX,
        ensures
            final(self).items@ == old(self).items@.push(item),
            final(self).imported == old(self).imported + if item.status == BookImportStatus::Imported { 1int } else { 0 },
            final(self).skipped == old(self).skipped + if item.status == BookImportStatus::Skipped { 1int } else { 0 },
            final(self).failed == old(self).failed + if item.status == BookImportStatus::Failed { 1int } else { 0 },
            final(self).imported + final(self).skipped + final(self).failed == old(self).imported
                + old(self).skipped + old(self).failed + 1,
            final(self).discovered == old(self).discovered,
            report_balanced(*old(self)) ==> report_balanced(*final(self)),
            final(self).source_dir == old(self).source_dir,
    {
        match item.status {
            BookImportStatus::Imported => self.imported = self.imported + 1,
            BookImportStatus::Skipped => self.skipped = self.skipped + 1,
            BookImportStatus::Failed => self.failed = self.failed + 1,
        }
        self.items.push(item);
    }
}

/// The success message of an import.
pub open spec fn import_success_message_spec(chapter_count: nat, asset_count: nat) -> Seq<char> {
    "Imported 1 book page with "@ + decimal(chapter_count) + " chapter sections"@ + if asset_count
        == 0 {
        Seq::<char>::empty()
    } else {
        " and "@ + decimal(asset_count) + " assets"@
    }
}

pub fn import_success_message(chapter_count: usize, asset_count: usize) -> (r: String)
    ensures
        r@ == import_success_message_spec(chapter_count as nat, asset_count as nat),
{
    let mut out = chars_of("Imported 1 book page with ");
    let n = decimal_exec(chapter_count as u64);
    push_all(&mut out, &n);
    push_str(&mut out, " chapter sections");
    if asset_count != 0 {
        push_str(&mut out, " and ");
        let a = decimal_exec(asset_count as u64);
        push_all(&mut out, &a);
        push_str(&mut out, " assets");
    } else {
        proof {
            assert(out@ + Seq::<char>::empty() =~= out@);
        }
    }
    string_of(&out)
}

} // verus!
