//! Reading entries out of a zip archive held in memory (`zip`), and bytes as
//! UTF-8 text.

use std::io::Read;
use vstd::prelude::*;
use vstd::utf8::{decode_utf8, valid_utf8};
use crate::books::epub::opt_view;

verus! {

/// Why an entry could not be had.
#[derive(Debug, Clone, Copy, PartialEq, Eq, Structural)]
pub enum EntryFailure {
    /// The archive or the name could not be looked up.
    Lookup,
    /// The name is a directory.
    Directory,
    /// The entry was found but its bytes could not be read.
    Unreadable,
}

/// What `zip` reports on opening an archive: `None` when it opens,
/// otherwise its error's text.
pub uninterp spec fn spec_zip_open_error(archive: Seq<u8>) -> Option<Seq<char>>;

/// `zip::ZipArchive::new` on the bytes: `None` when the archive opens, else
/// the text of its error. The result is named.
#[verifier::external_body]
pub(crate) fn zip_open_error(archive: &[u8]) -> (r: Option<String>)
    ensures
        opt_view(r) == spec_zip_open_error(archive@),
{
    zip::ZipArchive::new(std::io::Cursor::new(archive)).err().map(|e| e.to_string())
}

/// What `zip` gives for the entry `name` of an archive: its bytes, or why
/// not, with the error's text.
pub uninterp spec fn spec_zip_entry(archive: Seq<u8>, name: Seq<char>) -> Result<Seq<u8>, (EntryFailure, Seq<char>)>;

pub open spec fn entry_view(r: Result<Vec<u8>, (EntryFailure, String)>) -> Result<Seq<u8>, (EntryFailure, Seq<char>)> {
    match r {
        Ok(b) => Ok(b@),
        Err((f, e)) => Err((f, e@)),
    }
}

/// `ZipArchive::by_name`, then `read_to_end`: the bytes of the entry
/// `name`; `Lookup` with the error's text when the archive does not open or
/// has no such entry, `Directory` (with no text) for a directory entry,
/// `Unreadable` with the error's text when reading fails. The result is
/// named.
#[verifier::external_body]
pub(crate) fn zip_entry(archive: &[u8], name: &str) -> (r: Result<Vec<u8>, (EntryFailure, String)>)
    ensures
        entry_view(r) == spec_zip_entry(archive@, name@),
{
    let mut zip = zip::ZipArchive::new(std::io::Cursor::new(archive)).map_err(|e| (EntryFailure::Lookup, e.to_string()))?;
    let mut f = zip.by_name(name).map_err(|e| (EntryFailure::Lookup, e.to_string()))?;
    if f.is_dir() {
        return Err((EntryFailure::Directory, String::new()));
    }
    let mut buf = Vec::new();
    f.read_to_end(&mut buf).map_err(|e| (EntryFailure::Unreadable, e.to_string()))?;
    Ok(buf)
}

/// The names `zip` lists for an archive, by index, or the text of the
/// first error.
pub uninterp spec fn spec_zip_names(archive: Seq<u8>) -> Result<Seq<Seq<char>>, Seq<char>>;

/// `ZipArchive::by_index(i).name()` for every index in order; the error's
/// text when the archive does not open or an entry cannot be opened. The
/// result is named.
#[verifier::external_body]
pub(crate) fn zip_names(archive: &[u8]) -> (r: Result<Vec<String>, String>)
    ensures
        match r {
            Ok(v) => spec_zip_names(archive@) == Ok::<Seq<Seq<char>>, Seq<char>>(v.deep_view()),
            Err(e) => spec_zip_names(archive@) == Err::<Seq<Seq<char>>, Seq<char>>(e@),
        },
{
    let mut zip = zip::ZipArchive::new(std::io::Cursor::new(archive)).map_err(|e| e.to_string())?;
    (0..zip.len()).map(|i| zip.by_index(i).and_then(|f| f.name().map(|n| n.into_owned())).map_err(|e| e.to_string())).collect()
}

/// `std::str::from_utf8`: the text the bytes encode when they are valid
/// UTF-8, as its documentation states, else `None`.
#[verifier::external_body]
pub(crate) fn utf8_text(bytes: &[u8]) -> (r: Option<String>)
    ensures
        r is Some <==> valid_utf8(bytes@),
        r matches Some(s) ==> s@ == decode_utf8(bytes@),
{
    std::str::from_utf8(bytes).ok().map(|s| s.to_string())
}

} // verus!
